use unshield_relayer::helper::{decoded_privkey, to_fixed_hex, U256, new_nonce, parse_u8_or_zero, to_hex_string, to_uint_array};
use unshield_relayer::indexer::{merge_and_sort_transactions, LightTransaction};

#[test]
fn hex_string_is_lowercase_pairs() {
    assert_eq!(to_hex_string(&[0xde, 0xad, 0x01, 0x00, 0xff]), "dead0100ff");
    assert_eq!(to_hex_string(&[]), "");
}

#[test]
fn uint_array_copies() {
    assert_eq!(to_uint_array(&[3, 1, 4]), vec![3, 1, 4]);
}

#[test]
fn nonce_is_alphanumeric() {
    let n = new_nonce(24);
    assert_eq!(n.len(), 24);
    assert!(n.iter().all(|b| b.is_ascii_alphanumeric()));
    assert!(new_nonce(0).is_empty());
}

#[test]
fn privkey_reads_comma_separated_bytes() {
    assert_eq!(decoded_privkey("1,2,255"), vec![1, 2, 255]);
    assert_eq!(decoded_privkey("1,abc,256,,+7,007"), vec![1, 0, 0, 0, 7, 7]);
    assert_eq!(decoded_privkey(""), vec![0]);
    assert_eq!(decoded_privkey("12,"), vec![12, 0]);
}

#[test]
fn byte_parse_matches_std() {
    for s in ["0", "255", "256", "+", "+1", "-1", "", " 1", "1000", "099", "2555"] {
        let chars: Vec<char> = s.chars().collect();
        assert_eq!(parse_u8_or_zero(&chars), s.parse::<u8>().unwrap_or(0), "{}", s);
    }
}

fn tx(sig: &str, t: i64) -> LightTransaction {
    LightTransaction { signature: sig.to_string(), block_time: t }
}

#[test]
fn merge_drops_repeats_and_orders_newest_first() {
    let db = vec![tx("a", 5), tx("b", 9)];
    let new = vec![vec![tx("c", 7), tx("a", 100)], vec![tx("d", 9), tx("e", 1)]];
    let merged = merge_and_sort_transactions(db, new);
    let got: Vec<(String, i64)> = merged.into_iter().map(|t| (t.signature, t.block_time)).collect();
    let want: Vec<(String, i64)> =
        vec![("b", 9), ("d", 9), ("c", 7), ("a", 5), ("e", 1)].into_iter().map(|(s, t)| (s.to_string(), t)).collect();
    assert_eq!(got, want);
}

#[test]
fn merge_of_nothing_is_empty() {
    assert!(merge_and_sort_transactions(Vec::new(), Vec::new()).is_empty());
}

fn u256_low(v: u64) -> U256 {
    let mut bytes = [0u8; 32];
    bytes[24..].copy_from_slice(&v.to_be_bytes());
    U256 { bytes }
}

#[test]
fn fixed_hex_pads_on_the_left() {
    assert_eq!(to_fixed_hex(&u256_low(0x1234), 4), "00000x1234");
    assert_eq!(to_fixed_hex(&u256_low(0), 1), "00x0");
    assert_eq!(to_fixed_hex(&u256_low(0), 0), "0x0");
    assert_eq!(to_fixed_hex(&u256_low(0xabc), 1), "0xabc");
    let max = U256 { bytes: [0xff; 32] };
    assert_eq!(to_fixed_hex(&max, 32), format!("0x{}", "f".repeat(64)));
}
