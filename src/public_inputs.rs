//! The fixed byte layout of a withdrawal's `ext_data` and its decoding.

use vstd::prelude::*;

verus! {

/// Number of bytes that the fixed layout occupies.
pub const PUBLIC_INPUTS_LEN: usize = 335;

/// Failure to decode or build a withdrawal.
#[derive(Debug, Clone, Copy, PartialEq, Eq)]
pub enum BuildError {
    /// The `ext_data` bytes are shorter than the fixed layout.
    MalformedInput,
    /// The owner is no base58 address of a 32-byte key.
    InvalidOwner,
}

/// The twelve fields of the fixed layout, each as raw bytes.
#[derive(Debug)]
pub struct PublicInputs {
    pub recipient: Vec<u8>,
    pub ext_amount: Vec<u8>,
    pub relayer: Vec<u8>,
    pub fee: Vec<u8>,
    pub merkle_tree_pubkey_bytes: Vec<u8>,
    pub merkle_tree_index: u8,
    pub encrypted_output1: Vec<u8>,
    pub nonce1: Vec<u8>,
    pub sender_throw_away_pubkey1: Vec<u8>,
    pub encrypted_output2: Vec<u8>,
    pub nonce2: Vec<u8>,
    pub sender_throw_away_pubkey2: Vec<u8>,
}

impl PublicInputs {
    /// Every field has the width that the layout gives it.
    pub open spec fn wf(&self) -> bool {
        &&& self.recipient@.len() == 32
        &&& self.ext_amount@.len() == 8
        &&& self.relayer@.len() == 32
        &&& self.fee@.len() == 8
        &&& self.merkle_tree_pubkey_bytes@.len() == 32
        &&& self.encrypted_output1@.len() == 55
        &&& self.nonce1@.len() == 24
        &&& self.sender_throw_away_pubkey1@.len() == 32
        &&& self.encrypted_output2@.len() == 55
        &&& self.nonce2@.len() == 24
        &&& self.sender_throw_away_pubkey2@.len() == 32
    }

    /// The fields laid out one after another, in layout order.
    pub open spec fn encoded(&self) -> Seq<u8> {
        self.recipient@ + self.ext_amount@ + self.relayer@ + self.fee@
            + self.merkle_tree_pubkey_bytes@ + seq![self.merkle_tree_index]
            + self.encrypted_output1@ + self.nonce1@ + self.sender_throw_away_pubkey1@
            + self.encrypted_output2@ + self.nonce2@ + self.sender_throw_away_pubkey2@
    }

    /// Each field holds the bytes of `b` at the field's offset.
    pub open spec fn decoded_from(&self, b: Seq<u8>) -> bool {
        &&& b.len() >= PUBLIC_INPUTS_LEN
        &&& self.recipient@ == b.subrange(0, 32)
        &&& self.ext_amount@ == b.subrange(32, 40)
        &&& self.relayer@ == b.subrange(40, 72)
        &&& self.fee@ == b.subrange(72, 80)
        &&& self.merkle_tree_pubkey_bytes@ == b.subrange(80, 112)
        &&& self.merkle_tree_index == b[112]
        &&& self.encrypted_output1@ == b.subrange(113, 168)
        &&& self.nonce1@ == b.subrange(168, 192)
        &&& self.sender_throw_away_pubkey1@ == b.subrange(192, 224)
        &&& self.encrypted_output2@ == b.subrange(224, 279)
        &&& self.nonce2@ == b.subrange(279, 303)
        &&& self.sender_throw_away_pubkey2@ == b.subrange(303, 335)
    }

    /// Lays the fields out in layout order.
    pub fn to_bytes(&self) -> (r: Vec<u8>)
        ensures
            r@ == self.encoded(),
    {
        let mut r: Vec<u8> = Vec::new();
        append_bytes(&mut r, &self.recipient);
        append_bytes(&mut r, &self.ext_amount);
        append_bytes(&mut r, &self.relayer);
        append_bytes(&mut r, &self.fee);
        append_bytes(&mut r, &self.merkle_tree_pubkey_bytes);
        r.push(self.merkle_tree_index);
        append_bytes(&mut r, &self.encrypted_output1);
        append_bytes(&mut r, &self.nonce1);
        append_bytes(&mut r, &self.sender_throw_away_pubkey1);
        append_bytes(&mut r, &self.encrypted_output2);
        append_bytes(&mut r, &self.nonce2);
        append_bytes(&mut r, &self.sender_throw_away_pubkey2);
        r
    }
}

/// Appends the bytes of `src` to `dst`.
fn append_bytes(dst: &mut Vec<u8>, src: &Vec<u8>)
    ensures
        final(dst)@ == old(dst)@ + src@,
{
    let mut i: usize = 0;
    while i < src.len()
        invariant
            i <= src@.len(),
            dst@ == old(dst)@ + src@.subrange(0, i as int),
        decreases src@.len() - i,
    {
        dst.push(src[i]);
        i = i + 1;
        assert(src@.subrange(0, i as int) == src@.subrange(0, i - 1) + seq![src@[i - 1]]);
    }
    assert(src@.subrange(0, src@.len() as int) == src@);
}

/// Copies the bytes of `b` from `lo` up to `hi`.
fn copy_range(b: &[u8], lo: usize, hi: usize) -> (r: Vec<u8>)
    requires
        lo <= hi <= b@.len(),
    ensures
        r@ == b@.subrange(lo as int, hi as int),
{
    let mut r: Vec<u8> = Vec::new();
    let mut i: usize = lo;
    while i < hi
        invariant
            lo <= i <= hi <= b@.len(),
            r@ == b@.subrange(lo as int, i as int),
        decreases hi - i,
    {
        r.push(b[i]);
        i = i + 1;
        assert(b@.subrange(lo as int, i as int) == b@.subrange(lo as int, i - 1) + seq![b@[i - 1]]);
    }
    r
}

/// Reads the twelve fields at their fixed offsets. Bytes past the layout are
/// ignored; input shorter than the layout is rejected.
pub fn public_inputs_bytes_to_object(inputs: &[u8]) -> (r: Result<PublicInputs, BuildError>)
    ensures
        inputs@.len() < PUBLIC_INPUTS_LEN ==> r == Err::<PublicInputs, BuildError>(BuildError::MalformedInput),
        inputs@.len() >= PUBLIC_INPUTS_LEN ==> r is Ok && r->Ok_0.wf() && r->Ok_0.decoded_from(inputs@),
{
    if inputs.len() < PUBLIC_INPUTS_LEN {
        return Err(BuildError::MalformedInput);
    }
    Ok(PublicInputs {
        recipient: copy_range(inputs, 0, 32),
        ext_amount: copy_range(inputs, 32, 40),
        relayer: copy_range(inputs, 40, 72),
        fee: copy_range(inputs, 72, 80),
        merkle_tree_pubkey_bytes: copy_range(inputs, 80, 112),
        merkle_tree_index: inputs[112],
        encrypted_output1: copy_range(inputs, 113, 168),
        nonce1: copy_range(inputs, 168, 192),
        sender_throw_away_pubkey1: copy_range(inputs, 192, 224),
        encrypted_output2: copy_range(inputs, 224, 279),
        nonce2: copy_range(inputs, 279, 303),
        sender_throw_away_pubkey2: copy_range(inputs, 303, 335),
    })
}

/// Decoding `ext_data` and laying the fields out again gives back its first
/// 335 bytes, and so exactly the input where it holds 335.
pub proof fn lemma_decode_encode_round_trip(b: Seq<u8>, p: PublicInputs)
    requires
        p.decoded_from(b),
    ensures
        p.encoded() == b.subrange(0, PUBLIC_INPUTS_LEN as int),
        b.len() == PUBLIC_INPUTS_LEN ==> p.encoded() == b,
{
    assert(p.encoded() =~= b.subrange(0, PUBLIC_INPUTS_LEN as int));
    assert(b.len() == PUBLIC_INPUTS_LEN ==> b.subrange(0, PUBLIC_INPUTS_LEN as int) =~= b);
}

/// Laying well-formed fields out and decoding the result gives back the same
/// fields.
pub proof fn lemma_encode_decode_round_trip(p: PublicInputs, q: PublicInputs)
    requires
        p.wf(),
        q.decoded_from(p.encoded()),
    ensures
        q.wf(),
        q.recipient@ == p.recipient@,
        q.ext_amount@ == p.ext_amount@,
        q.relayer@ == p.relayer@,
        q.fee@ == p.fee@,
        q.merkle_tree_pubkey_bytes@ == p.merkle_tree_pubkey_bytes@,
        q.merkle_tree_index == p.merkle_tree_index,
        q.encrypted_output1@ == p.encrypted_output1@,
        q.nonce1@ == p.nonce1@,
        q.sender_throw_away_pubkey1@ == p.sender_throw_away_pubkey1@,
        q.encrypted_output2@ == p.encrypted_output2@,
        q.nonce2@ == p.nonce2@,
        q.sender_throw_away_pubkey2@ == p.sender_throw_away_pubkey2@,
{
    let e = p.encoded();
    assert(e.subrange(0, 32) =~= p.recipient@);
    assert(e.subrange(32, 40) =~= p.ext_amount@);
    assert(e.subrange(40, 72) =~= p.relayer@);
    assert(e.subrange(72, 80) =~= p.fee@);
    assert(e.subrange(80, 112) =~= p.merkle_tree_pubkey_bytes@);
    assert(e[112] == p.merkle_tree_index);
    assert(e.subrange(113, 168) =~= p.encrypted_output1@);
    assert(e.subrange(168, 192) =~= p.nonce1@);
    assert(e.subrange(192, 224) =~= p.sender_throw_away_pubkey1@);
    assert(e.subrange(224, 279) =~= p.encrypted_output2@);
    assert(e.subrange(279, 303) =~= p.nonce2@);
    assert(e.subrange(303, 335) =~= p.sender_throw_away_pubkey2@);
}

} // verus!
