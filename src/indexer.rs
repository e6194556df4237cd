//! Merging of fetched chain-history transactions: duplicates by signature
//! are dropped and the rest ordered newest first.

use vstd::prelude::*;

verus! {

/// A fetched transaction: its signature and block time.
#[derive(Debug)]
pub struct LightTransaction {
    pub signature: String,
    pub block_time: i64,
}

/// The lists laid end to end.
pub open spec fn concat_all(lists: Seq<Vec<LightTransaction>>) -> Seq<LightTransaction>
    decreases lists.len(),
{
    if lists.len() == 0 {
        Seq::empty()
    } else {
        concat_all(lists.drop_last()) + lists.last()@
    }
}

/// Some item of `s` has signature `sig`.
pub open spec fn has_signature(s: Seq<LightTransaction>, sig: Seq<char>) -> bool {
    exists|i: int| 0 <= i < s.len() && (#[trigger] s[i]).signature@ == sig
}

/// `s` with every item whose signature came earlier taken out.
pub open spec fn dedup_first(s: Seq<LightTransaction>) -> Seq<LightTransaction>
    decreases s.len(),
{
    if s.len() == 0 {
        Seq::empty()
    } else {
        let d = dedup_first(s.drop_last());
        if has_signature(d, s.last().signature@) { d } else { d.push(s.last()) }
    }
}

/// Index of the first item of `s` older than `t`, or `s.len()`.
pub open spec fn first_older(s: Seq<LightTransaction>, t: i64) -> nat
    decreases s.len(),
{
    if s.len() == 0 {
        0
    } else if s[0].block_time < t {
        0
    } else {
        1 + first_older(s.drop_first(), t)
    }
}

/// `s` ordered newest first; items of equal block time keep their order.
pub open spec fn sort_newest_first(s: Seq<LightTransaction>) -> Seq<LightTransaction>
    decreases s.len(),
{
    if s.len() == 0 {
        Seq::empty()
    } else {
        let sorted = sort_newest_first(s.drop_last());
        sorted.insert(first_older(sorted, s.last().block_time) as int, s.last())
    }
}

proof fn lemma_first_older_bound(s: Seq<LightTransaction>, t: i64)
    ensures
        first_older(s, t) <= s.len(),
    decreases s.len(),
{
    if s.len() > 0 {
        lemma_first_older_bound(s.drop_first(), t);
    }
}

/// Where `x` goes in `sorted`.
fn find_slot(sorted: &Vec<LightTransaction>, t: i64) -> (r: usize)
    ensures
        r == first_older(sorted@, t),
{
    let mut i: usize = 0;
    assert(sorted@.skip(0) =~= sorted@);
    while i < sorted.len() && sorted[i].block_time >= t
        invariant
            i <= sorted@.len(),
            first_older(sorted@, t) == i + first_older(sorted@.skip(i as int), t),
        decreases sorted@.len() - i,
    {
        assert(sorted@.skip(i as int).drop_first() =~= sorted@.skip(i + 1));
        i = i + 1;
    }
    if i < sorted.len() {
        assert(sorted@.skip(i as int)[0] == sorted@[i as int]);
    }
    i
}

/// Whether some item of `s` has signature `sig`.
fn contains_signature(s: &Vec<LightTransaction>, sig: &String) -> (r: bool)
    ensures
        r == has_signature(s@, sig@),
{
    let mut i: usize = 0;
    while i < s.len()
        invariant
            i <= s@.len(),
            forall|j: int| 0 <= j < i ==> (#[trigger] s@[j]).signature@ != sig@,
        decreases s@.len() - i,
    {
        if s[i].signature == *sig {
            return true;
        }
        i = i + 1;
    }
    false
}

/// Lays the stored transactions and each list of new ones end to end, drops
/// every transaction whose signature came earlier, and orders the rest newest
/// first, keeping the order of those with equal block time.
pub fn merge_and_sort_transactions(
    db_transactions: Vec<LightTransaction>,
    new_transactions: Vec<Vec<LightTransaction>>,
) -> (r: Vec<LightTransaction>)
    ensures
        r@ == sort_newest_first(dedup_first(db_transactions@ + concat_all(new_transactions@))),
{
    let ghost lists = new_transactions@;
    let ghost db = db_transactions@;
    let mut all = db_transactions;
    let mut rest = new_transactions;
    let ghost mut k: int = 0;
    proof {
        assert(lists.take(0) =~= Seq::<Vec<LightTransaction>>::empty());
        assert(db + concat_all(lists.take(0)) =~= db);
    }
    while rest.len() > 0
        invariant
            0 <= k <= lists.len(),
            rest@ == lists.skip(k),
            all@ == db + concat_all(lists.take(k)),
        decreases rest@.len(),
    {
        let mut list = rest.remove(0);
        proof {
            assert(list == lists[k]);
            assert(lists.take(k + 1).drop_last() =~= lists.take(k));
            assert(lists.take(k + 1).last() == lists[k]);
        }
        all.append(&mut list);
        proof {
            k = k + 1;
            assert(rest@ =~= lists.skip(k));
            assert(all@ =~= db + concat_all(lists.take(k)));
        }
    }
    proof {
        assert(lists.take(k) =~= lists);
    }
    let ghost total = all@;
    let mut uniq: Vec<LightTransaction> = Vec::new();
    let ghost mut i: int = 0;
    proof {
        assert(total.take(0) =~= Seq::<LightTransaction>::empty());
    }
    while all.len() > 0
        invariant
            0 <= i <= total.len(),
            all@ == total.skip(i),
            uniq@ == dedup_first(total.take(i)),
        decreases all@.len(),
    {
        let x = all.remove(0);
        proof {
            assert(x == total[i]);
            assert(total.take(i + 1).drop_last() =~= total.take(i));
            assert(total.take(i + 1).last() == x);
        }
        if !contains_signature(&uniq, &x.signature) {
            uniq.push(x);
        }
        proof {
            i = i + 1;
            assert(all@ =~= total.skip(i));
        }
    }
    proof {
        assert(total.take(i) =~= total);
    }
    let ghost u = uniq@;
    let mut sorted: Vec<LightTransaction> = Vec::new();
    let ghost mut j: int = 0;
    proof {
        assert(u.take(0) =~= Seq::<LightTransaction>::empty());
    }
    while uniq.len() > 0
        invariant
            0 <= j <= u.len(),
            uniq@ == u.skip(j),
            sorted@ == sort_newest_first(u.take(j)),
        decreases uniq@.len(),
    {
        let x = uniq.remove(0);
        proof {
            assert(x == u[j]);
            assert(u.take(j + 1).drop_last() =~= u.take(j));
            assert(u.take(j + 1).last() == x);
        }
        let slot = find_slot(&sorted, x.block_time);
        proof {
            lemma_first_older_bound(sorted@, x.block_time);
        }
        sorted.insert(slot, x);
        proof {
            j = j + 1;
            assert(uniq@ =~= u.skip(j));
        }
    }
    proof {
        assert(u.take(j) =~= u);
    }
    sorted
}

} // verus!
