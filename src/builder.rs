//! The transaction builder: one instruction per withdrawal, grouped into
//! transactions of at most `ix_per_tx` instructions each.

use vstd::prelude::*;
use std::str::FromStr;
use vstd::arithmetic::div_mod::{lemma_div_plus_one, lemma_mod_add_multiples_vanish};
use crate::job::JobData;
use crate::broadcast::{Sender, SendAction, Phase};
use crate::public_inputs::{
    public_inputs_bytes_to_object, lemma_decode_encode_round_trip, BuildError,
    PUBLIC_INPUTS_LEN,
};

verus! {

/// One on-chain call: the program it targets, the account that signs it, and
/// its data.
#[derive(Debug)]
pub struct BuiltInstruction {
    pub program_id: [u8; 32],
    pub signer: [u8; 32],
    pub data: Vec<u8>,
}

/// An unsigned transaction: its fee payer and its instructions, in order.
#[derive(Debug)]
pub struct BuiltTransaction {
    pub fee_payer: [u8; 32],
    pub instructions: Vec<BuiltInstruction>,
}

/// `s` cut into consecutive groups: each group but the last holds exactly `b`
/// items, and a new group starts when the current one has reached `b`.
pub open spec fn batches_of<T>(s: Seq<T>, b: nat) -> Seq<Seq<T>>
    recommends
        b > 0,
    decreases s.len(),
{
    if s.len() == 0 || b == 0 {
        Seq::empty()
    } else if s.len() <= b {
        seq![s]
    } else {
        seq![s.take(b as int)].add(batches_of(s.skip(b as int), b))
    }
}

/// The groups, laid end to end.
pub open spec fn flatten<T>(g: Seq<Seq<T>>) -> Seq<T>
    decreases g.len(),
{
    if g.len() == 0 {
        Seq::empty()
    } else {
        g[0] + flatten(g.drop_first())
    }
}

/// Number of groups that `n` items make with at most `b` in each.
pub open spec fn ceil_div(n: nat, b: nat) -> nat
    recommends
        b > 0,
{
    ((n + b - 1) / b as int) as nat
}

/// Size of the last group that `n > 0` items make with at most `b` in each.
pub open spec fn last_batch_len(n: nat, b: nat) -> nat
    recommends
        b > 0,
{
    if n % b == 0 { b } else { n % b }
}

/// Grouping `n` items by at most `b` gives `ceil(n / b)` groups, none empty,
/// none over `b`, the last of `n mod b` items (or `b` where `b` divides `n`),
/// and laid end to end they are the items in their order.
pub proof fn lemma_batch_counts<T>(s: Seq<T>, b: nat)
    requires
        b > 0,
    ensures
        batches_of(s, b).len() == ceil_div(s.len(), b),
        forall|i: int| 0 <= i < batches_of(s, b).len()
            ==> 0 < #[trigger] batches_of(s, b)[i].len() <= b,
        s.len() > 0 ==> batches_of(s, b).last().len() == last_batch_len(s.len(), b),
        flatten(batches_of(s, b)) == s,
    decreases s.len(),
{
    let n = s.len() as int;
    let bi = b as int;
    if n == 0 {
        assert((bi - 1) / bi == 0) by (nonlinear_arith) requires bi > 0;
    } else if n <= bi {
        assert((n + bi - 1) / bi == 1) by (nonlinear_arith) requires 0 < n <= bi;
        assert(n % bi == if n == bi { 0int } else { n }) by (nonlinear_arith) requires 0 < n <= bi;
        assert(flatten(seq![s]) == s + flatten(seq![s].drop_first()));
        assert(flatten(seq![s].drop_first()) == Seq::<T>::empty()) by {
            assert(seq![s].drop_first().len() == 0);
        }
        assert(s + Seq::<T>::empty() =~= s);
    } else {
        let rest = s.skip(bi);
        lemma_batch_counts(rest, b);
        let g = batches_of(s, b);
        let gr = batches_of(rest, b);
        assert(g == seq![s.take(bi)].add(gr));
        lemma_div_plus_one(n - bi + bi - 1, bi);
        assert(bi + (n - bi + bi - 1) == n + bi - 1);
        lemma_mod_add_multiples_vanish(n - bi, bi);
        assert(forall|i: int| 0 <= i < g.len() ==> #[trigger] g[i] == if i == 0 { s.take(bi) } else { gr[i - 1] });
        assert(g.drop_first() =~= gr);
        assert(s.take(bi) + rest =~= s);
    }
}

/// Groups the instructions, in order, into transactions paid by `fee_payer`,
/// at most `ix_per_tx` instructions to a transaction.
pub fn batch_instructions(instructions: Vec<BuiltInstruction>, ix_per_tx: usize, fee_payer: [u8; 32]) -> (r: Vec<BuiltTransaction>)
    requires
        ix_per_tx > 0,
    ensures
        r@.len() == batches_of(instructions@, ix_per_tx as nat).len(),
        forall|i: int| 0 <= i < r@.len() ==> {
            &&& (#[trigger] r@[i]).instructions@ == batches_of(instructions@, ix_per_tx as nat)[i]
            &&& r@[i].fee_payer == fee_payer
        },
{
    let ghost b = ix_per_tx as nat;
    let ghost g = batches_of(instructions@, b);
    let mut rest = instructions;
    let mut txs: Vec<BuiltTransaction> = Vec::new();
    while rest.len() > 0
        invariant
            b == ix_per_tx as nat,
            b > 0,
            g == batches_of(instructions@, b),
            txs@.len() + batches_of(rest@, b).len() == g.len(),
            forall|i: int| 0 <= i < txs@.len() ==> {
                &&& (#[trigger] txs@[i]).instructions@ == g[i]
                &&& txs@[i].fee_payer == fee_payer
            },
            forall|j: int| 0 <= j < batches_of(rest@, b).len()
                ==> #[trigger] batches_of(rest@, b)[j] == g[txs@.len() + j],
        decreases rest@.len(),
    {
        let ghost old_rest = rest@;
        let at: usize = if rest.len() <= ix_per_tx { rest.len() } else { ix_per_tx };
        let tail = rest.split_off(at);
        proof {
            if old_rest.len() <= b {
                assert(batches_of(old_rest, b) == seq![old_rest]);
                assert(rest@ == old_rest);
                assert(batches_of(tail@, b) == Seq::<Seq<BuiltInstruction>>::empty());
            } else {
                assert(rest@ == old_rest.take(b as int));
                assert(tail@ == old_rest.skip(b as int));
                assert(batches_of(old_rest, b) == seq![rest@].add(batches_of(tail@, b)));
            }
            assert(batches_of(old_rest, b)[0] == rest@);
            assert forall|j: int| 0 <= j < batches_of(tail@, b).len()
                implies #[trigger] batches_of(tail@, b)[j] == g[txs@.len() + 1 + j] by {
                assert(batches_of(old_rest, b)[j + 1] == batches_of(tail@, b)[j]);
            }
        }
        txs.push(BuiltTransaction { fee_payer, instructions: rest });
        rest = tail;
    }
    proof {
        assert(batches_of(rest@, b).len() == 0);
    }
    txs
}

/// The data of the instruction that a withdrawal request becomes: its proof
/// inputs, its proof, and the fixed layout of its `ext_data`.
pub open spec fn instruction_data(job: JobData) -> Seq<u8> {
    job.input@ + job.proof@ + job.ext_data@.subrange(0, PUBLIC_INPUTS_LEN as int)
}

/// The key that an address written in base58 reads as, if it is one.
pub uninterp spec fn address_key(s: Seq<char>) -> Option<[u8; 32]>;

/// Relies on solana_sdk's `Pubkey::from_str`: the 32-byte key that a base58
/// address decodes to, or an error; the empty string is no address.
#[verifier::external_body]
fn parse_address(s: &str) -> (r: Option<[u8; 32]>)
    ensures
        r == address_key(s@),
        s@.len() == 0 ==> r is None,
{
    solana_sdk::pubkey::Pubkey::from_str(s).ok().map(|k| k.to_bytes())
}

/// Whether a withdrawal request builds, given the key that its owner's
/// address reads as: `ext_data` must hold the whole layout, then the owner
/// must be an address.
pub open spec fn build_outcome(job: JobData, owner_key: Option<[u8; 32]>) -> Result<(), BuildError> {
    if job.ext_data@.len() < PUBLIC_INPUTS_LEN {
        Err(BuildError::MalformedInput)
    } else if owner_key is None {
        Err(BuildError::InvalidOwner)
    } else {
        Ok(())
    }
}

/// `ix` is the instruction of `job` for a builder targeting `program_id`.
pub open spec fn instruction_of(ix: BuiltInstruction, program_id: [u8; 32], job: JobData, owner: [u8; 32]) -> bool {
    &&& ix.program_id == program_id
    &&& ix.signer == owner
    &&& ix.data@ == instruction_data(job)
}

/// The builder's configuration: the program that instructions target, the
/// relayer that pays fees, and the most instructions a transaction may hold.
#[derive(Debug)]
pub struct ProcessUnshield {
    pub program_id: [u8; 32],
    pub fee_payer: [u8; 32],
    pub ix_per_tx: usize,
}

impl ProcessUnshield {
    pub fn new(program_id: [u8; 32], fee_payer: [u8; 32], ix_per_tx: usize) -> (r: Self)
        requires
            ix_per_tx > 0,
        ensures
            r.program_id == program_id,
            r.fee_payer == fee_payer,
            r.ix_per_tx == ix_per_tx,
    {
        ProcessUnshield { program_id, fee_payer, ix_per_tx }
    }

    /// `txs` are the transactions of `job`: one, paid by the relayer, holding
    /// the request's one instruction.
    pub open spec fn pool_of(self, job: JobData, owner: [u8; 32], txs: Seq<BuiltTransaction>) -> bool {
        &&& txs.len() == 1
        &&& txs[0].fee_payer == self.fee_payer
        &&& txs[0].instructions@.len() == 1
        &&& instruction_of(txs[0].instructions@[0], self.program_id, job, owner)
    }

    /// The instruction that a withdrawal request becomes, given the key that
    /// its owner's address reads as.
    pub fn build_instruction_for(&self, job: &JobData, owner_key: Option<[u8; 32]>) -> (r: Result<BuiltInstruction, BuildError>)
        ensures
            r is Err <==> build_outcome(*job, owner_key) is Err,
            r is Err ==> build_outcome(*job, owner_key) == Err::<(), BuildError>(r->Err_0),
            r is Ok ==> instruction_of(r->Ok_0, self.program_id, *job, owner_key->Some_0),
    {
        let decoded = public_inputs_bytes_to_object(job.ext_data.as_slice());
        match decoded {
            Err(e) => Err(e),
            Ok(p) => match owner_key {
                None => Err(BuildError::InvalidOwner),
                Some(owner) => {
                    let encoded = p.to_bytes();
                    proof {
                        lemma_decode_encode_round_trip(job.ext_data@, p);
                    }
                    let mut data: Vec<u8> = Vec::new();
                    append_all(&mut data, &job.input);
                    append_all(&mut data, &job.proof);
                    append_all(&mut data, &encoded);
                    Ok(BuiltInstruction { program_id: self.program_id, signer: owner, data })
                },
            },
        }
    }

    /// The instruction that a withdrawal request becomes.
    pub fn build_instruction(&self, job: &JobData) -> (r: Result<BuiltInstruction, BuildError>)
        ensures
            r is Err <==> build_outcome(*job, address_key(job.owner@)) is Err,
            r is Err ==> build_outcome(*job, address_key(job.owner@)) == Err::<(), BuildError>(r->Err_0),
            r is Ok ==> instruction_of(r->Ok_0, self.program_id, *job, address_key(job.owner@)->Some_0),
    {
        let owner_key = parse_address(job.owner.as_str());
        self.build_instruction_for(job, owner_key)
    }

    /// The unsigned transactions that a withdrawal request becomes, each paid
    /// by the relayer.
    pub fn create_transaction_pool(&self, job: &JobData) -> (r: Result<Vec<BuiltTransaction>, BuildError>)
        requires
            self.ix_per_tx > 0,
        ensures
            r is Err <==> build_outcome(*job, address_key(job.owner@)) is Err,
            r is Err ==> build_outcome(*job, address_key(job.owner@)) == Err::<(), BuildError>(r->Err_0),
            r is Ok ==> self.pool_of(*job, address_key(job.owner@)->Some_0, r->Ok_0@),
    {
        match self.build_instruction(job) {
            Err(e) => Err(e),
            Ok(ix) => {
                let mut instructions: Vec<BuiltInstruction> = Vec::new();
                instructions.push(ix);
                let txs = batch_instructions(instructions, self.ix_per_tx, self.fee_payer);
                proof {
                    let s = instructions@;
                    assert(batches_of(s, self.ix_per_tx as nat) == seq![s]);
                }
                Ok(txs)
            },
        }
    }
}

/// Attempts of a transaction beyond the first, before a send gives up.
pub const SEND_MAX_RETRIES: usize = 5;

impl ProcessUnshield {
    /// Builds the transactions of a withdrawal request and starts sending
    /// them, each retried up to `SEND_MAX_RETRIES` times. Returns the engine
    /// and its first action.
    pub fn process_unshield(&self, job: JobData) -> (r: Result<(Sender, SendAction), BuildError>)
        requires
            self.ix_per_tx > 0,
        ensures
            r is Err <==> build_outcome(job, address_key(job.owner@)) is Err,
            r is Err ==> build_outcome(job, address_key(job.owner@)) == Err::<(), BuildError>(r->Err_0),
            r is Ok ==> {
                let (sender, first) = r->Ok_0;
                &&& sender@.wf()
                &&& sender@.max_retries == SEND_MAX_RETRIES
                &&& sender@.current == 0
                &&& sender@.retries == 0
                &&& sender@.phase == Phase::Fetching
                &&& first is FetchBlockhash
                &&& self.pool_of(job, address_key(job.owner@)->Some_0, sender@.txs)
            },
    {
        match self.create_transaction_pool(&job) {
            Err(e) => Err(e),
            Ok(txs) => Ok(Sender::send_transactions(txs, SEND_MAX_RETRIES)),
        }
    }
}

/// Appends the bytes of `src` to `dst`.
fn append_all(dst: &mut Vec<u8>, src: &Vec<u8>)
    ensures
        final(dst)@ == old(dst)@ + src@,
{
    let mut i: usize = 0;
    while i < src.len()
        invariant
            i <= src@.len(),
            dst@ == old(dst)@ + src@.subrange(0, i as int),
        decreases src@.len() - i,
    {
        dst.push(src[i]);
        i = i + 1;
        assert(src@.subrange(0, i as int) == src@.subrange(0, i - 1) + seq![src@[i - 1]]);
    }
    assert(src@.subrange(0, src@.len() as int) == src@);
}

} // verus!
