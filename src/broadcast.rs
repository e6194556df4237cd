//! The broadcast engine: signs, submits and confirms built transactions one
//! at a time, retrying each with a fresh blockhash and a quadratic backoff.
//!
//! The engine makes no network call itself. It is a state machine: each
//! `step` takes what the chain client reported and returns the next thing to
//! do (fetch a blockhash, sign and submit, sleep), until it reports `Done`
//! or `Failed`.

use vstd::prelude::*;
use crate::builder::BuiltTransaction;

verus! {

/// Retries are bounded so that a backoff of `retries²` seconds fits in `u64`.
pub const MAX_RETRIES_LIMIT: usize = 0xffff_ffff;

/// Why a send stopped for good.
#[derive(Debug)]
pub enum SendError {
    /// The chain client could not give a blockhash.
    FetchFailed { message: String },
    /// A transaction was still rejected after its last retry.
    SubmitFailed { message: String },
}

/// What the chain client, or the timer, reported.
#[derive(Debug)]
pub enum SendEvent {
    BlockhashFetched { blockhash: [u8; 32] },
    BlockhashFailed { message: String },
    SubmitSucceeded,
    SubmitFailed { message: String },
    SleepElapsed,
}

/// What to do next.
#[derive(Debug)]
pub enum SendAction {
    /// Fetch the latest blockhash.
    FetchBlockhash,
    /// Sign transaction `tx_index` with `blockhash` (replacing any earlier
    /// signature) and submit it, skipping preflight, at "confirmed".
    SignAndSubmit { tx_index: usize, blockhash: [u8; 32] },
    /// Wait `seconds` before the next attempt.
    Sleep { seconds: u64 },
    /// Every transaction was confirmed.
    Done,
    /// The send stopped; no further attempt is made.
    Failed { error: SendError },
    /// The event asked for nothing: the engine was not waiting for it, or has
    /// already finished.
    Idle,
}

/// Where the engine stands.
#[derive(Debug, Clone, Copy, PartialEq, Eq, Structural)]
pub enum Phase {
    Fetching,
    Submitting,
    Sleeping,
    Succeeded,
    Failed,
}

/// The engine's state as a mathematical value.
pub struct SenderView {
    pub txs: Seq<BuiltTransaction>,
    pub max_retries: nat,
    /// Index of the transaction being sent.
    pub current: nat,
    /// Failed attempts of the current transaction so far.
    pub retries: nat,
    pub phase: Phase,
    /// The blockhash that the current attempt signs with.
    pub last_blockhash: Option<[u8; 32]>,
}

impl SenderView {
    pub open spec fn wf(self) -> bool {
        &&& self.max_retries <= MAX_RETRIES_LIMIT
        &&& self.retries <= self.max_retries
        &&& (self.phase == Phase::Fetching || self.phase == Phase::Submitting
            || self.phase == Phase::Sleeping) ==> self.current < self.txs.len()
        &&& self.phase == Phase::Submitting ==> self.last_blockhash is Some
        &&& self.phase == Phase::Sleeping ==> self.retries >= 1
    }

    /// The state after `e`, and the action that it calls for.
    pub open spec fn step(self, e: SendEvent) -> (SenderView, SendAction) {
        match self.phase {
            Phase::Fetching => match e {
                SendEvent::BlockhashFetched { blockhash } => (
                    SenderView { phase: Phase::Submitting, last_blockhash: Some(blockhash), ..self },
                    SendAction::SignAndSubmit { tx_index: self.current as usize, blockhash },
                ),
                SendEvent::BlockhashFailed { message } => (
                    SenderView { phase: Phase::Failed, ..self },
                    SendAction::Failed { error: SendError::FetchFailed { message } },
                ),
                _ => (self, SendAction::Idle),
            },
            Phase::Submitting => match e {
                SendEvent::SubmitSucceeded => if self.current + 1 == self.txs.len() {
                    (
                        SenderView { phase: Phase::Succeeded, current: self.current + 1, retries: 0, ..self },
                        SendAction::Done,
                    )
                } else {
                    (
                        SenderView { phase: Phase::Fetching, current: self.current + 1, retries: 0, ..self },
                        SendAction::FetchBlockhash,
                    )
                },
                SendEvent::SubmitFailed { message } => if self.retries >= self.max_retries {
                    (
                        SenderView { phase: Phase::Failed, ..self },
                        SendAction::Failed { error: SendError::SubmitFailed { message } },
                    )
                } else {
                    (
                        SenderView { phase: Phase::Sleeping, retries: self.retries + 1, ..self },
                        SendAction::Sleep { seconds: backoff_seconds(self.retries + 1) },
                    )
                },
                _ => (self, SendAction::Idle),
            },
            Phase::Sleeping => match e {
                SendEvent::SleepElapsed => (
                    SenderView { phase: Phase::Fetching, ..self },
                    SendAction::FetchBlockhash,
                ),
                _ => (self, SendAction::Idle),
            },
            Phase::Succeeded => (self, SendAction::Idle),
            Phase::Failed => (self, SendAction::Idle),
        }
    }
}

/// The wait before retry number `k`: `k²` seconds.
pub open spec fn backoff_seconds(k: nat) -> u64 {
    (k * k) as u64
}

/// Sends a sequence of built transactions, in order, one at a time.
pub struct Sender {
    txs: Vec<BuiltTransaction>,
    max_retries: usize,
    current: usize,
    retries: usize,
    phase: Phase,
    last_blockhash: Option<[u8; 32]>,
}

impl View for Sender {
    type V = SenderView;

    closed spec fn view(&self) -> SenderView {
        SenderView {
            txs: self.txs@,
            max_retries: self.max_retries as nat,
            current: self.current as nat,
            retries: self.retries as nat,
            phase: self.phase,
            last_blockhash: self.last_blockhash,
        }
    }
}

impl Sender {
    /// Starts sending `transactions`, each tried at most `max_retries + 1`
    /// times. Returns the engine and its first action: a blockhash fetch, or
    /// `Done` where there is nothing to send.
    pub fn send_transactions(transactions: Vec<BuiltTransaction>, max_retries: usize) -> (r: (Sender, SendAction))
        requires
            max_retries <= MAX_RETRIES_LIMIT,
        ensures
            r.0@.wf(),
            r.0@.txs == transactions@,
            r.0@.max_retries == max_retries,
            r.0@.current == 0,
            r.0@.retries == 0,
            r.0@.last_blockhash is None,
            transactions@.len() == 0 ==> r.0@.phase == Phase::Succeeded && r.1 is Done,
            transactions@.len() > 0 ==> r.0@.phase == Phase::Fetching && r.1 is FetchBlockhash,
    {
        let empty = transactions.len() == 0;
        let s = Sender {
            txs: transactions,
            max_retries,
            current: 0,
            retries: 0,
            phase: if empty { Phase::Succeeded } else { Phase::Fetching },
            last_blockhash: None,
        };
        (s, if empty { SendAction::Done } else { SendAction::FetchBlockhash })
    }

    /// The transaction at `i`.
    pub fn transaction(&self, i: usize) -> (r: &BuiltTransaction)
        requires
            i < self@.txs.len(),
        ensures
            *r == self@.txs[i as int],
    {
        &self.txs[i]
    }

    /// Number of transactions to send.
    pub fn len(&self) -> (r: usize)
        ensures
            r == self@.txs.len(),
    {
        self.txs.len()
    }

    /// Where the engine stands.
    pub fn phase(&self) -> (r: Phase)
        ensures
            r == self@.phase,
    {
        self.phase
    }

    /// Takes what the chain client or the timer reported and returns what to
    /// do next.
    pub fn step(&mut self, event: SendEvent) -> (a: SendAction)
        requires
            old(self)@.wf(),
        ensures
            final(self)@.wf(),
            (final(self)@, a) == old(self)@.step(event),
    {
        match self.phase {
            Phase::Fetching => match event {
                SendEvent::BlockhashFetched { blockhash } => {
                    self.phase = Phase::Submitting;
                    self.last_blockhash = Some(blockhash);
                    SendAction::SignAndSubmit { tx_index: self.current, blockhash }
                },
                SendEvent::BlockhashFailed { message } => {
                    self.phase = Phase::Failed;
                    SendAction::Failed { error: SendError::FetchFailed { message } }
                },
                _ => SendAction::Idle,
            },
            Phase::Submitting => match event {
                SendEvent::SubmitSucceeded => {
                    let n = self.txs.len();
                    self.current = self.current + 1;
                    self.retries = 0;
                    if self.current == n {
                        self.phase = Phase::Succeeded;
                        SendAction::Done
                    } else {
                        self.phase = Phase::Fetching;
                        SendAction::FetchBlockhash
                    }
                },
                SendEvent::SubmitFailed { message } => {
                    if self.retries >= self.max_retries {
                        self.phase = Phase::Failed;
                        SendAction::Failed { error: SendError::SubmitFailed { message } }
                    } else {
                        self.retries = self.retries + 1;
                        self.phase = Phase::Sleeping;
                        let k = self.retries as u64;
                        assert(k * k <= 0xffff_ffffu64 * 0xffff_ffffu64) by (nonlinear_arith)
                            requires k <= 0xffff_ffffu64;
                        SendAction::Sleep { seconds: k * k }
                    }
                },
                _ => SendAction::Idle,
            },
            Phase::Sleeping => match event {
                SendEvent::SleepElapsed => {
                    self.phase = Phase::Fetching;
                    SendAction::FetchBlockhash
                },
                _ => SendAction::Idle,
            },
            Phase::Succeeded => SendAction::Idle,
            Phase::Failed => SendAction::Idle,
        }
    }
}

/// The state after the events `evs`, one after another, and the actions that
/// they called for, in order.
pub open spec fn run(s: SenderView, evs: Seq<SendEvent>) -> (SenderView, Seq<SendAction>)
    decreases evs.len(),
{
    if evs.len() == 0 {
        (s, Seq::empty())
    } else {
        let (s1, a) = s.step(evs[0]);
        let (t, rest) = run(s1, evs.drop_first());
        (t, seq![a] + rest)
    }
}

/// The waits that the actions ask for, in order.
pub open spec fn sleeps_of(acts: Seq<SendAction>) -> Seq<u64>
    decreases acts.len(),
{
    if acts.len() == 0 {
        Seq::empty()
    } else {
        let head = match acts[0] {
            SendAction::Sleep { seconds } => seq![seconds],
            _ => Seq::empty(),
        };
        head + sleeps_of(acts.drop_first())
    }
}

/// The `n` waits `k², (k+1)², ...`.
pub open spec fn backoff_sequence(k: nat, n: nat) -> Seq<u64>
    decreases n,
{
    if n == 0 {
        Seq::empty()
    } else {
        seq![backoff_seconds(k)] + backoff_sequence(k + 1, (n - 1) as nat)
    }
}

/// Every step keeps the engine's state well formed.
pub proof fn lemma_step_wf(s: SenderView, e: SendEvent)
    requires
        s.wf(),
    ensures
        s.step(e).0.wf(),
        s.step(e).0.txs == s.txs,
        s.step(e).0.max_retries == s.max_retries,
        s.step(e).0.current >= s.current,
{
}

/// A run keeps the state well formed and never goes back to an earlier
/// transaction.
pub proof fn lemma_run_wf(s: SenderView, evs: Seq<SendEvent>)
    requires
        s.wf(),
    ensures
        run(s, evs).0.wf(),
        run(s, evs).0.current >= s.current,
        run(s, evs).0.max_retries == s.max_retries,
        run(s, evs).0.txs == s.txs,
        run(s, evs).1.len() == evs.len(),
    decreases evs.len(),
{
    if evs.len() > 0 {
        lemma_step_wf(s, evs[0]);
        lemma_run_wf(s.step(evs[0]).0, evs.drop_first());
    }
}

/// While one transaction is being sent, the waits between its attempts are
/// 1, 4, 9, 16, ... seconds: the wait after its `k`-th failure is `k²`.
pub proof fn lemma_backoff_sequence(s: SenderView, evs: Seq<SendEvent>)
    requires
        s.wf(),
        run(s, evs).0.current == s.current,
    ensures
        run(s, evs).0.retries >= s.retries,
        sleeps_of(run(s, evs).1) == backoff_sequence(
            s.retries + 1,
            (run(s, evs).0.retries - s.retries) as nat,
        ),
    decreases evs.len(),
{
    if evs.len() > 0 {
        let (s1, a) = s.step(evs[0]);
        let (t, acts) = run(s1, evs.drop_first());
        lemma_step_wf(s, evs[0]);
        lemma_run_wf(s1, evs.drop_first());
        lemma_backoff_sequence(s1, evs.drop_first());
        let all = seq![a] + acts;
        assert(all[0] == a);
        assert(all.drop_first() =~= acts);
        if s.retries + 1 <= s.max_retries {
            assert(backoff_seconds(s.retries + 1) == ((s.retries + 1) * (s.retries + 1)) as u64);
        }
        match a {
            SendAction::Sleep { seconds } => {
                assert(s1.retries == s.retries + 1);
                assert(sleeps_of(all) == seq![seconds] + sleeps_of(acts));
            },
            _ => {
                assert(s1.retries == s.retries);
                assert(sleeps_of(all) == Seq::<u64>::empty() + sleeps_of(acts));
                assert(Seq::<u64>::empty() + sleeps_of(acts) =~= sleeps_of(acts));
            },
        }
    } else {
        assert(sleeps_of(Seq::<SendAction>::empty()) == Seq::<u64>::empty());
    }
}

/// When an attempt fails and the transaction has already been retried
/// `max_retries` times, the engine stops with the submission's error.
pub proof fn lemma_retries_exhausted(s: SenderView, message: String)
    requires
        s.wf(),
        s.phase == Phase::Submitting,
        s.retries == s.max_retries,
    ensures
        s.step(SendEvent::SubmitFailed { message }).0.phase == Phase::Failed,
        s.step(SendEvent::SubmitFailed { message }).1
            == (SendAction::Failed { error: SendError::SubmitFailed { message } }),
{
}

/// Once the engine has stopped, nothing moves it: whatever is reported, its
/// state stays as it is and every action is `Idle`, so no further attempt is
/// made.
pub proof fn lemma_stopped_is_final(s: SenderView, evs: Seq<SendEvent>)
    requires
        s.phase == Phase::Failed || s.phase == Phase::Succeeded,
    ensures
        run(s, evs).0 == s,
        forall|i: int| 0 <= i < run(s, evs).1.len() ==> run(s, evs).1[i] is Idle,
    decreases evs.len(),
{
    if evs.len() > 0 {
        lemma_stopped_is_final(s, evs.drop_first());
        let acts = run(s, evs.drop_first()).1;
        assert forall|i: int| 0 <= i < run(s, evs).1.len() implies run(s, evs).1[i] is Idle by {
            if i > 0 {
                assert(run(s, evs).1[i] == acts[i - 1]);
            }
        }
    }
}

/// Number of submissions that the actions ask for.
pub open spec fn submits_of(acts: Seq<SendAction>) -> nat
    decreases acts.len(),
{
    if acts.len() == 0 {
        0
    } else {
        (if acts[0] is SignAndSubmit { 1nat } else { 0nat }) + submits_of(acts.drop_first())
    }
}

proof fn lemma_idle_submits(acts: Seq<SendAction>)
    requires
        forall|i: int| 0 <= i < acts.len() ==> acts[i] is Idle,
    ensures
        submits_of(acts) == 0,
    decreases acts.len(),
{
    if acts.len() > 0 {
        lemma_idle_submits(acts.drop_first());
    }
}

proof fn lemma_submits_pending(s: SenderView, evs: Seq<SendEvent>)
    requires
        s.wf(),
        run(s, evs).0.current == s.current,
    ensures
        run(s, evs).0.retries >= s.retries,
        submits_of(run(s, evs).1) + (if s.phase == Phase::Submitting { 1nat } else { 0nat })
            <= run(s, evs).0.retries - s.retries + 1,
    decreases evs.len(),
{
    if evs.len() > 0 {
        let (s1, a) = s.step(evs[0]);
        let (t, acts) = run(s1, evs.drop_first());
        lemma_step_wf(s, evs[0]);
        lemma_run_wf(s1, evs.drop_first());
        let all = seq![a] + acts;
        assert(all[0] == a);
        assert(all.drop_first() =~= acts);
        if s1.phase == Phase::Failed {
            lemma_stopped_is_final(s1, evs.drop_first());
            lemma_idle_submits(acts);
        } else {
            lemma_submits_pending(s1, evs.drop_first());
        }
    }
}

/// While one transaction is being sent, at most `max_retries + 1`
/// submissions are made for it (fewer by the retries it has already used):
/// once its retries are spent, no further attempt follows.
pub proof fn lemma_attempts_bounded(s: SenderView, evs: Seq<SendEvent>)
    requires
        s.wf(),
        run(s, evs).0.current == s.current,
    ensures
        submits_of(run(s, evs).1) <= s.max_retries - s.retries + 1,
{
    lemma_submits_pending(s, evs);
    lemma_run_wf(s, evs);
}

/// An attempt signs only with the blockhash that was fetched for it: a
/// `SignAndSubmit` answers a fetch that has just returned and carries that
/// fetch's blockhash, and leaves the engine waiting on the submission. The
/// engine waits on a fetch again only after asking for one.
pub proof fn lemma_fresh_blockhash(s: SenderView, e: SendEvent)
    requires
        s.wf(),
    ensures
        s.step(e).1 is SignAndSubmit ==> {
            &&& s.phase == Phase::Fetching
            &&& e == (SendEvent::BlockhashFetched { blockhash: s.step(e).1->blockhash })
            &&& s.step(e).1->tx_index == s.current as usize
            &&& s.step(e).0.phase == Phase::Submitting
            &&& s.step(e).0.last_blockhash == Some(s.step(e).1->blockhash)
        },
        s.step(e).0.phase == Phase::Fetching && s.phase != Phase::Fetching
            ==> s.step(e).1 is FetchBlockhash,
{
}

/// Over any run, each submission answers a blockhash fetch that returned
/// just before it and signs with that fetch's blockhash; no two submissions
/// share one fetch.
pub proof fn lemma_run_signs_fresh(s: SenderView, evs: Seq<SendEvent>)
    requires
        s.wf(),
    ensures
        forall|i: int| 0 <= i < evs.len() && (#[trigger] run(s, evs).1[i]) is SignAndSubmit
            ==> evs[i] == (SendEvent::BlockhashFetched { blockhash: run(s, evs).1[i]->blockhash }),
    decreases evs.len(),
{
    lemma_run_wf(s, evs);
    if evs.len() > 0 {
        let (s1, a) = s.step(evs[0]);
        let rest = evs.drop_first();
        lemma_step_wf(s, evs[0]);
        lemma_fresh_blockhash(s, evs[0]);
        lemma_run_signs_fresh(s1, rest);
        let acts = run(s1, rest).1;
        assert forall|i: int| 0 <= i < evs.len() && (#[trigger] run(s, evs).1[i]) is SignAndSubmit
            implies evs[i] == (SendEvent::BlockhashFetched { blockhash: run(s, evs).1[i]->blockhash }) by {
            if i > 0 {
                assert(run(s, evs).1[i] == acts[i - 1]);
                assert(evs[i] == rest[i - 1]);
            }
        }
    }
}

} // verus!
