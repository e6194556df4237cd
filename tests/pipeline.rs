use solana_sdk::pubkey::Pubkey;
use unshield_relayer::broadcast::{Phase, SendAction, SendError, SendEvent, Sender};
use unshield_relayer::builder::{
    batch_instructions, BuiltInstruction, BuiltTransaction, ProcessUnshield, SEND_MAX_RETRIES,
};
use unshield_relayer::job::{add_unshield_job, DispatchAction, Job, JobData, JobStore, TransactionRecord, UnshieldQueue};
use unshield_relayer::public_inputs::{public_inputs_bytes_to_object, BuildError};

fn ext_bytes(n: usize) -> Vec<u8> {
    (0..n).map(|i| (i * 7 + 3) as u8).collect()
}

fn instruction(tag: u8) -> BuiltInstruction {
    BuiltInstruction { program_id: [1; 32], signer: [2; 32], data: vec![tag] }
}

fn instructions(n: usize) -> Vec<BuiltInstruction> {
    (0..n).map(|i| instruction(i as u8)).collect()
}

fn sizes(txs: &[BuiltTransaction]) -> Vec<usize> {
    txs.iter().map(|t| t.instructions.len()).collect()
}

#[test]
fn decode_then_encode_reproduces_bytes() {
    let b = ext_bytes(335);
    let p = public_inputs_bytes_to_object(&b).ok().unwrap();
    assert_eq!(p.recipient, b[0..32].to_vec());
    assert_eq!(p.ext_amount, b[32..40].to_vec());
    assert_eq!(p.relayer, b[40..72].to_vec());
    assert_eq!(p.fee, b[72..80].to_vec());
    assert_eq!(p.merkle_tree_pubkey_bytes, b[80..112].to_vec());
    assert_eq!(p.merkle_tree_index, b[112]);
    assert_eq!(p.encrypted_output1, b[113..168].to_vec());
    assert_eq!(p.nonce1, b[168..192].to_vec());
    assert_eq!(p.sender_throw_away_pubkey1, b[192..224].to_vec());
    assert_eq!(p.encrypted_output2, b[224..279].to_vec());
    assert_eq!(p.nonce2, b[279..303].to_vec());
    assert_eq!(p.sender_throw_away_pubkey2, b[303..335].to_vec());
    assert_eq!(p.to_bytes(), b);
}

#[test]
fn decode_ignores_bytes_past_layout() {
    let b = ext_bytes(400);
    let p = public_inputs_bytes_to_object(&b).ok().unwrap();
    assert_eq!(p.to_bytes(), b[0..335].to_vec());
}

#[test]
fn decode_short_input_is_malformed() {
    for n in [0usize, 1, 112, 334] {
        let b = ext_bytes(n);
        assert!(matches!(public_inputs_bytes_to_object(&b), Err(BuildError::MalformedInput)));
    }
}

#[test]
fn seven_instructions_three_per_tx() {
    let txs = batch_instructions(instructions(7), 3, [9; 32]);
    assert_eq!(sizes(&txs), vec![3, 3, 1]);
    let order: Vec<u8> = txs.iter().flat_map(|t| t.instructions.iter().map(|i| i.data[0])).collect();
    assert_eq!(order, vec![0, 1, 2, 3, 4, 5, 6]);
    assert!(txs.iter().all(|t| t.fee_payer == [9; 32]));
}

#[test]
fn batch_counts_match_ceiling() {
    assert_eq!(sizes(&batch_instructions(instructions(10), 4, [8; 32])), vec![4, 4, 2]);
    assert_eq!(sizes(&batch_instructions(instructions(6), 3, [8; 32])), vec![3, 3]);
    assert_eq!(sizes(&batch_instructions(instructions(1), 5, [8; 32])), vec![1]);
    assert_eq!(sizes(&batch_instructions(instructions(5), 1, [8; 32])), vec![1, 1, 1, 1, 1]);
}

#[test]
fn batch_of_nothing_is_empty() {
    assert!(batch_instructions(Vec::new(), 3, [8; 32]).is_empty());
}

fn owner_address() -> String {
    Pubkey::new_from_array([7; 32]).to_string()
}

fn job_data(ext_len: usize) -> JobData {
    JobData::new(vec![1, 2], vec![9], "unshield".to_string(), ext_bytes(ext_len), owner_address())
}

fn builder() -> ProcessUnshield {
    ProcessUnshield::new([3; 32], [4; 32], 3)
}

#[test]
fn pool_holds_one_instruction_paid_by_relayer() {
    let builder = builder();
    let txs = builder.create_transaction_pool(&job_data(340)).ok().unwrap();
    assert_eq!(txs.len(), 1);
    assert_eq!(txs[0].fee_payer, [4; 32]);
    assert_eq!(txs[0].instructions.len(), 1);
    let ix = &txs[0].instructions[0];
    assert_eq!(ix.program_id, [3; 32]);
    assert_eq!(ix.signer, [7; 32]);
    let mut expected = vec![1u8, 2, 9];
    expected.extend_from_slice(&ext_bytes(335));
    assert_eq!(ix.data, expected);
}

#[test]
fn pool_rejects_short_ext_data() {
    let builder = builder();
    assert!(matches!(builder.create_transaction_pool(&job_data(100)), Err(BuildError::MalformedInput)));
    assert!(matches!(builder.process_unshield(job_data(334)), Err(BuildError::MalformedInput)));
}

#[test]
fn owner_must_be_an_address() {
    let b = builder();
    let mut job = job_data(335);
    job.owner = "not an address".to_string();
    assert!(matches!(b.create_transaction_pool(&job), Err(BuildError::InvalidOwner)));
    job.owner = String::new();
    assert!(matches!(b.build_instruction(&job), Err(BuildError::InvalidOwner)));
    job.ext_data = ext_bytes(10);
    assert!(matches!(b.process_unshield(job), Err(BuildError::MalformedInput)));
}

#[test]
fn system_program_address_reads_as_zero_key() {
    let mut job = job_data(335);
    job.owner = "11111111111111111111111111111111".to_string();
    let ix = builder().build_instruction(&job).ok().unwrap();
    assert_eq!(ix.signer, [0; 32]);
}

#[test]
fn instruction_for_given_key() {
    let ix = builder().build_instruction_for(&job_data(335), Some([5; 32])).ok().unwrap();
    assert_eq!(ix.signer, [5; 32]);
    assert!(matches!(builder().build_instruction_for(&job_data(335), None), Err(BuildError::InvalidOwner)));
    assert!(matches!(builder().build_instruction_for(&job_data(3), None), Err(BuildError::MalformedInput)));
}

#[test]
fn process_unshield_starts_with_fetch() {
    let builder = builder();
    let (sender, first) = builder.process_unshield(job_data(335)).ok().unwrap();
    assert!(matches!(first, SendAction::FetchBlockhash));
    assert_eq!(sender.phase(), Phase::Fetching);
    assert_eq!(sender.transaction(0).fee_payer, [4; 32]);
    assert_eq!(sender.len(), 1);
    assert_eq!(SEND_MAX_RETRIES, 5);
}

fn one_tx_sender(max_retries: usize) -> Sender {
    let txs = batch_instructions(instructions(1), 3, [9; 32]);
    let (s, a) = Sender::send_transactions(txs, max_retries);
    assert!(matches!(a, SendAction::FetchBlockhash));
    s
}

#[test]
fn fails_twice_then_succeeds() {
    let mut s = one_tx_sender(5);
    let mut fetches = 1;
    let mut submits = 0;
    let mut backoff = 0u64;
    let mut outcome = None;
    let mut failures_left = 2;
    let mut hash = 0u8;
    let mut action = SendAction::FetchBlockhash;
    for _ in 0..20 {
        let event = match action {
            SendAction::FetchBlockhash => {
                hash += 1;
                SendEvent::BlockhashFetched { blockhash: [hash; 32] }
            }
            SendAction::SignAndSubmit { blockhash, .. } => {
                assert_eq!(blockhash, [hash; 32]);
                submits += 1;
                if failures_left > 0 {
                    failures_left -= 1;
                    SendEvent::SubmitFailed { message: "node unavailable".to_string() }
                } else {
                    SendEvent::SubmitSucceeded
                }
            }
            SendAction::Sleep { seconds } => {
                backoff += seconds;
                SendEvent::SleepElapsed
            }
            other => {
                outcome = Some(other);
                break;
            }
        };
        action = s.step(event);
        if matches!(action, SendAction::FetchBlockhash) {
            fetches += 1;
        }
    }
    assert_eq!(fetches, 3);
    assert_eq!(submits, 3);
    assert_eq!(backoff, 5);
    assert!(matches!(outcome, Some(SendAction::Done)));
}

fn fail_attempt(s: &mut Sender, hash: u8) -> SendAction {
    let a = s.step(SendEvent::BlockhashFetched { blockhash: [hash; 32] });
    assert!(matches!(a, SendAction::SignAndSubmit { tx_index: 0, blockhash } if blockhash == [hash; 32]));
    s.step(SendEvent::SubmitFailed { message: format!("rejected {}", hash) })
}

#[test]
fn backoff_is_quadratic() {
    let mut s = one_tx_sender(4);
    let mut delays = Vec::new();
    for k in 1..=4u8 {
        match fail_attempt(&mut s, k) {
            SendAction::Sleep { seconds } => delays.push(seconds),
            _ => panic!("expected a sleep"),
        }
        assert!(matches!(s.step(SendEvent::SleepElapsed), SendAction::FetchBlockhash));
    }
    assert_eq!(delays, vec![1, 4, 9, 16]);
}

#[test]
fn exhausted_retries_fail_for_good() {
    let mut s = one_tx_sender(2);
    for k in 1..=2u8 {
        assert!(matches!(fail_attempt(&mut s, k), SendAction::Sleep { .. }));
        assert!(matches!(s.step(SendEvent::SleepElapsed), SendAction::FetchBlockhash));
    }
    match fail_attempt(&mut s, 3) {
        SendAction::Failed { error: SendError::SubmitFailed { message } } => assert_eq!(message, "rejected 3"),
        _ => panic!("expected a terminal failure"),
    }
    assert_eq!(s.phase(), Phase::Failed);
    assert!(matches!(s.step(SendEvent::BlockhashFetched { blockhash: [9; 32] }), SendAction::Idle));
    assert!(matches!(s.step(SendEvent::SleepElapsed), SendAction::Idle));
}

#[test]
fn zero_retries_fail_on_first_error() {
    let mut s = one_tx_sender(0);
    assert!(matches!(fail_attempt(&mut s, 1), SendAction::Failed { .. }));
}

#[test]
fn each_attempt_signs_with_its_own_fetch() {
    let mut s = one_tx_sender(3);
    assert!(matches!(fail_attempt(&mut s, 10), SendAction::Sleep { seconds: 1 }));
    // A submit report while sleeping asks for nothing: no re-signing.
    assert!(matches!(s.step(SendEvent::SubmitFailed { message: "late".to_string() }), SendAction::Idle));
    assert!(matches!(s.step(SendEvent::SleepElapsed), SendAction::FetchBlockhash));
    let a = s.step(SendEvent::BlockhashFetched { blockhash: [11; 32] });
    assert!(matches!(a, SendAction::SignAndSubmit { blockhash, .. } if blockhash == [11; 32]));
}

#[test]
fn fetch_failure_is_terminal() {
    let mut s = one_tx_sender(5);
    match s.step(SendEvent::BlockhashFailed { message: "timeout".to_string() }) {
        SendAction::Failed { error: SendError::FetchFailed { message } } => assert_eq!(message, "timeout"),
        _ => panic!("expected a fetch failure"),
    }
}

#[test]
fn transactions_go_in_order_and_stop_at_first_failure() {
    let txs = batch_instructions(instructions(3), 1, [9; 32]);
    let (mut s, _) = Sender::send_transactions(txs, 0);
    let a = s.step(SendEvent::BlockhashFetched { blockhash: [1; 32] });
    assert!(matches!(a, SendAction::SignAndSubmit { tx_index: 0, .. }));
    assert!(matches!(s.step(SendEvent::SubmitSucceeded), SendAction::FetchBlockhash));
    let a = s.step(SendEvent::BlockhashFetched { blockhash: [2; 32] });
    assert!(matches!(a, SendAction::SignAndSubmit { tx_index: 1, .. }));
    assert_eq!(s.transaction(1).instructions[0].data, vec![1]);
    assert!(matches!(s.step(SendEvent::SubmitFailed { message: "x".to_string() }), SendAction::Failed { .. }));
    assert!(matches!(s.step(SendEvent::SubmitSucceeded), SendAction::Idle));
}

#[test]
fn nothing_to_send_is_done() {
    let (s, a) = Sender::send_transactions(Vec::new(), 5);
    assert!(matches!(a, SendAction::Done));
    assert_eq!(s.phase(), Phase::Succeeded);
}

fn record(id: &str) -> TransactionRecord {
    TransactionRecord {
        id: id.to_string(),
        input_bytes: vec![1],
        proof_bytes: vec![2],
        ext_data_bytes: ext_bytes(335),
        action: "unshield".to_string(),
        owner: "owner".to_string(),
        token: "sol".to_string(),
    }
}

fn job(id: &str, records: &[&str]) -> Job {
    Job { id: id.to_string(), transactions: records.iter().map(|r| record(r)).collect() }
}

#[test]
fn empty_store_dispatches_nothing() {
    let mut q = UnshieldQueue::new();
    for _ in 0..3 {
        assert!(matches!(q.next_action(), DispatchAction::Idle));
    }
}

#[test]
fn dispatcher_takes_last_job_first_and_records_in_order() {
    let mut q = UnshieldQueue::new();
    q.enqueue(job("a", &["a1"]));
    q.enqueue(job("b", &["b1", "b2"]));
    let mut seen = Vec::new();
    loop {
        match q.next_action() {
            DispatchAction::ProcessRecord { job_id, record_id, job_data } => {
                assert_eq!(job_data.ext_data, ext_bytes(335));
                assert_eq!(job_data.owner, "owner");
                seen.push(format!("{}:{}", job_id, record_id));
            }
            DispatchAction::FinishJob { job_id } => seen.push(format!("done {}", job_id)),
            DispatchAction::Idle => break,
        }
    }
    assert_eq!(seen, vec!["b:b1", "b:b2", "done b", "a:a1", "done a"]);
}

#[test]
fn job_without_records_just_finishes() {
    let mut q = UnshieldQueue::new();
    q.enqueue(job("empty", &[]));
    assert!(matches!(q.next_action(), DispatchAction::FinishJob { job_id } if job_id == "empty"));
    assert!(matches!(q.next_action(), DispatchAction::Idle));
}

#[test]
fn job_store_is_last_in_first_out() {
    let mut store = JobStore::new();
    assert!(store.dequeue_next().is_none());
    store.enqueue(job("first", &[]));
    store.enqueue(job("second", &[]));
    assert_eq!(store.len(), 2);
    assert_eq!(store.dequeue_next().unwrap().id, "second");
    assert_eq!(store.dequeue_next().unwrap().id, "first");
    assert!(store.dequeue_next().is_none());
}

#[test]
fn job_data_from_record_copies_fields() {
    let r = record("r");
    let d = JobData::from_record(&r);
    assert_eq!(d.input, vec![1]);
    assert_eq!(d.proof, vec![2]);
    assert_eq!(d.action, "unshield");
    assert_eq!(d.owner, "owner");
}

#[test]
fn add_unshield_job_queues_one_record() {
    let mut q = UnshieldQueue::new();
    let data = JobData::new(vec![1], vec![2], "unshield".to_string(), ext_bytes(335), "owner".to_string());
    assert!(add_unshield_job(&mut q, "j1".to_string(), "sol".to_string(), data).is_ok());
    match q.next_action() {
        DispatchAction::ProcessRecord { job_id, record_id, job_data } => {
            assert_eq!(job_id, "j1");
            assert_eq!(record_id, "j1");
            assert_eq!(job_data.input, vec![1]);
            assert_eq!(job_data.ext_data, ext_bytes(335));
        }
        _ => panic!("expected the queued record"),
    }
    assert!(matches!(q.next_action(), DispatchAction::FinishJob { .. }));
}

#[test]
fn add_unshield_job_refuses_short_ext_data() {
    let mut q = UnshieldQueue::new();
    let data = JobData::new(vec![1], vec![2], "unshield".to_string(), ext_bytes(334), "owner".to_string());
    assert!(matches!(add_unshield_job(&mut q, "j".to_string(), "t".to_string(), data), Err(BuildError::MalformedInput)));
    assert!(matches!(q.next_action(), DispatchAction::Idle));
}
