use serde_json::Value;
use storage::account_map::AccountMap;
use storage::error::StorageError;
use storage::operation::{Action, Block, BlockData, Operation};
use storage::storage::StorageProcessor;

fn acc(balance: i64) -> Value {
    let mut m = serde_json::Map::new();
    m.insert("balance".to_string(), Value::from(balance));
    Value::Object(m)
}

fn block(block_number: u32) -> Block {
    Block {
        block_number,
        new_root_hash: Value::Null,
        block_data: BlockData::Transfer { total_fees: Value::from(0), transactions: Value::Array(vec![]) },
    }
}

fn map_of(pairs: &[(u32, i64)]) -> AccountMap {
    let mut m = AccountMap::new();
    for (id, b) in pairs {
        m.insert(*id, acc(*b));
    }
    m
}

fn commit(n: u32, pairs: &[(u32, i64)]) -> Operation {
    Operation { action: Action::Commit, block: block(n), accounts_updated: Some(map_of(pairs)), tx_meta: None }
}

fn verify(n: u32) -> Operation {
    Operation { action: Action::Verify { proof: vec![7u8; 4] }, block: block(n), accounts_updated: None, tx_meta: None }
}

#[test]
fn fresh_store_is_empty() {
    let conn = StorageProcessor::new();
    assert_eq!(conn.get_last_committed_block().unwrap(), 0);
    assert_eq!(conn.get_last_verified_block().unwrap(), 0);
    assert_eq!(conn.load_last_committed_deposit_batch().unwrap(), -1);
    let (last, state) = conn.load_committed_state().unwrap();
    assert_eq!(last, 0);
    assert_eq!(state.len(), 0);
}

#[test]
fn commit_shows_in_committed_state_only() {
    let mut conn = StorageProcessor::new();
    conn.execute_operation(&commit(1, &[(1, 1), (2, 2)])).unwrap();
    conn.execute_operation(&verify(1)).unwrap();
    conn.execute_operation(&commit(2, &[(2, 23), (4, 4)])).unwrap();

    let (vlast, verified) = conn.load_verified_state().unwrap();
    assert_eq!(vlast, 1);
    assert_eq!(verified.get(&4), None);
    assert_eq!(verified.get(&2), Some(&acc(2)));

    let (clast, committed) = conn.load_committed_state().unwrap();
    assert_eq!(clast, 2);
    assert_eq!(committed.len(), 3);
    assert_eq!(committed.get(&1), Some(&acc(1)));
    assert_eq!(committed.get(&2), Some(&acc(23)));
    assert_eq!(committed.get(&4), Some(&acc(4)));
}

#[test]
fn verify_turns_committed_into_verified() {
    let mut conn = StorageProcessor::new();
    conn.execute_operation(&commit(1, &[(1, 1), (2, 2), (3, 3)])).unwrap();
    conn.execute_operation(&verify(1)).unwrap();
    conn.execute_operation(&commit(2, &[(2, 23), (4, 4)])).unwrap();
    let (_, before) = conn.load_committed_state().unwrap();
    conn.execute_operation(&verify(2)).unwrap();
    let (last, after) = conn.load_verified_state().unwrap();
    assert_eq!(last, 2);
    assert_eq!(after.len(), before.len());
    for i in 0..before.len() {
        assert_eq!(after.get(&before.id_at(i)), Some(before.data_at(i)));
    }
}

#[test]
fn diff_shows_values_as_of_second_argument() {
    let mut conn = StorageProcessor::new();
    conn.commit_state_update(1, &map_of(&[(1, 1), (2, 2), (3, 3)])).unwrap();
    conn.apply_state_update(1).unwrap();
    conn.commit_state_update(2, &map_of(&[(2, 23), (4, 4)])).unwrap();

    let (last, forward) = conn.load_state_diff(1, 3).unwrap();
    assert_eq!(last, 2);
    assert_eq!(forward.len(), 4);
    assert_eq!(forward.get(&2), Some(&acc(23)));

    let (last, backward) = conn.load_state_diff(3, 1).unwrap();
    assert_eq!(last, 0);
    assert_eq!(backward.len(), 0);

    let (last, backward) = conn.load_state_diff(3, 2).unwrap();
    assert_eq!(last, 1);
    assert_eq!(backward.len(), 1);
    assert_eq!(backward.get(&2), Some(&acc(2)));

    let (last, block2) = conn.load_state_diff_for_block(3).unwrap();
    assert_eq!(last, 2);
    assert_eq!(block2.len(), 2);
    let (_, none) = conn.load_state_diff_for_block(0).unwrap();
    assert_eq!(none.len(), 0);
}

#[test]
fn nonces_count_up_from_configured_next_nonce() {
    let mut conn = StorageProcessor::new();
    conn.update_op_config("0xa", 5).unwrap();
    conn.execute_operation(&commit(1, &[(1, 1)])).unwrap();
    conn.execute_operation(&commit(2, &[(1, 2)])).unwrap();
    let third = conn.execute_operation(&commit(3, &[(1, 3)])).unwrap();
    let meta = third.tx_meta.unwrap();
    assert_eq!(meta.nonce, 7);
    assert_eq!(meta.addr, "0xa");

    // a lower nonce cannot rewind the signer
    conn.update_op_config("0xa", 0).unwrap();
    let fourth = conn.execute_operation(&commit(4, &[(1, 4)])).unwrap();
    assert_eq!(fourth.tx_meta.unwrap().nonce, 8);

    let all = conn.load_unsent_ops(0).unwrap();
    let nonces: Vec<u32> = all.iter().map(|o| o.tx_meta.as_ref().unwrap().nonce).collect();
    assert_eq!(nonces, vec![5, 6, 7, 8]);

    // a higher one moves it forward
    conn.update_op_config("0xa", 20).unwrap();
    let fifth = conn.execute_operation(&commit(5, &[(1, 5)])).unwrap();
    assert_eq!(fifth.tx_meta.unwrap().nonce, 20);
}

#[test]
fn unverified_commitments_shrink_as_verifies_catch_up() {
    let mut conn = StorageProcessor::new();
    conn.execute_operation(&commit(1, &[(1, 1)])).unwrap();
    conn.execute_operation(&commit(2, &[(2, 2)])).unwrap();
    conn.execute_operation(&commit(3, &[(3, 3)])).unwrap();
    assert_eq!(conn.load_unverified_commitments().unwrap().len(), 3);
    conn.execute_operation(&verify(1)).unwrap();
    let pending = conn.load_unverified_commitments().unwrap();
    assert_eq!(pending.len(), 2);
    assert_eq!(pending[0].block.block_number, 2);
    conn.execute_operation(&verify(2)).unwrap();
    conn.execute_operation(&verify(3)).unwrap();
    assert_eq!(conn.load_unverified_commitments().unwrap().len(), 0);
    assert_eq!(conn.get_last_committed_block().unwrap(), 3);
    assert_eq!(conn.get_last_verified_block().unwrap(), 3);
}

#[test]
fn prover_job_lease_and_expiry() {
    let mut conn = StorageProcessor::new();
    conn.execute_operation(&commit(1, &[(1, 1)])).unwrap();
    let w = "w".to_string();
    assert_eq!(conn.fetch_prover_job_at(&w, 60, 1000).unwrap(), Some(1));
    assert_eq!(conn.fetch_prover_job_at(&w, 60, 1000).unwrap(), None);
    assert_eq!(conn.fetch_prover_job_at(&w, 60, 1059).unwrap(), None);
    assert_eq!(conn.fetch_prover_job_at(&w, 60, 1060).unwrap(), Some(1));
    conn.store_proof(1, &vec![1, 2, 3]).unwrap();
    assert_eq!(conn.fetch_prover_job_at(&w, 60, 5000).unwrap(), None);
}

#[test]
fn concurrent_workers_get_a_block_once() {
    let mut conn = StorageProcessor::new();
    conn.execute_operation(&commit(1, &[(1, 1)])).unwrap();
    conn.execute_operation(&commit(2, &[(2, 2)])).unwrap();
    let a = conn.fetch_prover_job_at(&"a".to_string(), 30, 100).unwrap();
    let b = conn.fetch_prover_job_at(&"b".to_string(), 30, 100).unwrap();
    let c = conn.fetch_prover_job_at(&"c".to_string(), 30, 100).unwrap();
    assert_eq!(a, Some(1));
    assert_eq!(b, Some(2));
    assert_eq!(c, None);
}

#[test]
fn prover_skips_verified_blocks() {
    let mut conn = StorageProcessor::new();
    conn.execute_operation(&commit(1, &[(1, 1)])).unwrap();
    conn.execute_operation(&commit(2, &[(2, 2)])).unwrap();
    conn.execute_operation(&verify(1)).unwrap();
    assert_eq!(conn.fetch_prover_job_at(&"w".to_string(), 30, 0).unwrap(), Some(2));
}

#[test]
fn prover_job_by_clock() {
    let mut conn = StorageProcessor::new();
    conn.execute_operation(&commit(1, &[(1, 1)])).unwrap();
    assert_eq!(conn.fetch_prover_job(&"w".to_string(), 3600).unwrap(), Some(1));
    assert_eq!(conn.fetch_prover_job(&"v".to_string(), 3600).unwrap(), None);
}

#[test]
fn proof_round_trips_bytes() {
    let mut conn = StorageProcessor::new();
    let p: Vec<u8> = vec![9, 8, 7, 0, 255];
    assert_eq!(conn.store_proof(4, &p).unwrap(), 1);
    assert_eq!(conn.load_proof(4).unwrap(), p);
    assert_eq!(conn.load_proof(5), Err(StorageError::NotFound));
}

#[test]
fn second_proof_for_block_is_refused() {
    let mut conn = StorageProcessor::new();
    conn.store_proof(4, &vec![1]).unwrap();
    assert_eq!(conn.store_proof(4, &vec![2]), Err(StorageError::PersistenceViolation));
    assert_eq!(conn.load_proof(4).unwrap(), vec![1]);
}

#[test]
fn duplicate_account_update_is_refused_atomically() {
    let mut conn = StorageProcessor::new();
    conn.execute_operation(&commit(1, &[(1, 1)])).unwrap();
    let r = conn.execute_operation(&commit(1, &[(2, 2), (1, 5)]));
    assert!(matches!(r, Err(StorageError::PersistenceViolation)));
    assert_eq!(conn.last_committed_state_for_account(2).unwrap(), None);
    assert_eq!(conn.last_committed_state_for_account(1).unwrap(), Some(acc(1)));
    assert_eq!(conn.load_unsent_ops(0).unwrap().len(), 1);
}

#[test]
fn exhausted_nonces_are_refused() {
    let mut conn = StorageProcessor::new();
    conn.update_op_config("0x1", u32::MAX).unwrap();
    let r = conn.execute_operation(&commit(1, &[(1, 1)]));
    assert!(matches!(r, Err(StorageError::Backend)));
    assert_eq!(conn.last_committed_state_for_account(1).unwrap(), None);
}

#[test]
fn missing_commit_is_not_found() {
    let mut conn = StorageProcessor::new();
    assert!(matches!(conn.load_commit_op(1), Err(StorageError::NotFound)));
    assert!(matches!(conn.load_committed_block(1), Err(StorageError::NotFound)));
    conn.execute_operation(&commit(1, &[(1, 1)])).unwrap();
    let op = conn.load_commit_op(1).unwrap();
    assert!(matches!(op.action, Action::Commit));
    assert_eq!(op.accounts_updated.unwrap().get(&1), Some(&acc(1)));
    assert_eq!(conn.load_committed_block(1).unwrap().block_number, 1);
}

#[test]
fn verify_without_accounts_is_hydrated_from_log() {
    let mut conn = StorageProcessor::new();
    conn.execute_operation(&commit(1, &[(1, 1), (2, 2)])).unwrap();
    conn.execute_operation(&commit(2, &[(2, 23)])).unwrap();
    // the updates read for block n are those of [n - 1, n)
    let v1 = conn.execute_operation(&verify(1)).unwrap();
    assert_eq!(v1.accounts_updated.unwrap().len(), 0);
    let v2 = conn.execute_operation(&verify(2)).unwrap();
    let m = v2.accounts_updated.unwrap();
    assert_eq!(m.len(), 2);
    assert_eq!(m.get(&1), Some(&acc(1)));
    assert_eq!(m.get(&2), Some(&acc(2)));
    let ops = conn.load_unsent_ops(3).unwrap();
    assert_eq!(ops.len(), 1);
    assert_eq!(ops[0].accounts_updated.as_ref().unwrap().len(), 2);
    match &ops[0].action {
        Action::Verify { proof } => assert_eq!(proof, &vec![7u8; 4]),
        Action::Commit => panic!("expected a verification"),
    }
}

#[test]
fn apply_is_idempotent() {
    let mut conn = StorageProcessor::new();
    conn.commit_state_update(1, &map_of(&[(1, 1), (2, 2)])).unwrap();
    conn.apply_state_update(1).unwrap();
    conn.apply_state_update(1).unwrap();
    let (last, state) = conn.load_verified_state().unwrap();
    assert_eq!(last, 1);
    assert_eq!(state.len(), 2);
    assert_eq!(state.get(&1), Some(&acc(1)));
}

#[test]
fn batches_track_largest_committed() {
    let mut conn = StorageProcessor::new();
    let mut op = commit(1, &[]);
    op.block.block_data = BlockData::Deposit { batch_number: 4, transactions: Value::Null };
    conn.execute_operation(&op).unwrap();
    op.block.block_data = BlockData::Deposit { batch_number: 2, transactions: Value::Null };
    conn.execute_operation(&op).unwrap();
    assert_eq!(conn.load_last_committed_deposit_batch().unwrap(), 4);
    assert_eq!(conn.load_last_committed_exit_batch().unwrap(), -1);
    assert_eq!(Action::Commit.name(), "Commit");
    assert_eq!(verify(1).action.name(), "Verify");
}
