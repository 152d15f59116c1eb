use serde_json::Value;
use storage::account_map::AccountMap;
use storage::operation::{Action, Block, BlockData, EncodedProof, Operation};
use storage::storage::StorageProcessor;

fn acc(balance: i64) -> Value {
    let mut m = serde_json::Map::new();
    m.insert("balance".to_string(), Value::from(balance));
    Value::Object(m)
}

fn deposit_block(block_number: u32, batch_number: u32) -> Block {
    Block {
        block_number,
        new_root_hash: Value::Null,
        block_data: BlockData::Deposit { batch_number, transactions: Value::Array(vec![]) },
    }
}

fn exit_block(block_number: u32, batch_number: u32) -> Block {
    Block {
        block_number,
        new_root_hash: Value::Null,
        block_data: BlockData::Exit { batch_number, transactions: Value::Array(vec![]) },
    }
}

fn commit(block: Block, accounts: AccountMap) -> Operation {
    Operation { action: Action::Commit, block, accounts_updated: Some(accounts), tx_meta: None }
}

fn verify(block: Block, accounts: Option<AccountMap>) -> Operation {
    Operation {
        action: Action::Verify { proof: vec![0u8; 256] },
        block,
        accounts_updated: accounts,
        tx_meta: None,
    }
}

fn map_of(pairs: &[(u32, i64)]) -> AccountMap {
    let mut m = AccountMap::new();
    for (id, b) in pairs {
        m.insert(*id, acc(*b));
    }
    m
}

fn assert_same_map(a: &AccountMap, b: &AccountMap) {
    assert_eq!(a.len(), b.len());
    for i in 0..b.len() {
        assert_eq!(a.get(&b.id_at(i)), Some(b.data_at(i)));
    }
}

#[test]
fn test_store_proof() {
    let mut conn = StorageProcessor::new();

    assert!(conn.load_proof(1).is_err());

    let proof = EncodedProof::default();
    assert!(conn.store_proof(1, &proof).is_ok());

    let loaded = conn.load_proof(1).expect("must load proof");
    assert_eq!(loaded, proof);
}

#[test]
fn test_store_state() {
    let mut conn = StorageProcessor::new();

    // commit initial state update
    let accounts = map_of(&[(1, 1), (2, 2), (3, 3)]);
    conn.commit_state_update(1, &accounts).unwrap();

    let (_, state) = conn.load_verified_state().unwrap();
    assert_eq!(state.len(), 0);

    // committed state must be computed from updates
    let (last_block, state) = conn.load_committed_state().unwrap();
    assert_eq!(last_block, 1);
    assert_same_map(&state, &accounts);

    // now apply commitment
    conn.apply_state_update(1).expect("update must work");

    // verified state must be equal the commitment
    let (_, state) = conn.load_verified_state().unwrap();
    assert_same_map(&state, &accounts);

    let (_, state) = conn.load_state_diff(1, 2).expect("load_state_diff failed");
    assert_eq!(state.get(&2).unwrap(), &acc(2));

    let (_, reverse) = conn.load_state_diff(2, 1).unwrap();
    assert_eq!(reverse.len(), 0);

    // commit second state update
    let accounts2 = map_of(&[(2, 23), (4, 4)]);
    conn.commit_state_update(2, &accounts2).unwrap();

    assert_eq!(conn.load_verified_state().unwrap().1.len(), 3);
    assert_eq!(conn.load_committed_state().unwrap().1.len(), 4);

    let (_, state) = conn.load_state_diff(1, 2).unwrap();
    assert_eq!(state.get(&2).unwrap(), &acc(2));
    let (_, state) = conn.load_state_diff(1, 3).unwrap();
    assert_eq!(state.get(&2).unwrap(), &acc(23));
    let (_, state) = conn.load_state_diff(2, 3).unwrap();
    assert_eq!(state.get(&2).unwrap(), &acc(23));

    let (_, reverse) = conn.load_state_diff(3, 2).unwrap();
    assert_eq!(reverse.get(&2).unwrap(), &acc(2));
}

#[test]
fn test_store_txs() {
    let mut conn = StorageProcessor::new();
    conn.update_op_config("0x0", 0).unwrap();

    let accounts = map_of(&[(3, 1), (5, 2), (7, 3), (8, 4)]);
    conn.execute_operation(&commit(deposit_block(1, 0), accounts.duplicate())).unwrap();

    assert_eq!(conn.last_verified_state_for_account(5).unwrap(), None);
    assert_eq!(conn.last_committed_state_for_account(5).unwrap().unwrap(), acc(2));

    conn.execute_operation(&verify(deposit_block(1, 0), Some(accounts.duplicate()))).unwrap();

    assert_eq!(conn.last_verified_state_for_account(7).unwrap().unwrap(), acc(3));
    assert_eq!(conn.last_committed_state_for_account(7).unwrap().unwrap(), acc(3));

    let pending = conn.load_unsent_ops(0).unwrap();
    assert_eq!(pending.len(), 2);
    assert_eq!(pending[0].tx_meta.as_ref().unwrap().nonce, 0);
    assert_eq!(pending[1].tx_meta.as_ref().unwrap().nonce, 1);

    let pending = conn.load_unsent_ops(1).unwrap();
    assert_eq!(pending.len(), 1);
    assert_eq!(pending[0].tx_meta.as_ref().unwrap().nonce, 1);

    let pending = conn.load_unsent_ops(2).unwrap();
    assert_eq!(pending.len(), 0);
}

#[test]
fn test_store_proof_reqs() {
    let mut conn = StorageProcessor::new();
    conn.update_op_config("0x0", 0).unwrap();

    conn.execute_operation(&commit(deposit_block(1, 1), AccountMap::new())).unwrap();

    let pending = conn.load_unverified_commitments().unwrap();
    assert_eq!(pending.len(), 1);

    conn.execute_operation(&verify(deposit_block(1, 1), Some(AccountMap::new()))).unwrap();

    let pending = conn.load_unverified_commitments().unwrap();
    assert_eq!(pending.len(), 0);
}

#[test]
fn test_store_helpers() {
    let mut conn = StorageProcessor::new();

    assert_eq!(-1, conn.load_last_committed_deposit_batch().unwrap());
    assert_eq!(-1, conn.load_last_committed_exit_batch().unwrap());
    assert_eq!(0, conn.get_last_committed_block().unwrap());
    assert_eq!(0, conn.get_last_verified_block().unwrap());
    assert_eq!(conn.last_committed_state_for_account(9999).unwrap(), None);
    assert_eq!(conn.last_verified_state_for_account(9999).unwrap(), None);

    conn.execute_operation(&commit(deposit_block(1, 3), AccountMap::new())).unwrap();
    assert_eq!(3, conn.load_last_committed_deposit_batch().unwrap());

    conn.execute_operation(&commit(exit_block(1, 2), AccountMap::new())).unwrap();
    assert_eq!(2, conn.load_last_committed_exit_batch().unwrap());
}
