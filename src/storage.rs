//! The store: verified account snapshot, account update log, operation log
//! with per-signer nonces, proofs and prover leases.
use vstd::prelude::*;
use crate::account_map::{find_key, keyed_map, keys_unique, AccountMap};
use crate::blob::copy_blob;
use crate::error::StorageError;
use crate::operation::{
    same_action,
    same_op,
    Action,
    Block,
    BlockData,
    BlockNumber,
    EncodedProof,
    Nonce,
    Operation,
    TxMeta,
};
use crate::rows::{copy_rows, frontier_of, overlay};
use crate::state::{
    collect_latest,
    committed_rows,
    data_of,
    diff_rows,
    is_last_block,
    latest_rows,
    latest_update,
    prev_block,
    rows_to_state,
    verified_rows,
    AccountUpdate,
    StateRow,
};

verus! {

/// An operation as the log holds it, with the signer address and nonce that
/// the store assigned.
pub struct StoredOperation {
    pub id: usize,
    pub data: Operation,
    pub addr: String,
    pub nonce: Nonce,
    pub block_number: BlockNumber,
}

/// A stored proof of a block.
pub struct StoredProof {
    pub block_number: BlockNumber,
    pub proof: EncodedProof,
}

/// A lease of a block to a prover worker, taken at `created_at` (seconds).
pub struct NewProverRun {
    pub block_number: BlockNumber,
    pub worker: String,
    pub created_at: u64,
}

/// What the store holds, table by table.
pub struct StoreState {
    pub accounts: Seq<(u32, StateRow)>,
    pub updates: Seq<AccountUpdate>,
    pub operations: Seq<StoredOperation>,
    pub proofs: Seq<StoredProof>,
    pub runs: Seq<NewProverRun>,
    pub addr: String,
    pub next_nonce: Nonce,
}

/// No two updates share an account and a block.
pub open spec fn updates_unique(ups: Seq<AccountUpdate>) -> bool {
    forall|i: int, j: int|
        0 <= i < ups.len() && 0 <= j < ups.len() && #[trigger] ups[i].account_id
            == #[trigger] ups[j].account_id && ups[i].block_number == ups[j].block_number ==> i == j
}

/// No two proofs share a block.
pub open spec fn proofs_unique(ps: Seq<StoredProof>) -> bool {
    forall|i: int, j: int|
        0 <= i < ps.len() && 0 <= j < ps.len() && #[trigger] ps[i].block_number
            == #[trigger] ps[j].block_number ==> i == j
}

/// The account updates that a commitment of `pairs` at block `b` appends.
pub open spec fn update_rows(pairs: Seq<(u32, serde_json::Value)>, b: u32) -> Seq<AccountUpdate> {
    pairs.map_values(
        |p: (u32, serde_json::Value)| AccountUpdate { account_id: p.0, block_number: b, data: p.1 },
    )
}

/// Some account of `pairs` already has an update at block `b`.
pub open spec fn update_conflict(ups: Seq<AccountUpdate>, pairs: Seq<(u32, serde_json::Value)>, b: u32) -> bool {
    exists|i: int, k: int|
        0 <= i < pairs.len() && 0 <= k < ups.len() && #[trigger] ups[k].account_id == #[trigger] pairs[i].0
            && ups[k].block_number == b
}

impl StoreState {
    /// The invariant of the tables.
    pub open spec fn wf(&self) -> bool {
        &&& keys_unique(self.accounts)
        &&& updates_unique(self.updates)
        &&& proofs_unique(self.proofs)
        &&& forall|i: int|
            0 <= i < self.operations.len() ==> {
                let o = #[trigger] self.operations[i];
                &&& o.block_number == o.data.block.block_number
                &&& o.data.action is Commit ==> o.data.accounts_updated is Some
                &&& o.data.accounts_updated matches Some(m) ==> m.wf()
                &&& o.nonce < 0xffff_ffff
            }
    }

    /// The verified state (see `verified_rows`).
    pub open spec fn verified(&self) -> Map<u32, StateRow> {
        verified_rows(self.accounts)
    }

    /// The committed state (see `committed_rows`).
    pub open spec fn committed(&self) -> Map<u32, StateRow> {
        committed_rows(self.accounts, self.updates)
    }

    /// The state diff between two blocks (see `diff_rows`).
    pub open spec fn diff(&self, from: u32, to: u32) -> Map<u32, StateRow> {
        diff_rows(self.updates, from, to)
    }
}

/// A storage session: the tables it reads and writes.
pub struct StorageProcessor {
    accounts: Vec<(u32, StateRow)>,
    account_updates: Vec<AccountUpdate>,
    operations: Vec<StoredOperation>,
    proofs: Vec<StoredProof>,
    prover_runs: Vec<NewProverRun>,
    addr: String,
    next_nonce: Nonce,
}

impl View for StorageProcessor {
    type V = StoreState;

    closed spec fn view(&self) -> StoreState {
        StoreState {
            accounts: self.accounts@,
            updates: self.account_updates@,
            operations: self.operations@,
            proofs: self.proofs@,
            runs: self.prover_runs@,
            addr: self.addr,
            next_nonce: self.next_nonce,
        }
    }
}

impl StorageProcessor {
    /// A session on empty tables, with an empty signer address and nonce 0.
    pub fn new() -> (r: StorageProcessor)
        ensures
            r@.wf(),
            r@.accounts.len() == 0,
            r@.updates.len() == 0,
            r@.operations.len() == 0,
            r@.proofs.len() == 0,
            r@.runs.len() == 0,
            r@.addr@ == Seq::<char>::empty(),
            r@.next_nonce == 0,
    {
        StorageProcessor {
            accounts: Vec::new(),
            account_updates: Vec::new(),
            operations: Vec::new(),
            proofs: Vec::new(),
            prover_runs: Vec::new(),
            addr: String::new(),
            next_nonce: 0,
        }
    }

    /// Appends an update of each account of `accounts_updated` at
    /// `block_number`; fails, changing nothing, where one of them already has
    /// an update at that block.
    pub fn commit_state_update(&mut self, block_number: BlockNumber, accounts_updated: &AccountMap) -> (r:
        Result<(), StorageError>)
        requires
            old(self)@.wf(),
            accounts_updated.wf(),
        ensures
            final(self)@.wf(),
            match r {
                Ok(()) => {
                    &&& !update_conflict(old(self)@.updates, accounts_updated.pairs(), block_number)
                    &&& final(self)@ == (StoreState {
                        updates: old(self)@.updates + update_rows(accounts_updated.pairs(), block_number),
                        ..old(self)@
                    })
                },
                Err(e) => {
                    &&& update_conflict(old(self)@.updates, accounts_updated.pairs(), block_number)
                    &&& e == StorageError::PersistenceViolation
                    &&& final(self)@ == old(self)@
                },
            },
    {
        let n = accounts_updated.len();
        let mut i: usize = 0;
        while i < n
            invariant
                self@ == old(self)@,
                old(self)@.wf(),
                n == accounts_updated.pairs().len(),
                i <= n,
                forall|a: int, k: int|
                    0 <= a < i && 0 <= k < self.account_updates@.len() ==> !(
                    #[trigger] self.account_updates@[k].account_id == #[trigger] accounts_updated.pairs()[a].0
                        && self.account_updates@[k].block_number == block_number),
            decreases n - i,
        {
            let id = accounts_updated.id_at(i);
            let mut k: usize = 0;
            while k < self.account_updates.len()
                invariant
                    self@ == old(self)@,
                    old(self)@.wf(),
                    i < n,
                    n == accounts_updated.pairs().len(),
                    id == accounts_updated.pairs()[i as int].0,
                    k <= self.account_updates@.len(),
                    forall|q: int|
                        0 <= q < k ==> !(#[trigger] self.account_updates@[q].account_id == id
                            && self.account_updates@[q].block_number == block_number),
                decreases self.account_updates@.len() - k,
            {
                if self.account_updates[k].account_id == id && self.account_updates[k].block_number
                    == block_number {
                    return Err(StorageError::PersistenceViolation);
                }
                k = k + 1;
            }
            i = i + 1;
        }
        let ghost before = self.account_updates@;
        let ghost rows = update_rows(accounts_updated.pairs(), block_number);
        let mut j: usize = 0;
        while j < n
            invariant
                n == accounts_updated.pairs().len(),
                accounts_updated.wf(),
                j <= n,
                rows == update_rows(accounts_updated.pairs(), block_number),
                updates_unique(before),
                !update_conflict(before, accounts_updated.pairs(), block_number),
                self.account_updates@ == before + rows.take(j as int),
                self.accounts == old(self).accounts,
                self.operations == old(self).operations,
                self.proofs == old(self).proofs,
                self.prover_runs == old(self).prover_runs,
                self.addr == old(self).addr,
                self.next_nonce == old(self).next_nonce,
            decreases n - j,
        {
            let id = accounts_updated.id_at(j);
            let d = copy_blob(accounts_updated.data_at(j));
            self.account_updates.push(AccountUpdate { account_id: id, block_number, data: d });
            assert(rows.take(j as int + 1) =~= rows.take(j as int).push(rows[j as int]));
            j = j + 1;
        }
        assert(rows.take(n as int) =~= rows);
        proof {
            let ups = self.account_updates@;
            assert forall|a: int, b: int|
                0 <= a < ups.len() && 0 <= b < ups.len() && #[trigger] ups[a].account_id
                    == #[trigger] ups[b].account_id && ups[a].block_number == ups[b].block_number implies a
                == b by {
                let bl = before.len() as int;
                if a >= bl && b >= bl {
                    assert(accounts_updated.pairs()[a - bl].0 == accounts_updated.pairs()[b - bl].0);
                } else if a >= bl {
                    assert(before[b].account_id == accounts_updated.pairs()[a - bl].0);
                } else if b >= bl {
                    assert(before[a].account_id == accounts_updated.pairs()[b - bl].0);
                }
            }
        }
        assert(self@ =~= (StoreState { updates: old(self)@.updates + update_rows(accounts_updated.pairs(), block_number), ..old(self)@ }));
        Ok(())
    }

    /// Writes into the snapshot every account update made at `block_number`.
    pub fn apply_state_update(&mut self, block_number: BlockNumber) -> (r: Result<(), StorageError>)
        requires
            old(self)@.wf(),
        ensures
            r is Ok,
            final(self)@.wf(),
            keyed_map(final(self)@.accounts) == keyed_map(old(self)@.accounts).union_prefer_right(
                latest_rows(old(self)@.updates, block_number as int, block_number as int + 1),
            ),
            final(self)@ == (StoreState { accounts: final(self)@.accounts, ..old(self)@ }),
    {
        let upd = collect_latest(&self.account_updates, block_number as u64, block_number as u64 + 1);
        overlay(&mut self.accounts, &upd);
        Ok(())
    }

    /// The verified snapshot: its largest block number and its accounts.
    pub fn load_verified_state(&self) -> (r: Result<(u32, AccountMap), StorageError>)
        requires
            self@.wf(),
        ensures
            r matches Ok((last, m)) && m.wf() && is_last_block(self@.verified(), last) && m@ == data_of(
                self@.verified(),
            ),
    {
        let rows = copy_rows(&self.accounts);
        Ok(rows_to_state(rows))
    }

    /// The committed state: the snapshot overlaid with the latest update of
    /// each account updated after it.
    pub fn load_committed_state(&self) -> (r: Result<(u32, AccountMap), StorageError>)
        requires
            self@.wf(),
        ensures
            r matches Ok((last, m)) && m.wf() && is_last_block(self@.committed(), last) && m@ == data_of(
                self@.committed(),
            ),
    {
        let f = frontier_of(&self.accounts);
        let upd = collect_latest(&self.account_updates, f as u64 + 1, 0x1_0000_0000);
        let mut rows = copy_rows(&self.accounts);
        overlay(&mut rows, &upd);
        assert(keyed_map(rows@) =~= self@.committed());
        Ok(rows_to_state(rows))
    }

    /// The accounts updated between two blocks, each as of `to_block`.
    pub fn load_state_diff(&self, from_block: BlockNumber, to_block: BlockNumber) -> (r: Result<
        (u32, AccountMap),
        StorageError,
    >)
        requires
            self@.wf(),
        ensures
            r matches Ok((last, m)) && m.wf() && is_last_block(self@.diff(from_block, to_block), last)
                && m@ == data_of(self@.diff(from_block, to_block)),
    {
        let start = if from_block < to_block {
            from_block
        } else {
            to_block
        };
        let end = if from_block < to_block {
            to_block
        } else {
            from_block
        };
        let touched = collect_latest(&self.account_updates, start as u64, end as u64);
        let seen = collect_latest(&self.account_updates, 0, to_block as u64);
        let ghost tm = keyed_map(touched@);
        let mut out: Vec<(u32, StateRow)> = Vec::new();
        let mut i: usize = 0;
        assert(keyed_map(out@) =~= keyed_map(seen@.take(0)).restrict(tm.dom()));
        while i < seen.len()
            invariant
                i <= seen@.len(),
                keys_unique(seen@),
                keys_unique(out@),
                tm == keyed_map(touched@),
                keyed_map(out@) == keyed_map(seen@.take(i as int)).restrict(tm.dom()),
            decreases seen@.len() - i,
        {
            let id = seen[i].0;
            let ghost p = seen@.take(i as int);
            proof {
                assert(keys_unique(p));
                if crate::account_map::has_key(p, id) {
                    let k = choose|k: int| 0 <= k < p.len() && #[trigger] p[k].0 == id;
                    assert(seen@[k].0 == seen@[i as int].0);
                }
                crate::account_map::lemma_keyed_map_push(p, id, seen@[i as int].1);
                assert(seen@.take(i as int + 1) =~= p.push(seen@[i as int]));
            }
            if find_key(&touched, id).is_some() {
                let b = seen[i].1.0;
                let d = copy_blob(&seen[i].1.1);
                proof {
                    if crate::account_map::has_key(out@, id) {
                        let k = choose|k: int| 0 <= k < out@.len() && #[trigger] out@[k].0 == id;
                        crate::account_map::lemma_keyed_map_all(out@);
                        assert(keyed_map(out@).contains_key(out@[k].0));
                    }
                    crate::account_map::lemma_keyed_map_push(out@, id, (b, d));
                }
                out.push((id, (b, d)));
            }
            assert(keyed_map(out@) =~= keyed_map(seen@.take(i as int + 1)).restrict(tm.dom()));
            i = i + 1;
        }
        assert(seen@.take(seen@.len() as int) =~= seen@);
        assert(keyed_map(out@) =~= self@.diff(from_block, to_block));
        Ok(rows_to_state(out))
    }

    /// The accounts updated in block `block_number`, as of that block.
    pub fn load_state_diff_for_block(&self, block_number: BlockNumber) -> (r: Result<
        (u32, AccountMap),
        StorageError,
    >)
        requires
            self@.wf(),
        ensures
            r matches Ok((last, m)) && m.wf() && is_last_block(
                self@.diff(prev_block(block_number), block_number),
                last,
            ) && m@ == data_of(self@.diff(prev_block(block_number), block_number)),
    {
        if block_number == 0 {
            self.load_state_diff(0, 0)
        } else {
            self.load_state_diff(block_number - 1, block_number)
        }
    }

    /// The data of the latest update of account `account_id`, if any.
    pub fn last_committed_state_for_account(&self, account_id: u32) -> (r: Result<
        Option<serde_json::Value>,
        StorageError,
    >)
        requires
            self@.wf(),
        ensures
            r matches Ok(o) && o == (match latest_update(self@.updates, account_id, 0, 0x1_0000_0000) {
                Some(u) => Some(u.1),
                None => None,
            }),
    {
        let all = collect_latest(&self.account_updates, 0, 0x1_0000_0000);
        match find_key(&all, account_id) {
            Some(i) => {
                proof {
                    crate::account_map::lemma_keyed_map_at(all@, i as int);
                }
                Ok(Some(copy_blob(&all[i].1.1)))
            },
            None => {
                assert(!keyed_map(all@).contains_key(account_id));
                Ok(None)
            },
        }
    }

    /// The data of account `account_id` in the verified snapshot, if there.
    pub fn last_verified_state_for_account(&self, account_id: u32) -> (r: Result<
        Option<serde_json::Value>,
        StorageError,
    >)
        requires
            self@.wf(),
        ensures
            r matches Ok(o) && o == (if self@.verified().contains_key(account_id) {
                Some(self@.verified()[account_id].1)
            } else {
                None
            }),
    {
        match find_key(&self.accounts, account_id) {
            Some(i) => {
                proof {
                    crate::account_map::lemma_keyed_map_at(self.accounts@, i as int);
                }
                Ok(Some(copy_blob(&self.accounts[i].1.1)))
            },
            None => Ok(None),
        }
    }
}

} // verus!

verus! {

/// A selection of logged operations.
pub enum OpFilter {
    /// The commitments of a block.
    CommitOf(BlockNumber),
    /// The operations with a nonce of at least the one given.
    NonceAtLeast(Nonce),
    /// The commitments of blocks above the one given.
    CommitAbove(BlockNumber),
}

impl OpFilter {
    /// `o` is selected.
    pub open spec fn holds(self, o: StoredOperation) -> bool {
        match self {
            OpFilter::CommitOf(b) => o.data.action.is_commit() && o.block_number == b,
            OpFilter::NonceAtLeast(n) => o.nonce >= n,
            OpFilter::CommitAbove(b) => o.data.action.is_commit() && o.block_number > b,
        }
    }

    /// Whether `o` is selected.
    pub fn test(&self, o: &StoredOperation) -> (r: bool)
        ensures
            r == self.holds(*o),
    {
        let commit = matches!(o.data.action, Action::Commit);
        match self {
            OpFilter::CommitOf(b) => commit && o.block_number == *b,
            OpFilter::NonceAtLeast(n) => o.nonce >= *n,
            OpFilter::CommitAbove(b) => commit && o.block_number > *b,
        }
    }
}

/// The operations of `ops` that `pred` selects, in log order.
pub open spec fn ops_where(ops: Seq<StoredOperation>, pred: OpFilter) -> Seq<StoredOperation>
    decreases ops.len(),
{
    if ops.len() == 0 {
        Seq::empty()
    } else {
        let p = ops_where(ops.drop_last(), pred);
        if pred.holds(ops.last()) {
            p.push(ops.last())
        } else {
            p
        }
    }
}

/// The largest block number among the commitments (`commit`) or the
/// verifications (`!commit`) of `ops`; 0 when there is none.
pub open spec fn last_block_of(ops: Seq<StoredOperation>, commit: bool) -> u32
    decreases ops.len(),
{
    if ops.len() == 0 {
        0
    } else {
        let p = last_block_of(ops.drop_last(), commit);
        let o = ops.last();
        if o.data.action.is_commit() == commit && o.block_number > p {
            o.block_number
        } else {
            p
        }
    }
}

/// The batch number of a deposit block (`deposit`) or an exit block
/// (`!deposit`).
pub open spec fn batch_of(d: BlockData, deposit: bool) -> Option<u32> {
    match d {
        BlockData::Deposit { batch_number, .. } => if deposit {
            Some(batch_number)
        } else {
            None
        },
        BlockData::Exit { batch_number, .. } => if deposit {
            None
        } else {
            Some(batch_number)
        },
        _ => None,
    }
}

/// The largest batch number among the committed deposit (or exit) blocks of
/// `ops`; -1 when there is none.
pub open spec fn last_batch(ops: Seq<StoredOperation>, deposit: bool) -> int
    decreases ops.len(),
{
    if ops.len() == 0 {
        -1
    } else {
        let p = last_batch(ops.drop_last(), deposit);
        let o = ops.last();
        match batch_of(o.data.block.block_data, deposit) {
            Some(n) => if o.data.action.is_commit() && n > p {
                n as int
            } else {
                p
            },
            None => p,
        }
    }
}

/// The next unused nonce of `addr`: one past its largest nonce, 0 when it
/// has none.
pub open spec fn next_unused_nonce(ops: Seq<StoredOperation>, addr: Seq<char>) -> int
    decreases ops.len(),
{
    if ops.len() == 0 {
        0
    } else {
        let p = next_unused_nonce(ops.drop_last(), addr);
        let o = ops.last();
        if o.addr@ == addr && o.nonce + 1 > p {
            o.nonce + 1
        } else {
            p
        }
    }
}

/// `r` is the stored operation `so` as it is handed out: with its signer
/// address and nonce, and with its account updates, which are read from the
/// update log for its block where it was stored without them.
pub open spec fn hydrated(st: StoreState, so: StoredOperation, r: Operation) -> bool {
    &&& same_action(r.action, so.data.action)
    &&& r.block == so.data.block
    &&& r.tx_meta == Some(TxMeta { addr: so.addr, nonce: so.nonce })
    &&& r.accounts_updated matches Some(m) && m.wf() && m@ == (match so.data.accounts_updated {
        Some(a) => a@,
        None => data_of(st.diff(prev_block(so.block_number), so.block_number)),
    })
}

/// Each operation of `v` is the hydrated form of the one of `ops` at its position.
pub open spec fn all_hydrated(st: StoreState, ops: Seq<StoredOperation>, v: Seq<Operation>) -> bool {
    &&& v.len() == ops.len()
    &&& forall|i: int| 0 <= i < v.len() ==> hydrated(st, #[trigger] ops[i], v[i])
}

/// The stored operation that `execute_operation` appends for `op`.
pub open spec fn appended(st: StoreState, op: Operation, so: StoredOperation) -> bool {
    &&& so.id == st.operations.len()
    &&& same_op(so.data, op)
    &&& so.addr == st.addr
    &&& so.nonce == st.next_nonce
    &&& so.block_number == op.block.block_number
}

impl StoredOperation {
    /// The signer address and nonce of the operation.
    pub fn get_meta(&self) -> (r: TxMeta)
        ensures
            r == (TxMeta { addr: self.addr, nonce: self.nonce }),
    {
        TxMeta { addr: self.addr.clone(), nonce: self.nonce }
    }

    /// The operation as it is handed out (see `hydrated`).
    pub fn into_op(self, conn: &StorageProcessor) -> (r: Result<Operation, StorageError>)
        requires
            conn@.wf(),
            self.block_number == self.data.block.block_number,
            self.data.accounts_updated matches Some(m) ==> m.wf(),
        ensures
            r matches Ok(o) && hydrated(conn@, self, o),
    {
        conn.hydrate(&self)
    }
}

impl StorageProcessor {
    /// Hands out a stored operation (see `hydrated`).
    fn hydrate(&self, so: &StoredOperation) -> (r: Result<Operation, StorageError>)
        requires
            self@.wf(),
            so.block_number == so.data.block.block_number,
            so.data.accounts_updated matches Some(m) ==> m.wf(),
        ensures
            r matches Ok(o) && hydrated(self@, *so, o),
    {
        let meta = so.get_meta();
        let accounts = match &so.data.accounts_updated {
            Some(m) => m.duplicate(),
            None => {
                let (_, updates) = self.load_state_diff_for_block(so.data.block.block_number)?;
                updates
            },
        };
        Ok(
            Operation {
                action: so.data.action.duplicate(),
                block: so.data.block.duplicate(),
                accounts_updated: Some(accounts),
                tx_meta: Some(meta),
            },
        )
    }

    /// Hydrates each operation of the log that satisfies `pred`, in log order.
    fn hydrate_where(&self, pred: OpFilter) -> (r: Result<Vec<Operation>, StorageError>)
        requires
            self@.wf(),
        ensures
            r matches Ok(v) && all_hydrated(self@, ops_where(self@.operations, pred), v@),
    {
        let mut out: Vec<Operation> = Vec::new();
        let mut i: usize = 0;
        assert(ops_where(self@.operations.take(0), pred) =~= Seq::<StoredOperation>::empty());
        while i < self.operations.len()
            invariant
                self@.wf(),
                i <= self@.operations.len(),
                all_hydrated(self@, ops_where(self@.operations.take(i as int), pred), out@),
            decreases self@.operations.len() - i,
        {
            let ghost ops = self@.operations;
            assert(ops.take(i as int + 1).drop_last() =~= ops.take(i as int));
            assert(ops.take(i as int + 1).last() == ops[i as int]);
            let so = &self.operations[i];
            if pred.test(so) {
                let h = self.hydrate(so)?;
                out.push(h);
            }
            i = i + 1;
        }
        assert(self@.operations.take(self@.operations.len() as int) =~= self@.operations);
        Ok(out)
    }
}

} // verus!

verus! {

/// The account pairs of a commitment, empty where it has none.
pub open spec fn commit_pairs(op: Operation) -> Seq<(u32, serde_json::Value)> {
    match op.accounts_updated {
        Some(m) => m.pairs(),
        None => Seq::empty(),
    }
}

impl StorageProcessor {
    /// Sets the signer address to `addr`, and the next nonce to the larger
    /// of `nonce` and the next unused nonce of `addr` in the log.
    pub fn update_op_config(&mut self, addr: &str, nonce: Nonce) -> (r: Result<(), StorageError>)
        requires
            old(self)@.wf(),
        ensures
            r is Ok,
            final(self)@.wf(),
            final(self)@.addr@ == addr@,
            final(self)@.next_nonce == vstd::math::max(
                next_unused_nonce(old(self)@.operations, addr@),
                nonce as int,
            ),
            final(self)@ == (StoreState {
                addr: final(self)@.addr,
                next_nonce: final(self)@.next_nonce,
                ..old(self)@
            }),
    {
        let a = addr.to_owned();
        let mut next: u32 = 0;
        let mut i: usize = 0;
        assert(self@.operations.take(0) =~= Seq::<StoredOperation>::empty());
        while i < self.operations.len()
            invariant
                self@ == old(self)@,
                self@.wf(),
                a@ == addr@,
                i <= self@.operations.len(),
                next == next_unused_nonce(self@.operations.take(i as int), addr@),
            decreases self@.operations.len() - i,
        {
            let ghost ops = self@.operations;
            assert(ops.take(i as int + 1).drop_last() =~= ops.take(i as int));
            assert(ops.take(i as int + 1).last() == ops[i as int]);
            if self.operations[i].addr == a && self.operations[i].nonce + 1 > next {
                next = self.operations[i].nonce + 1;
            }
            i = i + 1;
        }
        assert(self@.operations.take(self@.operations.len() as int) =~= self@.operations);
        self.addr = a;
        self.next_nonce = if next > nonce {
            next
        } else {
            nonce
        };
        Ok(())
    }

    /// Carries out `op` and logs it: a commitment appends its account
    /// updates, a verification writes its block's updates into the snapshot.
    /// The logged operation takes the signer address and the next nonce.
    /// Fails, changing nothing, where the nonces are exhausted or a
    /// commitment's account already has an update at the block.
    pub fn execute_operation(&mut self, op: &Operation) -> (r: Result<Operation, StorageError>)
        requires
            old(self)@.wf(),
            op.action is Commit ==> op.accounts_updated is Some,
            op.accounts_updated matches Some(m) ==> m.wf(),
        ensures
            final(self)@.wf(),
            match r {
                Ok(res) => {
                    let st = old(self)@;
                    let b = op.block.block_number;
                    &&& st.next_nonce < 0xffff_ffff
                    &&& op.action is Commit ==> !update_conflict(st.updates, commit_pairs(*op), b)
                    &&& final(self)@.operations.len() == st.operations.len() + 1
                    &&& final(self)@.operations.drop_last() == st.operations
                    &&& appended(st, *op, final(self)@.operations.last())
                    &&& final(self)@.next_nonce == st.next_nonce + 1
                    &&& final(self)@.addr == st.addr
                    &&& final(self)@.proofs == st.proofs
                    &&& final(self)@.runs == st.runs
                    &&& op.action is Commit ==> final(self)@.updates == st.updates + update_rows(
                        commit_pairs(*op),
                        b,
                    ) && final(self)@.accounts == st.accounts
                    &&& op.action is Verify ==> final(self)@.updates == st.updates && keyed_map(
                        final(self)@.accounts,
                    ) == keyed_map(st.accounts).union_prefer_right(
                        latest_rows(st.updates, b as int, b as int + 1),
                    )
                    &&& hydrated(final(self)@, final(self)@.operations.last(), res)
                },
                Err(e) => {
                    &&& final(self)@ == old(self)@
                    &&& old(self)@.next_nonce == 0xffff_ffff ==> e == StorageError::Backend
                    &&& old(self)@.next_nonce < 0xffff_ffff ==> op.action is Commit && update_conflict(
                        old(self)@.updates,
                        commit_pairs(*op),
                        op.block.block_number,
                    ) && e == StorageError::PersistenceViolation
                },
            },
    {
        if self.next_nonce == 0xffff_ffff {
            return Err(StorageError::Backend);
        }
        let b = op.block.block_number;
        match &op.action {
            Action::Commit => match &op.accounts_updated {
                Some(m) => self.commit_state_update(b, m)?,
                None => {
                    return Err(StorageError::Backend);
                },
            },
            Action::Verify { .. } => self.apply_state_update(b)?,
        }
        let data = op.duplicate();
        let stored = StoredOperation {
            id: self.operations.len(),
            data,
            addr: self.addr.clone(),
            nonce: self.next_nonce,
            block_number: b,
        };
        let ghost before = self@.operations;
        self.operations.push(stored);
        self.next_nonce = self.next_nonce + 1;
        assert(self@.operations.drop_last() =~= before);
        proof {
            let ops = self@.operations;
            assert forall|i: int| 0 <= i < ops.len() implies {
                let o = #[trigger] ops[i];
                &&& o.block_number == o.data.block.block_number
                &&& o.data.action is Commit ==> o.data.accounts_updated is Some
                &&& o.data.accounts_updated matches Some(m) ==> m.wf()
                &&& o.nonce < 0xffff_ffff
            } by {
                if i < before.len() {
                    assert(ops[i] == before[i]);
                }
            }
        }
        let last = self.operations.len() - 1;
        self.hydrate(&self.operations[last])
    }

    /// The first commitment of block `block_number`, hydrated.
    pub fn load_commit_op(&self, block_number: BlockNumber) -> (r: Result<Operation, StorageError>)
        requires
            self@.wf(),
        ensures
            ({
                let found = ops_where(self@.operations, OpFilter::CommitOf(block_number));
                match r {
                    Ok(o) => found.len() > 0 && hydrated(self@, found[0], o),
                    Err(e) => found.len() == 0 && e == StorageError::NotFound,
                }
            }),
    {
        let mut v = self.hydrate_where(OpFilter::CommitOf(block_number))?;
        if v.len() == 0 {
            Err(StorageError::NotFound)
        } else {
            Ok(v.remove(0))
        }
    }

    /// The block of the first commitment of `block_number`.
    pub fn load_committed_block(&self, block_number: BlockNumber) -> (r: Result<Block, StorageError>)
        requires
            self@.wf(),
        ensures
            ({
                let found = ops_where(self@.operations, OpFilter::CommitOf(block_number));
                match r {
                    Ok(b) => found.len() > 0 && b == found[0].data.block,
                    Err(e) => found.len() == 0 && e == StorageError::NotFound,
                }
            }),
    {
        let op = self.load_commit_op(block_number)?;
        Ok(op.block)
    }

    /// The operations whose nonce is at least `current_nonce`, hydrated, in
    /// log order.
    pub fn load_unsent_ops(&self, current_nonce: Nonce) -> (r: Result<Vec<Operation>, StorageError>)
        requires
            self@.wf(),
        ensures
            r matches Ok(v) && all_hydrated(self@, ops_where(self@.operations, OpFilter::NonceAtLeast(current_nonce)), v@),
    {
        self.hydrate_where(OpFilter::NonceAtLeast(current_nonce))
    }

    /// The commitments of blocks above the last verified block, hydrated, in
    /// log order.
    pub fn load_unverified_commitments(&self) -> (r: Result<Vec<Operation>, StorageError>)
        requires
            self@.wf(),
        ensures
            r matches Ok(v) && all_hydrated(
                self@,
                ops_where(self@.operations, OpFilter::CommitAbove(last_block_of(self@.operations, false))),
                v@,
            ),
    {
        let verified = self.get_last_verified_block()?;
        self.hydrate_where(OpFilter::CommitAbove(verified))
    }

    /// The largest block number of the commitments or verifications.
    fn last_block(&self, commit: bool) -> (r: u32)
        requires
            self@.wf(),
        ensures
            r == last_block_of(self@.operations, commit),
    {
        let mut last: u32 = 0;
        let mut i: usize = 0;
        assert(self@.operations.take(0) =~= Seq::<StoredOperation>::empty());
        while i < self.operations.len()
            invariant
                i <= self@.operations.len(),
                last == last_block_of(self@.operations.take(i as int), commit),
            decreases self@.operations.len() - i,
        {
            let ghost ops = self@.operations;
            assert(ops.take(i as int + 1).drop_last() =~= ops.take(i as int));
            assert(ops.take(i as int + 1).last() == ops[i as int]);
            let o = &self.operations[i];
            let is_commit = matches!(o.data.action, Action::Commit);
            if is_commit == commit && o.block_number > last {
                last = o.block_number;
            }
            i = i + 1;
        }
        assert(self@.operations.take(self@.operations.len() as int) =~= self@.operations);
        last
    }

    /// The largest committed block number, 0 when nothing was committed.
    pub fn get_last_committed_block(&self) -> (r: Result<BlockNumber, StorageError>)
        requires
            self@.wf(),
        ensures
            r == Ok::<u32, StorageError>(last_block_of(self@.operations, true)),
    {
        Ok(self.last_block(true))
    }

    /// The largest verified block number, 0 when nothing was verified.
    pub fn get_last_verified_block(&self) -> (r: Result<BlockNumber, StorageError>)
        requires
            self@.wf(),
        ensures
            r == Ok::<u32, StorageError>(last_block_of(self@.operations, false)),
    {
        Ok(self.last_block(false))
    }

    /// The largest batch number of the committed deposit or exit blocks.
    fn last_committed_batch(&self, deposit: bool) -> (r: i64)
        requires
            self@.wf(),
        ensures
            r == last_batch(self@.operations, deposit),
    {
        let mut last: i64 = -1;
        let mut i: usize = 0;
        assert(self@.operations.take(0) =~= Seq::<StoredOperation>::empty());
        while i < self.operations.len()
            invariant
                i <= self@.operations.len(),
                last == last_batch(self@.operations.take(i as int), deposit),
                -1 <= last <= 0xffff_ffff,
            decreases self@.operations.len() - i,
        {
            let ghost ops = self@.operations;
            assert(ops.take(i as int + 1).drop_last() =~= ops.take(i as int));
            assert(ops.take(i as int + 1).last() == ops[i as int]);
            let o = &self.operations[i];
            let batch: Option<u32> = match &o.data.block.block_data {
                BlockData::Deposit { batch_number, .. } => if deposit {
                    Some(*batch_number)
                } else {
                    None
                },
                BlockData::Exit { batch_number, .. } => if deposit {
                    None
                } else {
                    Some(*batch_number)
                },
                _ => None,
            };
            if let Some(n) = batch {
                if matches!(o.data.action, Action::Commit) && n as i64 > last {
                    last = n as i64;
                }
            }
            i = i + 1;
        }
        assert(self@.operations.take(self@.operations.len() as int) =~= self@.operations);
        last
    }

    /// The largest batch number of a committed deposit block, -1 when there
    /// is none.
    pub fn load_last_committed_deposit_batch(&self) -> (r: Result<i64, StorageError>)
        requires
            self@.wf(),
        ensures
            r matches Ok(n) && n == last_batch(self@.operations, true),
    {
        Ok(self.last_committed_batch(true))
    }

    /// The largest batch number of a committed exit block, -1 when there is
    /// none.
    pub fn load_last_committed_exit_batch(&self) -> (r: Result<i64, StorageError>)
        requires
            self@.wf(),
        ensures
            r matches Ok(n) && n == last_batch(self@.operations, false),
    {
        Ok(self.last_committed_batch(false))
    }
}

} // verus!

verus! {

/// Some operation of `ops` is a verification.
pub open spec fn has_verify(ops: Seq<StoredOperation>) -> bool {
    exists|i: int| 0 <= i < ops.len() && !(#[trigger] ops[i]).data.action.is_commit()
}

/// Some proof of `ps` is of block `b`.
pub open spec fn has_proof(ps: Seq<StoredProof>, b: u32) -> bool {
    exists|i: int| 0 <= i < ps.len() && (#[trigger] ps[i]).block_number == b
}

/// The bytes of the proof of block `b`, if one is stored.
pub open spec fn proof_of(ps: Seq<StoredProof>, b: u32) -> Option<Seq<u8>> {
    if has_proof(ps, b) {
        Some(ps[choose|i: int| 0 <= i < ps.len() && (#[trigger] ps[i]).block_number == b].proof@)
    } else {
        None
    }
}

/// A lease of block `b` taken less than `timeout` seconds before `now`
/// (or after `now`) is still running.
pub open spec fn lease_active(runs: Seq<NewProverRun>, b: u32, timeout: int, now: int) -> bool {
    exists|i: int|
        0 <= i < runs.len() && (#[trigger] runs[i]).block_number == b && now < runs[i].created_at
            + timeout
}

/// `o` commits a block that a prover may take now: above the last verified
/// block (or nothing is verified), with no proof and no running lease.
pub open spec fn job_open(st: StoreState, o: StoredOperation, timeout: int, now: int) -> bool {
    &&& o.data.action.is_commit()
    &&& (o.block_number > last_block_of(st.operations, false) || !has_verify(st.operations))
    &&& !has_proof(st.proofs, o.block_number)
    &&& !lease_active(st.runs, o.block_number, timeout, now)
}

/// `b` is the smallest block that a prover may take now.
pub open spec fn is_next_job(st: StoreState, b: u32, timeout: int, now: int) -> bool {
    &&& exists|i: int|
        0 <= i < st.operations.len() && job_open(st, #[trigger] st.operations[i], timeout, now)
            && st.operations[i].block_number == b
    &&& forall|i: int|
        0 <= i < st.operations.len() && job_open(st, #[trigger] st.operations[i], timeout, now)
            ==> b <= st.operations[i].block_number
}

/// No block may be taken by a prover now.
pub open spec fn no_job(st: StoreState, timeout: int, now: int) -> bool {
    forall|i: int|
        0 <= i < st.operations.len() ==> !job_open(st, #[trigger] st.operations[i], timeout, now)
}

/// Relies on std's `SystemTime::now` and `duration_since`: the seconds since
/// the Unix epoch by the machine's clock, 0 for a clock set before it.
#[verifier::external_body]
fn unix_now() -> (r: u64) {
    match std::time::SystemTime::now().duration_since(std::time::UNIX_EPOCH) {
        Ok(d) => d.as_secs(),
        Err(_) => 0,
    }
}

impl StorageProcessor {
    fn any_verify(&self) -> (r: bool)
        ensures
            r == has_verify(self@.operations),
    {
        let mut i: usize = 0;
        while i < self.operations.len()
            invariant
                i <= self@.operations.len(),
                forall|j: int| 0 <= j < i ==> (#[trigger] self@.operations[j]).data.action.is_commit(),
            decreases self@.operations.len() - i,
        {
            if !matches!(self.operations[i].data.action, Action::Commit) {
                return true;
            }
            i = i + 1;
        }
        false
    }

    fn proof_stored(&self, b: u32) -> (r: Option<usize>)
        ensures
            match r {
                Some(i) => i < self@.proofs.len() && self@.proofs[i as int].block_number == b,
                None => !has_proof(self@.proofs, b),
            },
    {
        let mut i: usize = 0;
        while i < self.proofs.len()
            invariant
                i <= self@.proofs.len(),
                forall|j: int| 0 <= j < i ==> (#[trigger] self@.proofs[j]).block_number != b,
            decreases self@.proofs.len() - i,
        {
            if self.proofs[i].block_number == b {
                return Some(i);
            }
            i = i + 1;
        }
        None
    }

    fn lease_running(&self, b: u32, timeout: usize, now: u64) -> (r: bool)
        ensures
            r == lease_active(self@.runs, b, timeout as int, now as int),
    {
        let mut i: usize = 0;
        while i < self.prover_runs.len()
            invariant
                i <= self@.runs.len(),
                forall|j: int|
                    0 <= j < i ==> !((#[trigger] self@.runs[j]).block_number == b && now < self@.runs[j].created_at
                        + timeout),
            decreases self@.runs.len() - i,
        {
            let run = &self.prover_runs[i];
            if run.block_number == b && (now < run.created_at || ((now - run.created_at) as u128) < (
            timeout as u128)) {
                return true;
            }
            i = i + 1;
        }
        false
    }

    /// Leases to `worker`, at time `now` (seconds), the smallest committed
    /// block that has no proof, lies above the last verified block, and has
    /// no lease younger than `timeout_seconds`; `None` where there is none.
    pub fn fetch_prover_job_at(&mut self, worker: &String, timeout_seconds: usize, now: u64) -> (r: Result<
        Option<BlockNumber>,
        StorageError,
    >)
        requires
            old(self)@.wf(),
        ensures
            final(self)@.wf(),
            match r {
                Ok(Some(b)) => {
                    &&& is_next_job(old(self)@, b, timeout_seconds as int, now as int)
                    &&& final(self)@ == (StoreState {
                        runs: old(self)@.runs.push(
                            NewProverRun { block_number: b, worker: *worker, created_at: now },
                        ),
                        ..old(self)@
                    })
                },
                Ok(None) => no_job(old(self)@, timeout_seconds as int, now as int) && final(self)@ == old(
                    self,
                )@,
                Err(_) => false,
            },
    {
        let verified = self.last_block(false);
        let any = self.any_verify();
        let mut best: Option<u32> = None;
        let mut i: usize = 0;
        while i < self.operations.len()
            invariant
                self@ == old(self)@,
                verified == last_block_of(self@.operations, false),
                any == has_verify(self@.operations),
                i <= self@.operations.len(),
                match best {
                    Some(b) => (exists|j: int|
                        0 <= j < i && job_open(self@, #[trigger] self@.operations[j], timeout_seconds as int, now as int)
                            && self@.operations[j].block_number == b) && forall|j: int|
                        0 <= j < i && job_open(self@, #[trigger] self@.operations[j], timeout_seconds as int, now as int)
                            ==> b <= self@.operations[j].block_number,
                    None => forall|j: int|
                        0 <= j < i ==> !job_open(self@, #[trigger] self@.operations[j], timeout_seconds as int, now as int),
                },
            decreases self@.operations.len() - i,
        {
            let o = &self.operations[i];
            let b = o.block_number;
            if matches!(o.data.action, Action::Commit) && (b > verified || !any) {
                let better = match best {
                    Some(c) => b < c,
                    None => true,
                };
                if better && self.proof_stored(b).is_none() && !self.lease_running(b, timeout_seconds, now) {
                    best = Some(b);
                }
            }
            i = i + 1;
        }
        match best {
            Some(b) => {
                let run = NewProverRun { block_number: b, worker: worker.clone(), created_at: now };
                self.prover_runs.push(run);
                assert(self@ =~= (StoreState {
                    runs: old(self)@.runs.push(NewProverRun { block_number: b, worker: *worker, created_at: now }),
                    ..old(self)@
                }));
            },
            None => {},
        }
        Ok(best)
    }

    /// Leases a block to `worker` as `fetch_prover_job_at` does, at the time
    /// that the machine's clock gives.
    pub fn fetch_prover_job(&mut self, worker: &String, timeout_seconds: usize) -> (r: Result<
        Option<BlockNumber>,
        StorageError,
    >)
        requires
            old(self)@.wf(),
        ensures
            final(self)@.wf(),
            match r {
                Ok(Some(b)) => exists|now: u64|
                    #[trigger] is_next_job(old(self)@, b, timeout_seconds as int, now as int) && final(self)@
                        == (StoreState {
                        runs: old(self)@.runs.push(
                            NewProverRun { block_number: b, worker: *worker, created_at: now },
                        ),
                        ..old(self)@
                    }),
                Ok(None) => exists|now: u64|
                    #[trigger] no_job(old(self)@, timeout_seconds as int, now as int) && final(self)@ == old(
                        self,
                    )@,
                Err(_) => false,
            },
    {
        let now = unix_now();
        self.fetch_prover_job_at(worker, timeout_seconds, now)
    }

    /// Stores the proof of block `block_number`; fails, changing nothing,
    /// where that block already has one.
    pub fn store_proof(&mut self, block_number: BlockNumber, proof: &EncodedProof) -> (r: Result<
        usize,
        StorageError,
    >)
        requires
            old(self)@.wf(),
        ensures
            final(self)@.wf(),
            match r {
                Ok(n) => {
                    &&& n == 1
                    &&& !has_proof(old(self)@.proofs, block_number)
                    &&& final(self)@.proofs.len() == old(self)@.proofs.len() + 1
                    &&& final(self)@.proofs.drop_last() == old(self)@.proofs
                    &&& final(self)@.proofs.last().block_number == block_number
                    &&& final(self)@.proofs.last().proof@ == proof@
                    &&& final(self)@ == (StoreState { proofs: final(self)@.proofs, ..old(self)@ })
                },
                Err(e) => has_proof(old(self)@.proofs, block_number) && e == StorageError::PersistenceViolation
                    && final(self)@ == old(self)@,
            },
    {
        if self.proof_stored(block_number).is_some() {
            return Err(StorageError::PersistenceViolation);
        }
        let p = proof.clone();
        assert(p@ =~= proof@);
        let ghost before = self@.proofs;
        self.proofs.push(StoredProof { block_number, proof: p });
        proof {
            let ps = self@.proofs;
            assert(ps.drop_last() =~= before);
            assert forall|i: int, j: int|
                0 <= i < ps.len() && 0 <= j < ps.len() && #[trigger] ps[i].block_number
                    == #[trigger] ps[j].block_number implies i == j by {
                if i < before.len() {
                    assert(ps[i] == before[i]);
                }
                if j < before.len() {
                    assert(ps[j] == before[j]);
                }
            }
        }
        Ok(1)
    }

    /// The proof of block `block_number`; `NotFound` where none is stored.
    pub fn load_proof(&self, block_number: BlockNumber) -> (r: Result<EncodedProof, StorageError>)
        requires
            self@.wf(),
        ensures
            match proof_of(self@.proofs, block_number) {
                Some(p) => r matches Ok(v) && v@ == p,
                None => r == Err::<EncodedProof, StorageError>(StorageError::NotFound),
            },
    {
        match self.proof_stored(block_number) {
            Some(i) => {
                let v = self.proofs[i].proof.clone();
                assert(v@ =~= self.proofs[i as int].proof@);
                proof {
                    let ps = self@.proofs;
                    let k = choose|k: int| 0 <= k < ps.len() && (#[trigger] ps[k]).block_number == block_number;
                    assert(ps[k].block_number == ps[i as int].block_number);
                }
                Ok(v)
            },
            None => Err(StorageError::NotFound),
        }
    }
}

} // verus!
