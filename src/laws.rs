//! Properties that relate several operations of the store, proved over the
//! views that their contracts are stated in.
use vstd::prelude::*;
use crate::account_map::{keyed_map, keys_unique};
use crate::state::{diff_rows, frontier, latest_rows, latest_update, AccountUpdate};
use crate::storage::{
    last_block_of,
    has_proof,
    is_next_job,
    job_open,
    lease_active,
    ops_where,
    proof_of,
    update_rows,
    NewProverRun,
    OpFilter,
    StoreState,
    StoredOperation,
    StoredProof,
};

verus! {

/// A latest update comes from an update of that account, in the range.
pub proof fn lemma_latest_from(ups: Seq<AccountUpdate>, id: u32, lo: int, hi: int)
    ensures
        latest_update(ups, id, lo, hi) matches Some(r) ==> exists|i: int|
            0 <= i < ups.len() && (#[trigger] ups[i]).account_id == id && ups[i].block_number == r.0
                && ups[i].data == r.1 && lo <= r.0 < hi,
    decreases ups.len(),
{
    if ups.len() > 0 {
        let p = ups.drop_last();
        lemma_latest_from(p, id, lo, hi);
        if let Some(r) = latest_update(p, id, lo, hi) {
            let i = choose|i: int|
                0 <= i < p.len() && (#[trigger] p[i]).account_id == id && p[i].block_number == r.0
                    && p[i].data == r.1 && lo <= r.0 < hi;
            assert(ups[i] == p[i]);
        }
        assert(ups[ups.len() - 1] == ups.last());
    }
}

/// Appending updates that all lie at block `b`, above every earlier update,
/// makes the appended update of an account its latest one.
pub proof fn lemma_latest_after_append(s: Seq<AccountUpdate>, t: Seq<AccountUpdate>, id: u32, lo: int, hi: int, b: u32)
    requires
        forall|i: int| 0 <= i < s.len() ==> (#[trigger] s[i]).block_number < b,
        forall|j: int| 0 <= j < t.len() ==> (#[trigger] t[j]).block_number == b,
        forall|i: int, j: int|
            0 <= i < t.len() && 0 <= j < t.len() && (#[trigger] t[i]).account_id == (#[trigger] t[j]).account_id
                ==> i == j,
        lo <= b < hi,
    ensures
        forall|j: int|
            0 <= j < t.len() && (#[trigger] t[j]).account_id == id ==> latest_update(s + t, id, lo, hi)
                == Some((b, t[j].data)),
        (forall|j: int| 0 <= j < t.len() ==> (#[trigger] t[j]).account_id != id) ==> latest_update(
            s + t,
            id,
            lo,
            hi,
        ) == latest_update(s, id, lo, hi),
    decreases t.len(),
{
    if t.len() == 0 {
        assert(s + t =~= s);
    } else {
        let tp = t.drop_last();
        lemma_latest_after_append(s, tp, id, lo, hi, b);
        assert((s + t).drop_last() =~= s + tp);
        assert((s + t).last() == t.last());
        lemma_latest_from(s, id, lo, hi);
        assert(forall|j: int| 0 <= j < tp.len() ==> tp[j] == t[j]);
        if t.last().account_id == id {
            assert(forall|j: int| 0 <= j < tp.len() ==> (#[trigger] tp[j]).account_id != id) by {
                assert forall|j: int| 0 <= j < tp.len() implies (#[trigger] tp[j]).account_id != id by {
                    if tp[j].account_id == id {
                        assert(t[j].account_id == t[t.len() - 1].account_id);
                    }
                }
            }
            if let Some(r) = latest_update(s, id, lo, hi) {
                let i = choose|i: int|
                    0 <= i < s.len() && (#[trigger] s[i]).account_id == id && s[i].block_number == r.0
                        && s[i].data == r.1 && lo <= r.0 < hi;
            }
        }
    }
}

/// A commitment of `pairs` at block `b`, above the snapshot and above every
/// earlier update, leaves the verified state as it was, and the committed
/// state then shows each account of `pairs` with the value committed.
pub proof fn lemma_commit_shows_in_committed(
    before: StoreState,
    after: StoreState,
    pairs: Seq<(u32, serde_json::Value)>,
    b: u32,
)
    requires
        before.wf(),
        keys_unique(pairs),
        b > frontier(before.accounts),
        forall|i: int| 0 <= i < before.updates.len() ==> (#[trigger] before.updates[i]).block_number < b,
        after.accounts == before.accounts,
        after.updates == before.updates + update_rows(pairs, b),
    ensures
        after.verified() == before.verified(),
        forall|k: int|
            0 <= k < pairs.len() ==> after.committed().contains_key((#[trigger] pairs[k]).0)
                && after.committed()[pairs[k].0] == (b, pairs[k].1),
{
    let t = update_rows(pairs, b);
    let lo = frontier(before.accounts) + 1;
    let hi = 0x1_0000_0000int;
    assert forall|i: int, j: int|
        0 <= i < t.len() && 0 <= j < t.len() && (#[trigger] t[i]).account_id == (#[trigger] t[j]).account_id implies i
        == j by {
        assert(pairs[i].0 == pairs[j].0);
    }
    assert forall|k: int| 0 <= k < pairs.len() implies after.committed().contains_key((#[trigger] pairs[k]).0)
        && after.committed()[pairs[k].0] == (b, pairs[k].1) by {
        lemma_latest_after_append(before.updates, t, pairs[k].0, lo, hi, b);
        assert(t[k].account_id == pairs[k].0);
        assert(latest_rows(before.updates + t, lo, hi).contains_key(pairs[k].0));
    }
}

/// Where every update above the snapshot's frontier lies at block `b`, the
/// latest update of an account above the frontier is its update at `b`.
proof fn lemma_pending_block_only(ups: Seq<AccountUpdate>, f: u32, b: u32, id: u32)
    requires
        b > f,
        forall|i: int| 0 <= i < ups.len() && (#[trigger] ups[i]).block_number > f ==> ups[i].block_number == b,
    ensures
        latest_update(ups, id, f + 1, 0x1_0000_0000) == latest_update(ups, id, b as int, b + 1),
    decreases ups.len(),
{
    if ups.len() > 0 {
        let p = ups.drop_last();
        assert(forall|i: int| 0 <= i < p.len() ==> p[i] == ups[i]);
        lemma_pending_block_only(p, f, b, id);
        assert(ups.last() == ups[ups.len() - 1]);
    }
}

/// Verifying block `b`, where every update above the snapshot's frontier
/// lies at `b`, turns the snapshot into the committed state that preceded
/// the verification.
pub proof fn lemma_verify_yields_committed(st: StoreState, b: u32)
    requires
        st.wf(),
        b > frontier(st.accounts),
        forall|i: int|
            0 <= i < st.updates.len() && (#[trigger] st.updates[i]).block_number > frontier(st.accounts)
                ==> st.updates[i].block_number == b,
    ensures
        keyed_map(st.accounts).union_prefer_right(latest_rows(st.updates, b as int, b + 1)) == st.committed(),
{
    let f = frontier(st.accounts);
    assert forall|id: u32| #[trigger] latest_update(st.updates, id, f + 1, 0x1_0000_0000) == latest_update(
        st.updates,
        id,
        b as int,
        b + 1,
    ) by {
        lemma_pending_block_only(st.updates, f, b, id);
    }
    assert(keyed_map(st.accounts).union_prefer_right(latest_rows(st.updates, b as int, b + 1)) =~= st.committed());
}

/// A state diff shows each account as of its second argument: the latest
/// update of the account before that block.
pub proof fn lemma_diff_as_of_target(ups: Seq<AccountUpdate>, from: u32, to: u32)
    ensures
        forall|id: u32| #[trigger]
            diff_rows(ups, from, to).contains_key(id) ==> latest_update(ups, id, 0, to as int) == Some(
                diff_rows(ups, from, to)[id],
            ) && diff_rows(ups, from, to)[id].0 < to,
{
    assert forall|id: u32| #[trigger] diff_rows(ups, from, to).contains_key(id) implies latest_update(
        ups,
        id,
        0,
        to as int,
    ) == Some(diff_rows(ups, from, to)[id]) && diff_rows(ups, from, to)[id].0 < to by {
        lemma_latest_from(ups, id, 0, to as int);
    }
}

/// Along a run of logged operations, each taking the store's next nonce and
/// advancing it by one, the nonces count up by one from the first next
/// nonce.
pub proof fn lemma_nonces_consecutive(states: Seq<StoreState>)
    requires
        states.len() >= 1,
        forall|k: int|
            0 <= k < states.len() - 1 ==> {
                let a = #[trigger] states[k];
                let z = states[k + 1];
                &&& z.operations.len() == a.operations.len() + 1
                &&& z.operations.drop_last() == a.operations
                &&& z.operations.last().nonce == a.next_nonce
                &&& z.next_nonce == a.next_nonce + 1
            },
    ensures
        states.last().operations.len() == states[0].operations.len() + states.len() - 1,
        forall|j: int|
            0 <= j < states.len() - 1 ==> (#[trigger] states.last().operations[states[0].operations.len() + j]).nonce
                == states[0].next_nonce + j,
        states.last().next_nonce == states[0].next_nonce + states.len() - 1,
    decreases states.len(),
{
    if states.len() > 1 {
        let p = states.drop_last();
        assert forall|k: int| 0 <= k < p.len() - 1 implies {
            let a = #[trigger] p[k];
            let z = p[k + 1];
            &&& z.operations.len() == a.operations.len() + 1
            &&& z.operations.drop_last() == a.operations
            &&& z.operations.last().nonce == a.next_nonce
            &&& z.next_nonce == a.next_nonce + 1
        } by {
            assert(p[k] == states[k] && p[k + 1] == states[k + 1]);
        }
        lemma_nonces_consecutive(p);
        let a = states[states.len() - 2];
        let z = states.last();
        assert(a == p.last());
        assert forall|j: int| 0 <= j < states.len() - 1 implies (#[trigger] z.operations[states[0].operations.len()
            + j]).nonce == states[0].next_nonce + j by {
            if j < states.len() - 2 {
                assert(z.operations[states[0].operations.len() + j] == a.operations[states[0].operations.len() + j]);
            }
        }
    }
}

/// Where no operation is selected, the selection is empty.
proof fn lemma_none_selected(ops: Seq<StoredOperation>, pred: OpFilter)
    requires
        forall|i: int| 0 <= i < ops.len() ==> !pred.holds(#[trigger] ops[i]),
    ensures
        ops_where(ops, pred).len() == 0,
    decreases ops.len(),
{
    if ops.len() > 0 {
        let p = ops.drop_last();
        assert(forall|i: int| 0 <= i < p.len() ==> p[i] == ops[i]);
        lemma_none_selected(p, pred);
        assert(ops.last() == ops[ops.len() - 1]);
    }
}

/// Once the verified blocks have caught up with every commitment, no
/// commitment is left unverified.
pub proof fn lemma_caught_up(ops: Seq<StoredOperation>, verified: u32)
    requires
        forall|i: int|
            0 <= i < ops.len() && (#[trigger] ops[i]).data.action.is_commit() ==> ops[i].block_number <= verified,
    ensures
        ops_where(ops, OpFilter::CommitAbove(verified)).len() == 0,
{
    lemma_none_selected(ops, OpFilter::CommitAbove(verified));
}

/// The number of commitments among `ops`.
pub open spec fn n_commits(ops: Seq<StoredOperation>) -> int
    decreases ops.len(),
{
    if ops.len() == 0 {
        0
    } else {
        n_commits(ops.drop_last()) + if ops.last().data.action.is_commit() {
            1int
        } else {
            0int
        }
    }
}

/// The number of verifications among `ops`.
pub open spec fn n_verifies(ops: Seq<StoredOperation>) -> int
    decreases ops.len(),
{
    if ops.len() == 0 {
        0
    } else {
        n_verifies(ops.drop_last()) + if ops.last().data.action.is_commit() {
            0int
        } else {
            1int
        }
    }
}

/// The blocks of the commitments of `ops` up to block `v`.
pub open spec fn commit_set(ops: Seq<StoredOperation>, v: u32) -> Set<u32>
    decreases ops.len(),
{
    if ops.len() == 0 {
        Set::empty()
    } else {
        let o = ops.last();
        if o.data.action.is_commit() && o.block_number <= v {
            commit_set(ops.drop_last(), v).insert(o.block_number)
        } else {
            commit_set(ops.drop_last(), v)
        }
    }
}

/// The blocks of the verifications of `ops`.
pub open spec fn verify_set(ops: Seq<StoredOperation>) -> Set<u32>
    decreases ops.len(),
{
    if ops.len() == 0 {
        Set::empty()
    } else {
        let o = ops.last();
        if !o.data.action.is_commit() {
            verify_set(ops.drop_last()).insert(o.block_number)
        } else {
            verify_set(ops.drop_last())
        }
    }
}

/// Two operations of one kind (both commitments, or both verifications)
/// are of distinct blocks.
pub open spec fn blocks_distinct(ops: Seq<StoredOperation>) -> bool {
    forall|i: int, j: int|
        0 <= i < j < ops.len() && (#[trigger] ops[i]).data.action.is_commit() == (
        #[trigger] ops[j]).data.action.is_commit() ==> ops[i].block_number != ops[j].block_number
}

proof fn lemma_prefix_distinct(ops: Seq<StoredOperation>)
    requires
        ops.len() > 0,
        blocks_distinct(ops),
    ensures
        blocks_distinct(ops.drop_last()),
{
    let p = ops.drop_last();
    assert forall|i: int, j: int|
        0 <= i < j < p.len() && (#[trigger] p[i]).data.action.is_commit() == (
        #[trigger] p[j]).data.action.is_commit() implies p[i].block_number != p[j].block_number by {
        assert(p[i] == ops[i] && p[j] == ops[j]);
    }
}

proof fn lemma_commit_set_has(ops: Seq<StoredOperation>, v: u32)
    ensures
        commit_set(ops, v).finite(),
        forall|b: u32| #[trigger]
            commit_set(ops, v).contains(b) <==> exists|i: int|
                0 <= i < ops.len() && (#[trigger] ops[i]).data.action.is_commit() && ops[i].block_number == b
                    && b <= v,
    decreases ops.len(),
{
    if ops.len() > 0 {
        let p = ops.drop_last();
        lemma_commit_set_has(p, v);
        assert(forall|i: int| 0 <= i < p.len() ==> p[i] == ops[i]);
        assert(ops.last() == ops[ops.len() - 1]);
        assert forall|b: u32| #[trigger] commit_set(ops, v).contains(b) implies exists|i: int|
            0 <= i < ops.len() && (#[trigger] ops[i]).data.action.is_commit() && ops[i].block_number == b && b
                <= v by {
            if commit_set(p, v).contains(b) {
                let i = choose|i: int|
                    0 <= i < p.len() && (#[trigger] p[i]).data.action.is_commit() && p[i].block_number == b
                        && b <= v;
                assert(ops[i] == p[i]);
            }
        }
        assert forall|b: u32|
            (exists|i: int|
                0 <= i < ops.len() && (#[trigger] ops[i]).data.action.is_commit() && ops[i].block_number == b
                    && b <= v) implies #[trigger] commit_set(ops, v).contains(b) by {
            let i = choose|i: int|
                0 <= i < ops.len() && (#[trigger] ops[i]).data.action.is_commit() && ops[i].block_number == b
                    && b <= v;
            if i < p.len() {
                assert(p[i] == ops[i]);
            }
        }
    }
}

proof fn lemma_verify_set_has(ops: Seq<StoredOperation>)
    ensures
        verify_set(ops).finite(),
        forall|b: u32| #[trigger]
            verify_set(ops).contains(b) <==> exists|i: int|
                0 <= i < ops.len() && !(#[trigger] ops[i]).data.action.is_commit() && ops[i].block_number == b,
        forall|i: int|
            0 <= i < ops.len() && !(#[trigger] ops[i]).data.action.is_commit() ==> ops[i].block_number
                <= last_block_of(ops, false),
    decreases ops.len(),
{
    if ops.len() > 0 {
        let p = ops.drop_last();
        lemma_verify_set_has(p);
        assert(forall|i: int| 0 <= i < p.len() ==> p[i] == ops[i]);
        assert(ops.last() == ops[ops.len() - 1]);
        assert forall|b: u32| #[trigger] verify_set(ops).contains(b) implies exists|i: int|
            0 <= i < ops.len() && !(#[trigger] ops[i]).data.action.is_commit() && ops[i].block_number == b by {
            if verify_set(p).contains(b) {
                let i = choose|i: int|
                    0 <= i < p.len() && !(#[trigger] p[i]).data.action.is_commit() && p[i].block_number == b;
                assert(ops[i] == p[i]);
            }
        }
        assert forall|b: u32|
            (exists|i: int|
                0 <= i < ops.len() && !(#[trigger] ops[i]).data.action.is_commit() && ops[i].block_number
                    == b) implies #[trigger] verify_set(ops).contains(b) by {
            let i = choose|i: int|
                0 <= i < ops.len() && !(#[trigger] ops[i]).data.action.is_commit() && ops[i].block_number == b;
            if i < p.len() {
                assert(p[i] == ops[i]);
            }
        }
        assert forall|i: int|
            0 <= i < ops.len() && !(#[trigger] ops[i]).data.action.is_commit() implies ops[i].block_number
            <= last_block_of(ops, false) by {
            if i < p.len() {
                assert(p[i] == ops[i]);
            }
        }
    }
}

proof fn lemma_commit_count(ops: Seq<StoredOperation>, v: u32)
    requires
        blocks_distinct(ops),
    ensures
        commit_set(ops, v).len() == n_commits(ops) - ops_where(ops, OpFilter::CommitAbove(v)).len(),
    decreases ops.len(),
{
    lemma_commit_set_has(ops, v);
    if ops.len() > 0 {
        let p = ops.drop_last();
        let o = ops.last();
        lemma_prefix_distinct(ops);
        lemma_commit_count(p, v);
        lemma_commit_set_has(p, v);
        if o.data.action.is_commit() && o.block_number <= v {
            if commit_set(p, v).contains(o.block_number) {
                let i = choose|i: int|
                    0 <= i < p.len() && (#[trigger] p[i]).data.action.is_commit() && p[i].block_number
                        == o.block_number && o.block_number <= v;
                assert(ops[i] == p[i]);
                assert(ops[ops.len() - 1] == o);
            }
        }
    }
}

proof fn lemma_verify_count(ops: Seq<StoredOperation>)
    requires
        blocks_distinct(ops),
    ensures
        verify_set(ops).len() == n_verifies(ops),
    decreases ops.len(),
{
    lemma_verify_set_has(ops);
    if ops.len() > 0 {
        let p = ops.drop_last();
        let o = ops.last();
        lemma_prefix_distinct(ops);
        lemma_verify_count(p);
        lemma_verify_set_has(p);
        if !o.data.action.is_commit() {
            if verify_set(p).contains(o.block_number) {
                let i = choose|i: int|
                    0 <= i < p.len() && !(#[trigger] p[i]).data.action.is_commit() && p[i].block_number
                        == o.block_number;
                assert(ops[i] == p[i]);
                assert(ops[ops.len() - 1] == o);
            }
        }
    }
}

/// Where each block is committed once and verified at most once, only
/// committed blocks are verified, and every committed block up to the last
/// verified one is verified, the unverified commitments number the
/// commitments less the verifications.
pub proof fn lemma_unverified_count(ops: Seq<StoredOperation>)
    requires
        blocks_distinct(ops),
        forall|i: int|
            0 <= i < ops.len() && !(#[trigger] ops[i]).data.action.is_commit() ==> exists|j: int|
                0 <= j < ops.len() && (#[trigger] ops[j]).data.action.is_commit() && ops[j].block_number
                    == ops[i].block_number,
        forall|i: int|
            0 <= i < ops.len() && (#[trigger] ops[i]).data.action.is_commit() && ops[i].block_number
                <= last_block_of(ops, false) ==> exists|j: int|
                0 <= j < ops.len() && !(#[trigger] ops[j]).data.action.is_commit() && ops[j].block_number
                    == ops[i].block_number,
    ensures
        ops_where(ops, OpFilter::CommitAbove(last_block_of(ops, false))).len() == n_commits(ops) - n_verifies(
            ops,
        ),
{
    let v = last_block_of(ops, false);
    lemma_commit_set_has(ops, v);
    lemma_verify_set_has(ops);
    lemma_commit_count(ops, v);
    lemma_verify_count(ops);
    assert forall|b: u32| #[trigger] commit_set(ops, v).contains(b) <==> verify_set(ops).contains(b) by {
        if verify_set(ops).contains(b) {
            let i = choose|i: int|
                0 <= i < ops.len() && !(#[trigger] ops[i]).data.action.is_commit() && ops[i].block_number == b;
            let j = choose|j: int|
                0 <= j < ops.len() && (#[trigger] ops[j]).data.action.is_commit() && ops[j].block_number
                    == ops[i].block_number;
            assert(ops[j].block_number <= v);
        }
        if commit_set(ops, v).contains(b) {
            let i = choose|i: int|
                0 <= i < ops.len() && (#[trigger] ops[i]).data.action.is_commit() && ops[i].block_number == b
                    && b <= v;
            let j = choose|j: int|
                0 <= j < ops.len() && !(#[trigger] ops[j]).data.action.is_commit() && ops[j].block_number
                    == ops[i].block_number;
        }
    }
    assert(commit_set(ops, v) =~= verify_set(ops));
}

/// A block leased at `now` is not open to another prover before the lease
/// has run for `timeout` seconds: a second fetch in that time does not hand
/// it out.
pub proof fn lemma_lease_exclusive(
    st: StoreState,
    b: u32,
    worker: String,
    timeout: int,
    now: u64,
    later: int,
)
    requires
        later < now + timeout,
    ensures
        forall|i: int|
            0 <= i < st.operations.len() && (#[trigger] st.operations[i]).block_number == b ==> !job_open(
                StoreState {
                    runs: st.runs.push(NewProverRun { block_number: b, worker, created_at: now }),
                    ..st
                },
                st.operations[i],
                timeout,
                later,
            ),
        forall|c: u32|
            is_next_job(
                StoreState {
                    runs: st.runs.push(NewProverRun { block_number: b, worker, created_at: now }),
                    ..st
                },
                c,
                timeout,
                later,
            ) ==> c != b,
{
    let runs = st.runs.push(NewProverRun { block_number: b, worker, created_at: now });
    assert(runs[st.runs.len() as int].block_number == b);
    assert(lease_active(runs, b, timeout, later));
}

/// A proof stored for a block without one is the proof then loaded for it,
/// byte for byte.
pub proof fn lemma_proof_round_trip(ps: Seq<StoredProof>, stored: StoredProof)
    requires
        !has_proof(ps, stored.block_number),
    ensures
        proof_of(ps.push(stored), stored.block_number) == Some(stored.proof@),
{
    let qs = ps.push(stored);
    let b = stored.block_number;
    assert(qs[ps.len() as int].block_number == b);
    let i = choose|i: int| 0 <= i < qs.len() && (#[trigger] qs[i]).block_number == b;
    if i < ps.len() {
        assert(ps[i] == qs[i]);
    }
}

} // verus!
