//! Rows of the account tables and the mathematical views that the state
//! queries are stated over.
use vstd::prelude::*;
use crate::account_map::{
    find_key,
    has_key,
    keyed_map,
    keys_unique,
    lemma_keyed_map_all,
    lemma_keyed_map_push,
    lemma_keyed_map_update,
    AccountMap,
};
use crate::blob::copy_blob;

verus! {

/// A row of the account update log: the state of an account as of a block.
pub struct AccountUpdate {
    pub account_id: u32,
    pub block_number: u32,
    pub data: serde_json::Value,
}

/// A state row: an account's block number and data.
pub type StateRow = (u32, serde_json::Value);

/// The update of account `id` with the largest block number in `[lo, hi)`,
/// among the updates `ups`; of two with one block number, the earlier.
pub open spec fn latest_update(ups: Seq<AccountUpdate>, id: u32, lo: int, hi: int) -> Option<StateRow>
    decreases ups.len(),
{
    if ups.len() == 0 {
        None
    } else {
        let prev = latest_update(ups.drop_last(), id, lo, hi);
        let u = ups.last();
        if u.account_id == id && lo <= u.block_number < hi && (match prev {
            Some(p) => p.0 < u.block_number,
            None => true,
        }) {
            Some((u.block_number, u.data))
        } else {
            prev
        }
    }
}

/// For each account with an update in `[lo, hi)`, its latest such update.
pub open spec fn latest_rows(ups: Seq<AccountUpdate>, lo: int, hi: int) -> Map<u32, StateRow> {
    Map::new(
        |id: u32| latest_update(ups, id, lo, hi) is Some,
        |id: u32| latest_update(ups, id, lo, hi)->Some_0,
    )
}

/// The largest block number of the snapshot, 0 when it is empty.
pub open spec fn frontier(accs: Seq<(u32, StateRow)>) -> u32
    decreases accs.len(),
{
    if accs.len() == 0 {
        0
    } else {
        let p = frontier(accs.drop_last());
        if accs.last().1.0 > p {
            accs.last().1.0
        } else {
            p
        }
    }
}

/// The verified state: each snapshot account with its block and data.
pub open spec fn verified_rows(accs: Seq<(u32, StateRow)>) -> Map<u32, StateRow> {
    keyed_map(accs)
}

/// The committed state: the snapshot overlaid with, for each account updated
/// after the snapshot's frontier, its latest update.
pub open spec fn committed_rows(accs: Seq<(u32, StateRow)>, ups: Seq<AccountUpdate>) -> Map<u32, StateRow> {
    let upd = latest_rows(ups, frontier(accs) + 1, 0x1_0000_0000);
    let ver = verified_rows(accs);
    Map::new(
        |id: u32| ver.contains_key(id) || upd.contains_key(id),
        |id: u32|
            if upd.contains_key(id) {
                upd[id]
            } else {
                ver[id]
            },
    )
}

/// The accounts updated in `[min(from, to), max(from, to))`, each with its
/// latest update before `to`.
pub open spec fn diff_rows(ups: Seq<AccountUpdate>, from: u32, to: u32) -> Map<u32, StateRow> {
    let start = if from < to { from } else { to };
    let end = if from < to { to } else { from };
    let touched = latest_rows(ups, start as int, end as int);
    let seen = latest_rows(ups, 0, to as int);
    Map::new(|id: u32| touched.contains_key(id) && seen.contains_key(id), |id: u32| seen[id])
}

/// The block before `n`, or 0 for block 0.
pub open spec fn prev_block(n: u32) -> u32 {
    if n == 0 {
        0
    } else {
        (n - 1) as u32
    }
}

/// The data of each state row.
pub open spec fn data_of(rows: Map<u32, StateRow>) -> Map<u32, serde_json::Value> {
    Map::new(|id: u32| rows.contains_key(id), |id: u32| rows[id].1)
}

/// `last` is the largest block number among `rows`, or 0 when there is none.
pub open spec fn is_last_block(rows: Map<u32, StateRow>, last: u32) -> bool {
    &&& forall|id: u32| #[trigger] rows.contains_key(id) ==> rows[id].0 <= last
    &&& (last == 0 || exists|id: u32| #[trigger] rows.contains_key(id) && rows[id].0 == last)
}

} // verus!

verus! {

/// For each account with an update in `[lo, hi)`, its latest such update, as
/// pairs keyed by account id.
pub fn collect_latest(ups: &Vec<AccountUpdate>, lo: u64, hi: u64) -> (r: Vec<(u32, StateRow)>)
    ensures
        keys_unique(r@),
        keyed_map(r@) == latest_rows(ups@, lo as int, hi as int),
{
    let mut out: Vec<(u32, StateRow)> = Vec::new();
    let mut i: usize = 0;
    assert(keyed_map(out@) =~= latest_rows(ups@.take(0), lo as int, hi as int));
    while i < ups.len()
        invariant
            i <= ups@.len(),
            keys_unique(out@),
            keyed_map(out@) == latest_rows(ups@.take(i as int), lo as int, hi as int),
        decreases ups@.len() - i,
    {
        let ghost before = out@;
        let ghost prefix = ups@.take(i as int);
        let ghost next = ups@.take(i as int + 1);
        assert(next.drop_last() =~= prefix);
        let u = &ups[i];
        let id = u.account_id;
        let b = u.block_number;
        if lo <= b as u64 && (b as u64) < hi {
            match find_key(&out, id) {
                None => {
                    let d = copy_blob(&u.data);
                    proof {
                        lemma_keyed_map_push(before, id, (b, d));
                    }
                    out.push((id, (b, d)));
                },
                Some(j) => {
                    if out[j].1.0 < b {
                        let d = copy_blob(&u.data);
                        proof {
                            lemma_keyed_map_update(before, j as int, (b, d));
                        }
                        out.set(j, (id, (b, d)));
                    }
                },
            }
        }
        proof {
            let lr = latest_rows(prefix, lo as int, hi as int);
            assert forall|q: u32| #![auto]
                latest_update(next, q, lo as int, hi as int) == (if q == id && lo <= b && b < hi && (
                match latest_update(prefix, q, lo as int, hi as int) {
                    Some(p) => p.0 < b,
                    None => true,
                }) {
                    Some((b, ups@[i as int].data))
                } else {
                    latest_update(prefix, q, lo as int, hi as int)
                }) by {
                assert(next.last() == ups@[i as int]);
            }
            if has_key(before, id) {
                let j = choose|j: int| 0 <= j < before.len() && #[trigger] before[j].0 == id;
                lemma_keyed_map_all(before);
                assert(keyed_map(before)[before[j].0] == before[j].1);
                assert(lr.contains_key(id));
            } else {
                assert(!keyed_map(before).contains_key(id));
                assert(!lr.contains_key(id));
            }
        }
        assert(keyed_map(out@) =~= latest_rows(next, lo as int, hi as int));
        i = i + 1;
    }
    assert(ups@.take(ups@.len() as int) =~= ups@);
    out
}

/// The largest block number among `rows` (0 when there is none) and the data
/// of each row.
pub fn rows_to_state(rows: Vec<(u32, StateRow)>) -> (r: (u32, AccountMap))
    requires
        keys_unique(rows@),
    ensures
        r.1.wf(),
        is_last_block(keyed_map(rows@), r.0),
        r.1@ == data_of(keyed_map(rows@)),
{
    let mut last: u32 = 0;
    let mut m = AccountMap::new();
    let mut i: usize = 0;
    proof {
        lemma_keyed_map_all(rows@);
    }
    assert(m@ =~= data_of(keyed_map(rows@.take(0))));
    while i < rows.len()
        invariant
            i <= rows@.len(),
            keys_unique(rows@),
            m.wf(),
            m@ == data_of(keyed_map(rows@.take(i as int))),
            forall|j: int| 0 <= j < i ==> #[trigger] rows@[j].1.0 <= last,
            last == 0 || exists|j: int| 0 <= j < i && #[trigger] rows@[j].1.0 == last,
        decreases rows@.len() - i,
    {
        let id = rows[i].0;
        let b = rows[i].1.0;
        let d = copy_blob(&rows[i].1.1);
        proof {
            let p = rows@.take(i as int);
            assert(keys_unique(p));
            if has_key(p, id) {
                let k = choose|k: int| 0 <= k < p.len() && #[trigger] p[k].0 == id;
                assert(rows@[k].0 == rows@[i as int].0);
            }
            lemma_keyed_map_push(p, id, rows@[i as int].1);
            assert(rows@.take(i as int + 1) =~= p.push(rows@[i as int]));
        }
        m.insert(id, d);
        assert(m@ =~= data_of(keyed_map(rows@.take(i as int + 1))));
        if b > last {
            last = b;
        }
        i = i + 1;
    }
    assert(rows@.take(rows@.len() as int) =~= rows@);
    proof {
        let km = keyed_map(rows@);
        assert forall|id: u32| #[trigger] km.contains_key(id) implies km[id].0 <= last by {
            let j = choose|j: int| 0 <= j < rows@.len() && #[trigger] rows@[j].0 == id;
            assert(km[rows@[j].0] == rows@[j].1);
        }
        if last != 0 {
            let j = choose|j: int| 0 <= j < rows@.len() && #[trigger] rows@[j].1.0 == last;
            assert(km.contains_key(rows@[j].0) && km[rows@[j].0] == rows@[j].1);
        }
    }
    (last, m)
}

} // verus!
