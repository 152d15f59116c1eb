//! Whole-table helpers on snapshot rows keyed by account id.
use vstd::prelude::*;
use crate::account_map::{
    find_key,
    has_key,
    keyed_map,
    keys_unique,
    lemma_keyed_map_push,
    lemma_keyed_map_update,
};
use crate::blob::copy_blob;
use crate::state::{frontier, StateRow};

verus! {

/// An equal copy of the rows.
pub fn copy_rows(s: &Vec<(u32, StateRow)>) -> (r: Vec<(u32, StateRow)>)
    ensures
        r@ == s@,
{
    let mut out: Vec<(u32, StateRow)> = Vec::new();
    let mut i: usize = 0;
    while i < s.len()
        invariant
            i <= s@.len(),
            out@ == s@.take(i as int),
        decreases s@.len() - i,
    {
        let d = copy_blob(&s[i].1.1);
        out.push((s[i].0, (s[i].1.0, d)));
        assert(s@.take(i as int + 1) =~= s@.take(i as int).push(s@[i as int]));
        i = i + 1;
    }
    assert(s@.take(s@.len() as int) =~= s@);
    out
}

/// Sets the row of `id`, replacing what was held for it.
pub fn upsert(rows: &mut Vec<(u32, StateRow)>, id: u32, row: StateRow)
    requires
        keys_unique(old(rows)@),
    ensures
        keys_unique(final(rows)@),
        keyed_map(final(rows)@) == keyed_map(old(rows)@).insert(id, row),
{
    match find_key(rows, id) {
        Some(i) => {
            proof {
                lemma_keyed_map_update(rows@, i as int, row);
            }
            rows.set(i, (id, row));
        },
        None => {
            proof {
                lemma_keyed_map_push(rows@, id, row);
            }
            rows.push((id, row));
        },
    }
}

/// Overlays `upd` onto `rows`: each row of `upd` replaces the one of its id.
pub fn overlay(rows: &mut Vec<(u32, StateRow)>, upd: &Vec<(u32, StateRow)>)
    requires
        keys_unique(old(rows)@),
        keys_unique(upd@),
    ensures
        keys_unique(final(rows)@),
        keyed_map(final(rows)@) == keyed_map(old(rows)@).union_prefer_right(keyed_map(upd@)),
{
    let ghost base = keyed_map(rows@);
    let mut i: usize = 0;
    assert(keyed_map(rows@) =~= base.union_prefer_right(keyed_map(upd@.take(0))));
    while i < upd.len()
        invariant
            i <= upd@.len(),
            keys_unique(upd@),
            keys_unique(rows@),
            keyed_map(rows@) == base.union_prefer_right(keyed_map(upd@.take(i as int))),
        decreases upd@.len() - i,
    {
        let id = upd[i].0;
        let b = upd[i].1.0;
        let d = copy_blob(&upd[i].1.1);
        proof {
            let p = upd@.take(i as int);
            assert(keys_unique(p));
            if has_key(p, id) {
                let k = choose|k: int| 0 <= k < p.len() && #[trigger] p[k].0 == id;
                assert(upd@[k].0 == upd@[i as int].0);
            }
            lemma_keyed_map_push(p, id, upd@[i as int].1);
            assert(upd@.take(i as int + 1) =~= p.push(upd@[i as int]));
        }
        upsert(rows, id, (b, d));
        assert(keyed_map(rows@) =~= base.union_prefer_right(keyed_map(upd@.take(i as int + 1))));
        i = i + 1;
    }
    assert(upd@.take(upd@.len() as int) =~= upd@);
}

/// The largest block number of the snapshot, 0 when it is empty.
pub fn frontier_of(accs: &Vec<(u32, StateRow)>) -> (r: u32)
    ensures
        r == frontier(accs@),
{
    let mut f: u32 = 0;
    let mut i: usize = 0;
    assert(accs@.take(0) =~= Seq::<(u32, StateRow)>::empty());
    while i < accs.len()
        invariant
            i <= accs@.len(),
            f == frontier(accs@.take(i as int)),
        decreases accs@.len() - i,
    {
        assert(accs@.take(i as int + 1).drop_last() =~= accs@.take(i as int));
        if accs[i].1.0 > f {
            f = accs[i].1.0;
        }
        i = i + 1;
    }
    assert(accs@.take(accs@.len() as int) =~= accs@);
    f
}

} // verus!
