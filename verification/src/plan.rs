use vstd::prelude::*;

use crate::entry::{EntryModel, IndexEntry};
use crate::listmap::{rows_map, ListMap, Row};
use crate::order::{lemma_lex_trichotomy, lex_lt};
use crate::stale::{index_stale, spec_index_stale};

verus! {

/// The modification time the index stores for a path, if any.
pub open spec fn stored_mtime(im: Map<Seq<char>, EntryModel>, k: Seq<char>) -> Option<u64> {
    if im.contains_key(k) {
        Some(im[k].mtime)
    } else {
        None
    }
}

/// A scanned file must be (re)processed: the index staleness rule applied
/// to what the index stores for it.
pub open spec fn needs_index(im: Map<Seq<char>, EntryModel>, k: Seq<char>, mtime: u64) -> bool {
    spec_index_stale(stored_mtime(im, k), mtime)
}

/// `tp` lists exactly the scanned paths that need processing, in strictly
/// increasing path order.
pub open spec fn plan_processes(
    im: Map<Seq<char>, EntryModel>,
    cm: Map<Seq<char>, u64>,
    tp: Seq<Seq<char>>,
) -> bool {
    &&& forall|i: int|
        0 <= i < tp.len() ==> cm.contains_key(#[trigger] tp[i]) && needs_index(im, tp[i], cm[tp[i]])
    &&& forall|k: Seq<char>|
        cm.contains_key(k) && needs_index(im, k, cm[k]) ==> #[trigger] tp.contains(k)
    &&& forall|i: int, j: int| 0 <= i < j < tp.len() ==> lex_lt(#[trigger] tp[i], #[trigger] tp[j])
}

/// `tr` lists exactly the indexed paths whose source is gone, in strictly
/// increasing path order.
pub open spec fn plan_removals(
    im: Map<Seq<char>, EntryModel>,
    cm: Map<Seq<char>, u64>,
    tr: Seq<Seq<char>>,
) -> bool {
    &&& forall|i: int|
        0 <= i < tr.len() ==> im.contains_key(#[trigger] tr[i]) && !cm.contains_key(tr[i])
    &&& forall|k: Seq<char>|
        im.contains_key(k) && !cm.contains_key(k) ==> #[trigger] tr.contains(k)
    &&& forall|i: int, j: int| 0 <= i < j < tr.len() ==> lex_lt(#[trigger] tr[i], #[trigger] tr[j])
}

/// Compare the index against the scan: the first list holds the files to
/// (re)process — new, or with a changed modification time; the second the
/// indexed files no longer on disk.
pub fn identify_changes(index: &ListMap<IndexEntry>, current: &ListMap<u64>) -> (r: (
    Vec<String>,
    Vec<String>,
))
    requires
        index.wf(),
        current.wf(),
    ensures
        plan_processes(index@, current@, r.0.deep_view()),
        plan_removals(index@, current@, r.1.deep_view()),
{
    let mut to_process: Vec<String> = Vec::new();
    let ghost mut process_rows: Seq<int> = Seq::empty();
    let n = current.len();
    let mut i: usize = 0;
    while i < n
        invariant
            index.wf(),
            current.wf(),
            n == current.rows@.len(),
            i <= n,
            process_rows.len() == to_process@.len(),
            forall|j: int| 0 <= j < process_rows.len() ==> 0 <= #[trigger] process_rows[j] < i,
            forall|j1: int, j2: int|
                0 <= j1 < j2 < process_rows.len() ==> #[trigger] process_rows[j1]
                    < #[trigger] process_rows[j2],
            forall|j: int|
                0 <= j < process_rows.len() ==> (#[trigger] to_process@[j])@
                    == current.rows@[process_rows[j]].key@,
            forall|j: int|
                0 <= j < process_rows.len() ==> needs_index(
                    index@,
                    current.rows@[#[trigger] process_rows[j]].key@,
                    current.rows@[process_rows[j]].val,
                ),
            forall|r0: int|
                0 <= r0 < i && needs_index(
                    index@,
                    (#[trigger] current.rows@[r0]).key@,
                    current.rows@[r0].val,
                ) ==> exists|j: int|
                    0 <= j < process_rows.len() && process_rows[j] == r0,
        decreases n - i,
    {
        let key = current.key_at(i);
        let mtime = *current.val_at(i);
        let stored = match index.get(key.as_str()) {
            Some(e) => Some(e.mtime),
            None => None,
        };
        proof {
            assert(stored == stored_mtime(index@, current.rows@[i as int].key@));
        }
        if index_stale(stored, mtime) {
            let owned = key.clone();
            to_process.push(owned);
            proof {
                let prev = process_rows;
                process_rows = prev.push(i as int);
                assert forall|r0: int|
                    0 <= r0 < i + 1 && needs_index(
                        index@,
                        (#[trigger] current.rows@[r0]).key@,
                        current.rows@[r0].val,
                    ) implies exists|j: int|
                    0 <= j < process_rows.len() && process_rows[j] == r0 by {
                    if r0 == i as int {
                        assert(process_rows[process_rows.len() - 1] == r0);
                    } else {
                        let j = choose|j: int| 0 <= j < prev.len() && prev[j] == r0;
                        assert(process_rows[j] == r0);
                    }
                }
            }
        } else {
            proof {
                assert(!needs_index(
                    index@,
                    current.rows@[i as int].key@,
                    current.rows@[i as int].val,
                ));
                assert forall|r0: int|
                    0 <= r0 < i + 1 && needs_index(
                        index@,
                        (#[trigger] current.rows@[r0]).key@,
                        current.rows@[r0].val,
                    ) implies exists|j: int|
                    0 <= j < process_rows.len() && process_rows[j] == r0 by {
                    assert(r0 < i);
                }
            }
        }
        i = i + 1;
    }
    let mut to_remove: Vec<String> = Vec::new();
    let ghost mut removal_rows: Seq<int> = Seq::empty();
    let m = index.len();
    let mut i2: usize = 0;
    while i2 < m
        invariant
            index.wf(),
            current.wf(),
            m == index.rows@.len(),
            i2 <= m,
            removal_rows.len() == to_remove@.len(),
            forall|j: int| 0 <= j < removal_rows.len() ==> 0 <= #[trigger] removal_rows[j] < i2,
            forall|j1: int, j2: int|
                0 <= j1 < j2 < removal_rows.len() ==> #[trigger] removal_rows[j1]
                    < #[trigger] removal_rows[j2],
            forall|j: int|
                0 <= j < removal_rows.len() ==> (#[trigger] to_remove@[j])@
                    == index.rows@[removal_rows[j]].key@,
            forall|j: int|
                0 <= j < removal_rows.len() ==> !current@.contains_key(
                    index.rows@[#[trigger] removal_rows[j]].key@,
                ),
            forall|r0: int|
                0 <= r0 < i2 && !current@.contains_key((#[trigger] index.rows@[r0]).key@)
                    ==> exists|j: int| 0 <= j < removal_rows.len() && removal_rows[j] == r0,
        decreases m - i2,
    {
        let key = index.key_at(i2);
        if !current.contains(key.as_str()) {
            let owned = key.clone();
            to_remove.push(owned);
            proof {
                let prev = removal_rows;
                removal_rows = prev.push(i2 as int);
                assert forall|r0: int|
                    0 <= r0 < i2 + 1 && !current@.contains_key(
                        (#[trigger] index.rows@[r0]).key@,
                    ) implies exists|j: int|
                    0 <= j < removal_rows.len() && removal_rows[j] == r0 by {
                    if r0 == i2 as int {
                        assert(removal_rows[removal_rows.len() - 1] == r0);
                    } else {
                        let j = choose|j: int| 0 <= j < prev.len() && prev[j] == r0;
                        assert(removal_rows[j] == r0);
                    }
                }
            }
        } else {
            proof {
                assert(current@.contains_key(index.rows@[i2 as int].key@));
                assert forall|r0: int|
                    0 <= r0 < i2 + 1 && !current@.contains_key(
                        (#[trigger] index.rows@[r0]).key@,
                    ) implies exists|j: int|
                    0 <= j < removal_rows.len() && removal_rows[j] == r0 by {
                    assert(r0 < i2);
                }
            }
        }
        i2 = i2 + 1;
    }
    proof {
        crate::listmap::lemma_sorted_unique(current.rows@);
        crate::listmap::lemma_sorted_unique(index.rows@);
        let tp = to_process.deep_view();
        assert(tp.len() == to_process@.len());
        assert(forall|j: int| 0 <= j < tp.len() ==> #[trigger] tp[j] == to_process@[j]@);
        assert forall|j: int|
            0 <= j < tp.len() implies current@.contains_key(#[trigger] tp[j]) && needs_index(
            index@,
            tp[j],
            current@[tp[j]],
        ) by {
            let r0 = process_rows[j];
            crate::listmap::lemma_rows_map_at(current.rows@, r0);
        }
        assert forall|k: Seq<char>|
            current@.contains_key(k) && needs_index(index@, k, current@[k]) implies #[trigger] tp
            .contains(k) by {
            crate::listmap::lemma_rows_map_domain(current.rows@, k);
            let r0 = choose|r0: int|
                0 <= r0 < current.rows@.len() && (#[trigger] current.rows@[r0].key@) == k;
            crate::listmap::lemma_rows_map_at(current.rows@, r0);
            let j = choose|j: int| 0 <= j < process_rows.len() && process_rows[j] == r0;
            assert(tp[j] == k);
        }
        assert forall|i: int, j: int| 0 <= i < j < tp.len() implies lex_lt(
            #[trigger] tp[i],
            #[trigger] tp[j],
        ) by {
            assert(process_rows[i] < process_rows[j]);
        }
        let tr = to_remove.deep_view();
        assert(tr.len() == to_remove@.len());
        assert(forall|j: int| 0 <= j < tr.len() ==> #[trigger] tr[j] == to_remove@[j]@);
        assert forall|j: int|
            0 <= j < tr.len() implies index@.contains_key(#[trigger] tr[j]) && !current@.contains_key(
            tr[j],
        ) by {
            let r0 = removal_rows[j];
            crate::listmap::lemma_rows_map_at(index.rows@, r0);
        }
        assert forall|k: Seq<char>|
            index@.contains_key(k) && !current@.contains_key(k) implies #[trigger] tr.contains(
            k,
        ) by {
            crate::listmap::lemma_rows_map_domain(index.rows@, k);
            let r0 = choose|r0: int|
                0 <= r0 < index.rows@.len() && (#[trigger] index.rows@[r0].key@) == k;
            let j = choose|j: int| 0 <= j < removal_rows.len() && removal_rows[j] == r0;
            assert(tr[j] == k);
        }
        assert forall|i: int, j: int| 0 <= i < j < tr.len() implies lex_lt(
            #[trigger] tr[i],
            #[trigger] tr[j],
        ) by {
            assert(removal_rows[i] < removal_rows[j]);
        }
    }
    (to_process, to_remove)
}

/// What a sequence of scanned files means as a map, later entries winning.
pub open spec fn pairs_map(files: Seq<(String, u64)>) -> Map<Seq<char>, u64>
    decreases files.len(),
{
    if files.len() == 0 {
        Map::empty()
    } else {
        pairs_map(files.drop_last()).insert(files.last().0@, files.last().1)
    }
}

/// Build the scan result from raw walk output: relative path and
/// modification time per file, in any order, a later duplicate replacing
/// an earlier one.
pub fn scan_map(files: Vec<(String, u64)>) -> (r: ListMap<u64>)
    ensures
        r.wf(),
        r@ == pairs_map(files@),
{
    let mut scan: ListMap<u64> = ListMap::new();
    let n = files.len();
    let mut i: usize = 0;
    proof {
        assert(files@.take(0) =~= Seq::<(String, u64)>::empty());
    }
    while i < n
        invariant
            n == files@.len(),
            i <= n,
            scan.wf(),
            scan@ == pairs_map(files@.take(i as int)),
        decreases n - i,
    {
        let pair = &files[i];
        scan.insert(pair.0.clone(), pair.1);
        proof {
            assert(files@.take(i as int + 1).drop_last() =~= files@.take(i as int));
            assert(files@.take(i as int + 1).last() == files@[i as int]);
        }
        i = i + 1;
    }
    proof {
        assert(files@.take(n as int) =~= files@);
    }
    scan
}

/// Merge one completed run into the index: take out every planned removal,
/// then put in one fresh entry per processed file. Completion order does
/// not matter: no two jobs of a run share a key, and inserts at distinct
/// keys commute (`crate::listmap::lemma_insert_comm`).
pub fn apply_run(
    index: &mut ListMap<IndexEntry>,
    to_remove: &Vec<String>,
    additions: Vec<Row<IndexEntry>>,
)
    requires
        old(index).wf(),
    ensures
        final(index).wf(),
        final(index)@ == old(index)@.remove_keys(to_remove.deep_view().to_set())
            .union_prefer_right(rows_map(additions@)),
{
    let n = to_remove.len();
    let mut i: usize = 0;
    proof {
        assert(index@ =~= index@.remove_keys(to_remove.deep_view().take(0).to_set()));
    }
    while i < n
        invariant
            n == to_remove@.len(),
            i <= n,
            index.wf(),
            index@ == old(index)@.remove_keys(to_remove.deep_view().take(i as int).to_set()),
        decreases n - i,
    {
        index.remove(to_remove[i].as_str());
        proof {
            let tr = to_remove.deep_view();
            assert(tr[i as int] == to_remove@[i as int]@);
            assert forall|k: Seq<char>| #[trigger] tr.take(i as int + 1).contains(k) implies (
            tr.take(i as int).contains(k) || k == tr[i as int]) by {
                let j = choose|j: int|
                    0 <= j < tr.take(i as int + 1).len() && #[trigger] tr.take(i as int + 1)[j]
                        == k;
                if j < i {
                    assert(tr.take(i as int)[j] == k);
                }
            }
            assert forall|k: Seq<char>|
                tr.take(i as int).contains(k) || k == tr[i as int] implies #[trigger] tr.take(
                i as int + 1,
            ).contains(k) by {
                if tr.take(i as int).contains(k) {
                    let j = choose|j: int|
                        0 <= j < tr.take(i as int).len() && #[trigger] tr.take(i as int)[j] == k;
                    assert(tr.take(i as int + 1)[j] == k);
                } else {
                    assert(tr.take(i as int + 1)[i as int] == k);
                }
            }
            assert(old(index)@.remove_keys(tr.take(i as int).to_set()).remove(tr[i as int])
                =~= old(index)@.remove_keys(tr.take(i as int + 1).to_set()));
        }
        i = i + 1;
    }
    proof {
        assert(to_remove.deep_view().take(n as int) =~= to_remove.deep_view());
    }
    let ghost base = index@;
    let ghost added = additions@;
    let mut rest = additions;
    let ghost mut done: int = 0;
    proof {
        assert(added.take(0) =~= Seq::<Row<IndexEntry>>::empty());
        assert(base =~= base.union_prefer_right(rows_map(added.take(0))));
    }
    while rest.len() > 0
        invariant
            index.wf(),
            0 <= done <= added.len(),
            rest@ == added.skip(done),
            index@ == base.union_prefer_right(rows_map(added.take(done))),
        decreases rest@.len(),
    {
        let row = rest.remove(0);
        proof {
            assert(added.skip(done)[0] == added[done]);
            assert(added.skip(done).skip(1) =~= added.skip(done + 1));
        }
        index.insert(row.key, row.val);
        proof {
            assert(added.take(done + 1).drop_last() =~= added.take(done));
            assert(added.take(done + 1).last() == added[done]);
            assert(base.union_prefer_right(rows_map(added.take(done))).insert(
                added[done].key@,
                added[done].val@,
            ) =~= base.union_prefer_right(rows_map(added.take(done + 1))));
            done = done + 1;
        }
    }
    proof {
        assert(added.take(added.len() as int) =~= added);
        assert(rest@.len() == 0);
        assert(added.skip(done).len() == 0);
        assert(done == added.len());
    }
}

/// The index agrees with the scan: same paths, and each stored
/// modification time is current.
pub open spec fn converged(im: Map<Seq<char>, EntryModel>, cm: Map<Seq<char>, u64>) -> bool {
    &&& im.dom() == cm.dom()
    &&& forall|k: Seq<char>|
        #[trigger] cm.contains_key(k) ==> im.contains_key(k) && im[k].mtime == cm[k]
}

/// Idempotence: against an index that already agrees with the scan, a plan
/// holds no file to process and none to remove.
pub proof fn lemma_idempotence(
    im: Map<Seq<char>, EntryModel>,
    cm: Map<Seq<char>, u64>,
    tp: Seq<Seq<char>>,
    tr: Seq<Seq<char>>,
)
    requires
        converged(im, cm),
        plan_processes(im, cm, tp),
        plan_removals(im, cm, tr),
    ensures
        tp.len() == 0,
        tr.len() == 0,
{
    if tp.len() > 0 {
        let k = tp[0];
        assert(cm.contains_key(k) && needs_index(im, k, cm[k]));
        assert(im.contains_key(k) && im[k].mtime == cm[k]);
        assert(false);
    }
    if tr.len() > 0 {
        let k = tr[0];
        assert(im.contains_key(k) && !cm.contains_key(k));
        assert(im.dom().contains(k) && !cm.dom().contains(k));
        assert(false);
    }
}

/// A run with nothing to do changes nothing: merging an empty plan gives
/// the index back as it was — and an unchanged index serializes to the
/// very same text (`crate::json::lemma_index_json_canonical`), so a run
/// over unchanged sources rewrites not one byte of the index file.
pub proof fn lemma_empty_run_changes_nothing(
    im: Map<Seq<char>, EntryModel>,
    tr: Seq<Seq<char>>,
    new: Map<Seq<char>, EntryModel>,
)
    requires
        tr.len() == 0,
        new.dom() =~= Set::<Seq<char>>::empty(),
    ensures
        run_result(im, tr, new) == im,
{
    assert(run_result(im, tr, new) =~= im);
}

/// What a completed run leaves in the index: the planned removals taken
/// out, then one fresh entry merged in for every processed file.
pub open spec fn run_result(
    im: Map<Seq<char>, EntryModel>,
    tr: Seq<Seq<char>>,
    new: Map<Seq<char>, EntryModel>,
) -> Map<Seq<char>, EntryModel> {
    im.remove_keys(tr.to_set()).union_prefer_right(new)
}

/// Convergence: a completed run — every planned file processed — leaves
/// the index keyed exactly by the scanned files.
pub proof fn lemma_convergence(
    im: Map<Seq<char>, EntryModel>,
    cm: Map<Seq<char>, u64>,
    tp: Seq<Seq<char>>,
    tr: Seq<Seq<char>>,
    new: Map<Seq<char>, EntryModel>,
)
    requires
        plan_processes(im, cm, tp),
        plan_removals(im, cm, tr),
        new.dom() == tp.to_set(),
    ensures
        run_result(im, tr, new).dom() == cm.dom(),
{
    let result = run_result(im, tr, new);
    assert forall|k: Seq<char>| #[trigger] result.dom().contains(k) implies cm.dom().contains(
        k,
    ) by {
        if new.contains_key(k) {
            assert(tp.to_set().contains(k));
            let i = choose|i: int| 0 <= i < tp.len() && tp[i] == k;
            assert(cm.contains_key(tp[i]));
        } else {
            assert(im.contains_key(k));
            assert(!tr.to_set().contains(k));
            if !cm.contains_key(k) {
                assert(tr.contains(k));
                let i = choose|i: int| 0 <= i < tr.len() && tr[i] == k;
                assert(tr.to_set().contains(tr[i]));
                assert(false);
            }
        }
    }
    assert forall|k: Seq<char>| #[trigger] cm.dom().contains(k) implies result.dom().contains(
        k,
    ) by {
        if needs_index(im, k, cm[k]) {
            assert(tp.contains(k));
            let i = choose|i: int| 0 <= i < tp.len() && tp[i] == k;
            assert(tp.to_set().contains(tp[i]));
            assert(new.contains_key(k));
        } else {
            assert(im.contains_key(k));
            if tr.to_set().contains(k) {
                let i = choose|i: int| 0 <= i < tr.len() && tr[i] == k;
                assert(!cm.contains_key(tr[i]));
                assert(false);
            }
            assert(im.remove_keys(tr.to_set()).contains_key(k));
        }
    }
    assert(result.dom() =~= cm.dom());
}

/// Staleness monotonicity: advancing the modification time of exactly one
/// scanned file makes the plan reprocess that file and nothing else.
pub proof fn lemma_staleness_monotonic(
    im: Map<Seq<char>, EntryModel>,
    cm: Map<Seq<char>, u64>,
    p: Seq<char>,
    t2: u64,
    tp: Seq<Seq<char>>,
    tr: Seq<Seq<char>>,
)
    requires
        converged(im, cm),
        cm.contains_key(p),
        t2 != im[p].mtime,
        plan_processes(im, cm.insert(p, t2), tp),
        plan_removals(im, cm.insert(p, t2), tr),
    ensures
        tp == seq![p],
        tr.len() == 0,
{
    let cm2 = cm.insert(p, t2);
    assert forall|i: int| 0 <= i < tp.len() implies #[trigger] tp[i] == p by {
        let k = tp[i];
        assert(cm2.contains_key(k) && needs_index(im, k, cm2[k]));
        if k != p {
            assert(cm2[k] == cm[k]);
            assert(cm.contains_key(k)) by {
                assert(cm2.dom().contains(k));
            }
            assert(im.contains_key(k) && im[k].mtime == cm[k]);
            assert(false);
        }
    }
    assert(cm2.contains_key(p) && needs_index(im, p, cm2[p]));
    assert(tp.contains(p));
    let i0 = choose|i: int| 0 <= i < tp.len() && tp[i] == p;
    if tp.len() > 1 {
        assert(tp[0] == p && tp[1] == p);
        assert(lex_lt(tp[0], tp[1]));
        lemma_lex_trichotomy(p, p);
        assert(false);
    }
    assert(tp =~= seq![p]);
    if tr.len() > 0 {
        let k = tr[0];
        assert(im.contains_key(k) && !cm2.contains_key(k));
        assert(im.dom().contains(k));
        assert(cm.dom().contains(k));
        if k == p {
        } else {
            assert(cm2.contains_key(k)) by {
                assert(cm2.dom().contains(k));
            }
        }
        assert(false);
    }
}

} // verus!
