use vstd::prelude::*;

use crate::listmap::ListMap;
use crate::order::{lemma_lex_trichotomy, lex_lt};
use crate::paths::{lemma_replace_ext_roundtrip, replace_extension, spec_ext_of, spec_replace_ext};

verus! {

/// A destination file is orphaned when no configured source root holds its
/// hypothetical lossless original: the destination path with its extension
/// remapped to `flac`. The remap is to `flac` alone, so a source that was
/// itself lossy — an opus file transcoded from an opus source — has no
/// lossless original and its mirror always reads as orphaned; the
/// exactness law below is therefore stated for flac-keyed roots.
pub open spec fn orphaned(roots: Seq<ListMap<u64>>, k: Seq<char>) -> bool {
    forall|r: int|
        0 <= r < roots.len() ==> !(#[trigger] roots[r])@.contains_key(
            spec_replace_ext(k, "flac"@),
        )
}

/// `plan` lists exactly the orphaned destination files, in strictly
/// increasing path order.
pub open spec fn plan_prunes(
    roots: Seq<ListMap<u64>>,
    dest: Map<Seq<char>, u64>,
    plan: Seq<Seq<char>>,
) -> bool {
    &&& forall|i: int|
        0 <= i < plan.len() ==> dest.contains_key(#[trigger] plan[i]) && orphaned(roots, plan[i])
    &&& forall|k: Seq<char>|
        dest.contains_key(k) && orphaned(roots, k) ==> #[trigger] plan.contains(k)
    &&& forall|i: int, j: int|
        0 <= i < j < plan.len() ==> lex_lt(#[trigger] plan[i], #[trigger] plan[j])
}

/// The orphans of the destination tree: every destination file whose
/// extension-remapped original is in none of the source roots. The caller
/// deletes them — or, on a dry run, only reports them.
pub fn prune_plan(dest: &ListMap<u64>, roots: &Vec<ListMap<u64>>) -> (r: Vec<String>)
    requires
        dest.wf(),
        forall|r: int| 0 <= r < roots@.len() ==> (#[trigger] roots@[r]).wf(),
    ensures
        plan_prunes(roots@, dest@, r.deep_view()),
{
    let mut plan: Vec<String> = Vec::new();
    let ghost mut plan_rows: Seq<int> = Seq::empty();
    let n = dest.len();
    let mut i: usize = 0;
    while i < n
        invariant
            dest.wf(),
            forall|r: int| 0 <= r < roots@.len() ==> (#[trigger] roots@[r]).wf(),
            n == dest.rows@.len(),
            i <= n,
            plan_rows.len() == plan@.len(),
            forall|j: int| 0 <= j < plan_rows.len() ==> 0 <= #[trigger] plan_rows[j] < i,
            forall|j1: int, j2: int|
                0 <= j1 < j2 < plan_rows.len() ==> #[trigger] plan_rows[j1]
                    < #[trigger] plan_rows[j2],
            forall|j: int|
                0 <= j < plan_rows.len() ==> (#[trigger] plan@[j])@
                    == dest.rows@[plan_rows[j]].key@,
            forall|j: int|
                0 <= j < plan_rows.len() ==> orphaned(
                    roots@,
                    dest.rows@[#[trigger] plan_rows[j]].key@,
                ),
            forall|r0: int|
                0 <= r0 < i && orphaned(roots@, (#[trigger] dest.rows@[r0]).key@) ==> exists|j: int|
                    0 <= j < plan_rows.len() && plan_rows[j] == r0,
        decreases n - i,
    {
        let key = dest.key_at(i);
        let original = replace_extension(key.as_str(), "flac");
        let mut found = false;
        let rn = roots.len();
        let mut r: usize = 0;
        while r < rn
            invariant
                rn == roots@.len(),
                r <= rn,
                forall|q: int| 0 <= q < roots@.len() ==> (#[trigger] roots@[q]).wf(),
                original@ == spec_replace_ext(dest.rows@[i as int].key@, "flac"@),
                i < dest.rows@.len(),
                found ==> exists|q: int|
                    0 <= q < r && (#[trigger] roots@[q])@.contains_key(original@),
                !found ==> forall|q: int|
                    0 <= q < r ==> !(#[trigger] roots@[q])@.contains_key(original@),
            decreases rn - r,
        {
            if roots[r].contains(original.as_str()) {
                found = true;
            }
            r = r + 1;
        }
        if !found {
            let owned = key.clone();
            plan.push(owned);
            proof {
                let prev = plan_rows;
                plan_rows = prev.push(i as int);
                assert forall|r0: int|
                    0 <= r0 < i + 1 && orphaned(
                        roots@,
                        (#[trigger] dest.rows@[r0]).key@,
                    ) implies exists|j: int| 0 <= j < plan_rows.len() && plan_rows[j] == r0 by {
                    if r0 == i as int {
                        assert(plan_rows[plan_rows.len() - 1] == r0);
                    } else {
                        let j = choose|j: int| 0 <= j < prev.len() && prev[j] == r0;
                        assert(plan_rows[j] == r0);
                    }
                }
            }
        } else {
            proof {
                assert(!orphaned(roots@, dest.rows@[i as int].key@));
                assert forall|r0: int|
                    0 <= r0 < i + 1 && orphaned(
                        roots@,
                        (#[trigger] dest.rows@[r0]).key@,
                    ) implies exists|j: int| 0 <= j < plan_rows.len() && plan_rows[j] == r0 by {
                    assert(r0 < i);
                }
            }
        }
        i = i + 1;
    }
    proof {
        crate::listmap::lemma_sorted_unique(dest.rows@);
        let pl = plan.deep_view();
        assert(pl.len() == plan@.len());
        assert(forall|j: int| 0 <= j < pl.len() ==> #[trigger] pl[j] == plan@[j]@);
        assert forall|j: int|
            0 <= j < pl.len() implies dest@.contains_key(#[trigger] pl[j]) && orphaned(
            roots@,
            pl[j],
        ) by {
            let r0 = plan_rows[j];
            crate::listmap::lemma_rows_map_at(dest.rows@, r0);
        }
        assert forall|k: Seq<char>|
            dest@.contains_key(k) && orphaned(roots@, k) implies #[trigger] pl.contains(k) by {
            crate::listmap::lemma_rows_map_domain(dest.rows@, k);
            let r0 = choose|r0: int|
                0 <= r0 < dest.rows@.len() && (#[trigger] dest.rows@[r0].key@) == k;
            let j = choose|j: int| 0 <= j < plan_rows.len() && plan_rows[j] == r0;
            assert(pl[j] == k);
        }
        assert forall|i1: int, j1: int| 0 <= i1 < j1 < pl.len() implies lex_lt(
            #[trigger] pl[i1],
            #[trigger] pl[j1],
        ) by {
            assert(plan_rows[i1] < plan_rows[j1]);
        }
    }
    plan
}

/// Orphan pruning, exactly: when the destination tree mirrors the sources —
/// every destination file is the mirror of a source, under a fixed target
/// extension — except that one source file `x` was deleted, the prune plan
/// holds exactly `x`'s mirror and nothing else.
pub proof fn lemma_prune_exact(
    roots: Seq<ListMap<u64>>,
    dest: Map<Seq<char>, u64>,
    x: Seq<char>,
    target_ext: Seq<char>,
    plan: Seq<Seq<char>>,
)
    requires
        forall|j: int| 0 <= j < target_ext.len() ==> target_ext[j] != '.' && target_ext[j] != '/',
        forall|r: int, s: Seq<char>|
            0 <= r < roots.len() && #[trigger] roots[r]@.contains_key(s) ==> spec_ext_of(s)
                == Some("flac"@),
        spec_ext_of(x) == Some("flac"@),
        forall|r: int| 0 <= r < roots.len() ==> !(#[trigger] roots[r])@.contains_key(x),
        forall|d: Seq<char>|
            #[trigger] dest.contains_key(d) <==> (exists|r: int, s: Seq<char>|
                0 <= r < roots.len() && #[trigger] roots[r]@.contains_key(s) && d
                    == spec_replace_ext(s, target_ext)) || d == spec_replace_ext(x, target_ext),
        plan_prunes(roots, dest, plan),
    ensures
        plan == seq![spec_replace_ext(x, target_ext)],
{
    let mirror_x = spec_replace_ext(x, target_ext);
    lemma_replace_ext_roundtrip(x, "flac"@, target_ext);
    assert(dest.contains_key(mirror_x));
    assert(orphaned(roots, mirror_x)) by {
        assert forall|r: int|
            0 <= r < roots.len() implies !(#[trigger] roots[r])@.contains_key(
            spec_replace_ext(mirror_x, "flac"@),
        ) by {
            assert(spec_replace_ext(mirror_x, "flac"@) == x);
        }
    }
    assert(plan.contains(mirror_x));
    assert forall|i: int| 0 <= i < plan.len() implies #[trigger] plan[i] == mirror_x by {
        let d = plan[i];
        assert(dest.contains_key(d) && orphaned(roots, d));
        if d != mirror_x {
            let (r, s) = choose|r: int, s: Seq<char>|
                0 <= r < roots.len() && #[trigger] roots[r]@.contains_key(s) && d
                    == spec_replace_ext(s, target_ext);
            lemma_replace_ext_roundtrip(s, "flac"@, target_ext);
            assert(spec_replace_ext(d, "flac"@) == s);
            assert(!roots[r]@.contains_key(s));
            assert(false);
        }
    }
    if plan.len() > 1 {
        assert(lex_lt(plan[0], plan[1]));
        lemma_lex_trichotomy(mirror_x, mirror_x);
        assert(false);
    }
    let i0 = choose|i: int| 0 <= i < plan.len() && plan[i] == mirror_x;
    assert(plan.len() == 1);
    assert(plan =~= seq![mirror_x]);
}

} // verus!
