use vstd::prelude::*;

verus! {

/// Relative paths use `/` between components. The final component starts
/// right after the last separator — at 0 when there is none.
pub open spec fn file_start(s: Seq<char>) -> int
    decreases s.len(),
{
    if s.len() == 0 {
        0
    } else if s.last() == '/' {
        s.len() as int
    } else {
        file_start(s.drop_last())
    }
}

/// Index of the `.` that begins the extension: the last `.` of the final
/// component. `s.len()` when the final component has none.
pub open spec fn stem_end(s: Seq<char>) -> int
    decreases s.len(),
{
    if s.len() == 0 {
        0
    } else if s.last() == '.' {
        s.len() - 1
    } else if s.last() == '/' {
        s.len() as int
    } else {
        if stem_end(s.drop_last()) < s.drop_last().len() {
            stem_end(s.drop_last())
        } else {
            s.len() as int
        }
    }
}

pub proof fn lemma_file_start_bounds(s: Seq<char>)
    ensures
        0 <= file_start(s) <= s.len(),
        file_start(s) > 0 ==> s[file_start(s) - 1] == '/',
        forall|j: int| file_start(s) <= j < s.len() ==> s[j] != '/',
    decreases s.len(),
{
    if s.len() > 0 && s.last() != '/' {
        lemma_file_start_bounds(s.drop_last());
        assert forall|j: int| file_start(s) <= j < s.len() implies s[j] != '/' by {
            if j < s.len() - 1 {
                assert(s.drop_last()[j] == s[j]);
            }
        }
        if file_start(s) > 0 {
            assert(s.drop_last()[file_start(s) - 1] == s[file_start(s) - 1]);
        }
    }
}

pub proof fn lemma_stem_end_bounds(s: Seq<char>)
    ensures
        0 <= stem_end(s) <= s.len(),
        stem_end(s) < s.len() ==> s[stem_end(s)] == '.',
        forall|j: int| stem_end(s) < j < s.len() ==> s[j] != '.' && s[j] != '/',
    decreases s.len(),
{
    if s.len() == 0 {
    } else if s.last() == '.' {
    } else if s.last() == '/' {
    } else {
        lemma_stem_end_bounds(s.drop_last());
        if stem_end(s.drop_last()) < s.drop_last().len() {
            assert(s.drop_last()[stem_end(s)] == s[stem_end(s)]);
            assert forall|j: int| stem_end(s) < j < s.len() implies s[j] != '.' && s[j] != '/' by {
                if j < s.len() - 1 {
                    assert(s.drop_last()[j] == s[j]);
                }
            }
        }
    }
}

/// Scanning inward over characters that are neither `.` nor `/` does not
/// move the stem end.
proof fn lemma_stem_end_extend(s: Seq<char>, i: int)
    requires
        0 <= i <= s.len(),
        forall|j: int| i <= j < s.len() ==> s[j] != '.' && s[j] != '/',
    ensures
        stem_end(s) == if stem_end(s.take(i)) < i {
            stem_end(s.take(i))
        } else {
            s.len() as int
        },
    decreases s.len() - i,
{
    lemma_stem_end_bounds(s.take(i));
    if i == s.len() {
        assert(s.take(i) =~= s);
    } else {
        lemma_stem_end_extend(s, i + 1);
        let t = s.take(i + 1);
        assert(t.last() == s[i]);
        assert(t.drop_last() =~= s.take(i));
        assert(stem_end(t) == if stem_end(s.take(i)) < i {
            stem_end(s.take(i))
        } else {
            i + 1
        });
    }
}

/// Scanning inward over characters that are not `/` does not move the
/// start of the final component.
proof fn lemma_file_start_extend(s: Seq<char>, i: int)
    requires
        0 <= i <= s.len(),
        forall|j: int| i <= j < s.len() ==> s[j] != '/',
    ensures
        file_start(s) == file_start(s.take(i)),
    decreases s.len() - i,
{
    if i == s.len() {
        assert(s.take(i) =~= s);
    } else {
        lemma_file_start_extend(s, i + 1);
        let t = s.take(i + 1);
        assert(t.last() == s[i]);
        assert(t.drop_last() =~= s.take(i));
    }
}

/// Where the extension (with its `.`) would be cut off.
pub fn stem_end_pos(path: &str) -> (r: usize)
    ensures
        r == stem_end(path@),
{
    let n = path.unicode_len();
    let mut i: usize = n;
    loop
        invariant
            i <= n,
            n == path@.len(),
            forall|j: int| i <= j < n ==> path@[j] != '.' && path@[j] != '/',
        ensures
            i == 0,
            forall|j: int| 0 <= j < n ==> path@[j] != '.' && path@[j] != '/',
        decreases i,
    {
        if i == 0 {
            break;
        }
        let c = path.get_char(i - 1);
        proof {
            assert(path@.take(i as int).last() == path@[i - 1]);
        }
        if c == '.' {
            proof {
                lemma_stem_end_extend(path@, i as int);
                assert(path@.take(i as int).drop_last() =~= path@.take(i as int - 1));
                lemma_stem_end_bounds(path@.take(i as int - 1));
            }
            return i - 1;
        }
        if c == '/' {
            proof {
                lemma_stem_end_extend(path@, i as int);
            }
            return n;
        }
        i = i - 1;
    }
    proof {
        lemma_stem_end_extend(path@, 0);
        assert(path@.take(0).len() == 0);
    }
    n
}

/// Where the final component begins.
pub fn file_start_pos(path: &str) -> (r: usize)
    ensures
        r == file_start(path@),
{
    let n = path.unicode_len();
    let mut i: usize = n;
    loop
        invariant
            i <= n,
            n == path@.len(),
            forall|j: int| i <= j < n ==> path@[j] != '/',
        ensures
            i == 0,
            forall|j: int| 0 <= j < n ==> path@[j] != '/',
        decreases i,
    {
        if i == 0 {
            break;
        }
        let c = path.get_char(i - 1);
        proof {
            assert(path@.take(i as int).last() == path@[i - 1]);
        }
        if c == '/' {
            proof {
                lemma_file_start_extend(path@, i as int);
            }
            return i;
        }
        i = i - 1;
    }
    proof {
        lemma_file_start_extend(path@, 0);
        assert(path@.take(0).len() == 0);
    }
    0
}

/// The path with its extension replaced: everything up to the extension
/// dot — the whole path when the final component has no dot — then `.`
/// and the new extension.
pub open spec fn spec_replace_ext(s: Seq<char>, ext: Seq<char>) -> Seq<char> {
    s.take(stem_end(s)) + seq!['.'] + ext
}

pub fn replace_extension(path: &str, ext: &str) -> (r: String)
    ensures
        r@ == spec_replace_ext(path@, ext@),
{
    let se = stem_end_pos(path);
    proof {
        lemma_stem_end_bounds(path@);
    }
    let stem = path.substring_char(0, se);
    let mut out = stem.to_owned();
    out.append(".");
    out.append(ext);
    proof {
        reveal_strlit(".");
        assert(out@ =~= spec_replace_ext(path@, ext@));
    }
    out
}

/// The extension of the final component, without its dot.
pub open spec fn spec_ext_of(s: Seq<char>) -> Option<Seq<char>> {
    if stem_end(s) < s.len() {
        Some(s.skip(stem_end(s) + 1))
    } else {
        None
    }
}

pub fn extension_of(path: &str) -> (r: Option<String>)
    ensures
        match r {
            Some(e) => spec_ext_of(path@) == Some(e@),
            None => spec_ext_of(path@) is None,
        },
{
    let n = path.unicode_len();
    let se = stem_end_pos(path);
    proof {
        lemma_stem_end_bounds(path@);
    }
    if se < n {
        let e = path.substring_char(se + 1, n);
        proof {
            assert(e@ =~= path@.skip(stem_end(path@) + 1));
        }
        Some(e.to_owned())
    } else {
        None
    }
}

/// The directory part of a relative path, with its trailing separator;
/// empty for a path of one component.
pub open spec fn spec_dir_of(s: Seq<char>) -> Seq<char> {
    s.take(file_start(s))
}

/// The sibling cover image of a destination audio path: `cover.jpg` in the
/// same directory.
pub open spec fn spec_cover_path(s: Seq<char>) -> Seq<char> {
    spec_dir_of(s) + "cover.jpg"@
}

pub fn cover_sibling(path: &str) -> (r: String)
    ensures
        r@ == spec_cover_path(path@),
{
    let fs = file_start_pos(path);
    proof {
        lemma_file_start_bounds(path@);
    }
    let dir = path.substring_char(0, fs);
    let mut out = dir.to_owned();
    out.append("cover.jpg");
    out
}

/// `a` is the prefix of `path` that ends just before one of its
/// separators: an ancestor directory.
pub open spec fn is_ancestor_of(path: Seq<char>, a: Seq<char>) -> bool {
    exists|p: int| 0 <= p < path.len() && #[trigger] path[p] == '/' && a == path.take(p)
}

/// The ancestor directories of a relative path, shortest first: one prefix
/// for every separator, cut just before it. After publishing an artifact
/// its ancestors' modification times are all touched.
pub fn ancestor_dirs(path: &str) -> (r: Vec<String>)
    ensures
        forall|j: int| 0 <= j < r@.len() ==> is_ancestor_of(path@, (#[trigger] r@[j])@),
        forall|p: int|
            0 <= p < path@.len() && path@[p] == '/' ==> exists|j: int|
                0 <= j < r@.len() && (#[trigger] r@[j])@ == path@.take(p),
        forall|j1: int, j2: int|
            0 <= j1 < j2 < r@.len() ==> (#[trigger] r@[j1])@.len() < (#[trigger] r@[j2])@.len(),
{
    let n = path.unicode_len();
    let mut out: Vec<String> = Vec::new();
    let ghost mut cuts: Seq<int> = Seq::empty();
    let mut i: usize = 0;
    while i < n
        invariant
            i <= n,
            n == path@.len(),
            cuts.len() == out@.len(),
            forall|j: int| 0 <= j < cuts.len() ==> 0 <= #[trigger] cuts[j] < i,
            forall|j1: int, j2: int|
                0 <= j1 < j2 < cuts.len() ==> #[trigger] cuts[j1] < #[trigger] cuts[j2],
            forall|j: int|
                0 <= j < cuts.len() ==> path@[#[trigger] cuts[j]] == '/' && out@[j]@ == path@.take(
                    cuts[j],
                ),
            forall|p: int|
                0 <= p < i && path@[p] == '/' ==> exists|j: int|
                    0 <= j < cuts.len() && #[trigger] cuts[j] == p,
        decreases n - i,
    {
        let c = path.get_char(i);
        if c == '/' {
            let prefix = path.substring_char(0, i);
            proof {
                assert(prefix@ =~= path@.take(i as int));
            }
            out.push(prefix.to_owned());
            proof {
                let prev = cuts;
                cuts = prev.push(i as int);
                assert forall|p: int|
                    0 <= p < i + 1 && path@[p] == '/' implies exists|j: int|
                    0 <= j < cuts.len() && #[trigger] cuts[j] == p by {
                    if p == i as int {
                        assert(cuts[cuts.len() - 1] == p);
                    } else {
                        let j = choose|j: int| 0 <= j < prev.len() && prev[j] == p;
                        assert(cuts[j] == p);
                    }
                }
            }
        } else {
            proof {
                assert forall|p: int|
                    0 <= p < i + 1 && path@[p] == '/' implies exists|j: int|
                    0 <= j < cuts.len() && #[trigger] cuts[j] == p by {
                    assert(p < i);
                }
            }
        }
        i = i + 1;
    }
    proof {
        assert forall|j1: int, j2: int| 0 <= j1 < j2 < out@.len() implies (#[trigger] out@[j1])@
            .len() < (#[trigger] out@[j2])@.len() by {
            assert(cuts[j1] < cuts[j2]);
        }
        assert forall|j: int| 0 <= j < out@.len() implies is_ancestor_of(
            path@,
            (#[trigger] out@[j])@,
        ) by {
            let p0 = cuts[j];
            assert(0 <= p0 < path@.len());
            assert(path@[p0] == '/');
            assert(out@[j]@ == path@.take(p0));
        }
    }
    out
}

/// Replacing an extension and then asking for the extension gives the new
/// one back, provided the new extension has no `.` or `/` of its own.
pub proof fn lemma_replace_ext_stem(s: Seq<char>, ext: Seq<char>)
    requires
        forall|j: int| 0 <= j < ext.len() ==> ext[j] != '.' && ext[j] != '/',
    ensures
        stem_end(spec_replace_ext(s, ext)) == stem_end(s),
        spec_ext_of(spec_replace_ext(s, ext)) == Some(ext),
{
    lemma_stem_end_bounds(s);
    let stem = s.take(stem_end(s));
    let grown = spec_replace_ext(s, ext);
    assert forall|j: int| stem.len() + 1 <= j < grown.len() implies grown[j] != '.' && grown[j]
        != '/' by {
        assert(grown[j] == ext[j - stem.len() - 1]);
    }
    lemma_stem_end_extend(grown, stem.len() as int + 1);
    let t = grown.take(stem.len() as int + 1);
    assert(t.last() == '.');
    assert(stem_end(t) == stem.len());
    assert(stem_end(grown) == stem.len());
    assert(grown.skip(stem_end(grown) + 1) =~= ext);
}

/// Replacing an extension twice keeps only the second; on a path that
/// already carries extension `e1`, replacing by `e2` and back by `e1`
/// returns the original path.
pub proof fn lemma_replace_ext_roundtrip(s: Seq<char>, e1: Seq<char>, e2: Seq<char>)
    requires
        forall|j: int| 0 <= j < e2.len() ==> e2[j] != '.' && e2[j] != '/',
        spec_ext_of(s) == Some(e1),
    ensures
        spec_replace_ext(spec_replace_ext(s, e2), e1) == s,
{
    lemma_stem_end_bounds(s);
    lemma_replace_ext_stem(s, e2);
    let once = spec_replace_ext(s, e2);
    assert(once.take(stem_end(once)) =~= s.take(stem_end(s)));
    assert(spec_replace_ext(once, e1) =~= s);
}

/// ASCII-case-insensitive character equality; other characters must match
/// exactly.
pub open spec fn ch_eq_ci(a: char, b: char) -> bool {
    a == b || ('A' <= a && a <= 'Z' && a as u32 + 32 == b as u32) || ('A' <= b && b <= 'Z'
        && b as u32 + 32 == a as u32)
}

/// ASCII-case-insensitive equality of character sequences.
pub open spec fn seq_eq_ci(a: Seq<char>, b: Seq<char>) -> bool {
    a.len() == b.len() && forall|i: int| 0 <= i < a.len() ==> ch_eq_ci(a[i], #[trigger] b[i])
}

/// ASCII-case-insensitive string comparison, proved against `seq_eq_ci`.
pub fn str_eq_ci(a: &str, b: &str) -> (r: bool)
    ensures
        r == seq_eq_ci(a@, b@),
{
    let alen = a.unicode_len();
    let blen = b.unicode_len();
    if alen != blen {
        return false;
    }
    let mut i: usize = 0;
    while i < alen
        invariant
            i <= alen,
            alen == a@.len(),
            alen == b@.len(),
            forall|j: int| 0 <= j < i ==> ch_eq_ci(a@[j], #[trigger] b@[j]),
        decreases alen - i,
    {
        let ca = a.get_char(i);
        let cb = b.get_char(i);
        let same = ca == cb || ('A' <= ca && ca <= 'Z' && ca as u32 + 32 == cb as u32) || ('A'
            <= cb && cb <= 'Z' && cb as u32 + 32 == ca as u32);
        if !same {
            return false;
        }
        i = i + 1;
    }
    true
}

/// The extensions the scanner recognizes as source audio.
pub open spec fn spec_source_ext(e: Seq<char>) -> bool {
    ||| seq_eq_ci(e, "mp3"@)
    ||| seq_eq_ci(e, "flac"@)
    ||| seq_eq_ci(e, "wav"@)
    ||| seq_eq_ci(e, "m4a"@)
    ||| seq_eq_ci(e, "aac"@)
    ||| seq_eq_ci(e, "ogg"@)
    ||| seq_eq_ci(e, "opus"@)
    ||| seq_eq_ci(e, "wv"@)
    ||| seq_eq_ci(e, "ape"@)
}

/// A path the indexing scan takes: its extension names a recognized audio
/// format, matched without regard to ASCII case.
pub open spec fn spec_recognized_source(s: Seq<char>) -> bool {
    match spec_ext_of(s) {
        Some(e) => spec_source_ext(e),
        None => false,
    }
}

pub fn recognized_source(path: &str) -> (r: bool)
    ensures
        r == spec_recognized_source(path@),
{
    match extension_of(path) {
        None => false,
        Some(e) => {
            let s = e.as_str();
            str_eq_ci(s, "mp3") || str_eq_ci(s, "flac") || str_eq_ci(s, "wav") || str_eq_ci(
                s,
                "m4a",
            ) || str_eq_ci(s, "aac") || str_eq_ci(s, "ogg") || str_eq_ci(s, "opus") || str_eq_ci(
                s,
                "wv",
            ) || str_eq_ci(s, "ape")
        },
    }
}

/// A path the transcode pipeline takes as a source: lossless or opus.
pub open spec fn spec_transcodable(s: Seq<char>) -> bool {
    match spec_ext_of(s) {
        Some(e) => seq_eq_ci(e, "flac"@) || seq_eq_ci(e, "opus"@),
        None => false,
    }
}

pub fn transcodable(path: &str) -> (r: bool)
    ensures
        r == spec_transcodable(path@),
{
    match extension_of(path) {
        None => false,
        Some(e) => str_eq_ci(e.as_str(), "flac") || str_eq_ci(e.as_str(), "opus"),
    }
}

/// A destination path the prune pass examines: a transcoded audio format.
pub open spec fn spec_prune_subject(s: Seq<char>) -> bool {
    match spec_ext_of(s) {
        Some(e) => seq_eq_ci(e, "mp3"@) || seq_eq_ci(e, "opus"@) || seq_eq_ci(e, "m4a"@),
        None => false,
    }
}

pub fn prune_subject(path: &str) -> (r: bool)
    ensures
        r == spec_prune_subject(path@),
{
    match extension_of(path) {
        None => false,
        Some(e) => str_eq_ci(e.as_str(), "mp3") || str_eq_ci(e.as_str(), "opus") || str_eq_ci(
            e.as_str(),
            "m4a",
        ),
    }
}

} // verus!
