use vstd::prelude::*;

use crate::entry::{TagFields, TagFieldsModel};
use crate::error::AppError;
use crate::json::spec_u64_digits;
use crate::paths::extension_of;

verus! {

pub uninterp spec fn trimmed(s: Seq<char>) -> Seq<char>;

pub uninterp spec fn ascii_folded(s: Seq<char>) -> Seq<char>;

pub uninterp spec fn lowercased(s: Seq<char>) -> Seq<char>;

/// A character the sanitization removes outright: the ASCII run from `"`
/// through `/`, and colon, semicolon, the angle brackets, question mark,
/// exclamation mark, braces and the vertical bar.
pub open spec fn is_stripped_char(c: char) -> bool {
    (34 <= c as int && c as int <= 47) || c == '!' || c == ':' || c == ';' || c == '<' || c == '>'
        || c == '?' || c == '{' || c == '|' || c == '}'
}

/// The text with every removed character filtered out.
pub open spec fn spec_depunct(s: Seq<char>) -> Seq<char>
    decreases s.len(),
{
    if s.len() == 0 {
        Seq::empty()
    } else if is_stripped_char(s.last()) {
        spec_depunct(s.drop_last())
    } else {
        spec_depunct(s.drop_last()).push(s.last())
    }
}

/// A character the sanitization collapses: space or tilde.
pub open spec fn is_spacing_char(c: char) -> bool {
    c == ' ' || c == '~'
}

/// The text with every run of spacing characters replaced by one
/// underscore: a spacing character is dropped when another spacing
/// character stands right before it, and becomes `_` otherwise.
pub open spec fn spec_collapse(s: Seq<char>) -> Seq<char>
    decreases s.len(),
{
    if s.len() == 0 {
        Seq::empty()
    } else {
        let head = spec_collapse(s.drop_last());
        if is_spacing_char(s.last()) {
            if s.len() >= 2 && is_spacing_char(s[s.len() - 2]) {
                head
            } else {
                head.push('_')
            }
        } else {
            head.push(s.last())
        }
    }
}

/// Relies on str::trim: the text without leading and trailing whitespace,
/// a function of the characters alone.
#[verifier::external_body]
fn trim_text(s: &str) -> (r: String)
    ensures
        r@ == trimmed(s@),
{
    s.trim().to_string()
}

/// Relies on deunicode::deunicode_with_tofu: the text transliterated to
/// ASCII, untranslatable characters becoming `_`; a function of the
/// characters alone.
#[verifier::external_body]
fn fold_ascii(s: &str) -> (r: String)
    ensures
        r@ == ascii_folded(s@),
{
    deunicode::deunicode_with_tofu(s, "_")
}

/// Relies on str::to_lowercase: the result depends on the characters
/// alone.
#[verifier::external_body]
fn lowercase(s: &str) -> (r: String)
    ensures
        r@ == lowercased(s@),
{
    s.to_lowercase()
}

/// Remove every stripped character.
fn strip_punctuation(s: &str) -> (r: String)
    ensures
        r@ == spec_depunct(s@),
{
    let n = s.unicode_len();
    let mut out = String::new();
    let mut i: usize = 0;
    proof {
        assert(s@.take(0) =~= Seq::<char>::empty());
        assert(out@ =~= spec_depunct(s@.take(0)));
    }
    while i < n
        invariant
            i <= n,
            n == s@.len(),
            out@ == spec_depunct(s@.take(i as int)),
        decreases n - i,
    {
        let c = s.get_char(i);
        proof {
            assert(s@.take(i as int + 1).drop_last() =~= s@.take(i as int));
            assert(s@.take(i as int + 1).last() == s@[i as int]);
        }
        let code = c as u32;
        let stripped = (34 <= code && code <= 47) || c == '!' || c == ':' || c == ';' || c == '<'
            || c == '>' || c == '?' || c == '{' || c == '|' || c == '}';
        if !stripped {
            crate::json::push_char(&mut out, c);
        }
        i = i + 1;
    }
    proof {
        assert(s@.take(n as int) =~= s@);
    }
    out
}

/// Collapse every run of spacing characters to one underscore.
fn collapse_spacing(s: &str) -> (r: String)
    ensures
        r@ == spec_collapse(s@),
{
    let n = s.unicode_len();
    let mut out = String::new();
    let mut i: usize = 0;
    proof {
        assert(s@.take(0) =~= Seq::<char>::empty());
        assert(out@ =~= spec_collapse(s@.take(0)));
    }
    while i < n
        invariant
            i <= n,
            n == s@.len(),
            out@ == spec_collapse(s@.take(i as int)),
        decreases n - i,
    {
        let c = s.get_char(i);
        let spacing = c == ' ' || c == '~';
        let after_spacing = if i == 0 {
            false
        } else {
            let p = s.get_char(i - 1);
            p == ' ' || p == '~'
        };
        proof {
            assert(s@.take(i as int + 1).drop_last() =~= s@.take(i as int));
            assert(s@.take(i as int + 1).last() == s@[i as int]);
            if i >= 1 {
                assert(s@.take(i as int + 1)[i as int - 1] == s@[i as int - 1]);
            }
        }
        if spacing {
            if !after_spacing {
                crate::json::push_char(&mut out, '_');
            }
        } else {
            crate::json::push_char(&mut out, c);
        }
        i = i + 1;
    }
    proof {
        assert(s@.take(n as int) =~= s@);
    }
    out
}

/// The sanitization pipeline a name component goes through, stage by
/// stage.
pub open spec fn spec_tidied(s: Seq<char>) -> Seq<char> {
    spec_collapse(spec_depunct(lowercased(ascii_folded(trimmed(s)))))
}

/// Every character of a depunctuated text survived the filter.
proof fn lemma_depunct_chars(x: Seq<char>)
    ensures
        forall|i: int|
            0 <= i < spec_depunct(x).len() ==> !is_stripped_char(#[trigger] spec_depunct(x)[i]),
    decreases x.len(),
{
    if x.len() > 0 {
        lemma_depunct_chars(x.drop_last());
        assert forall|i: int| 0 <= i < spec_depunct(x).len() implies !is_stripped_char(
            #[trigger] spec_depunct(x)[i],
        ) by {
            if i < spec_depunct(x.drop_last()).len() {
                assert(spec_depunct(x)[i] == spec_depunct(x.drop_last())[i]);
            } else {
                assert(spec_depunct(x)[i] == x.last());
            }
        }
    }
}

/// A collapsed text holds only underscores and non-spacing characters of
/// its input.
proof fn lemma_collapse_chars(x: Seq<char>)
    ensures
        forall|i: int|
            0 <= i < spec_collapse(x).len() ==> (#[trigger] spec_collapse(x)[i] == '_' || (
            x.contains(spec_collapse(x)[i]) && !is_spacing_char(spec_collapse(x)[i]))),
    decreases x.len(),
{
    if x.len() > 0 {
        lemma_collapse_chars(x.drop_last());
        assert forall|i: int| 0 <= i < spec_collapse(x).len() implies (#[trigger] spec_collapse(
            x,
        )[i] == '_' || (x.contains(spec_collapse(x)[i]) && !is_spacing_char(
            spec_collapse(x)[i],
        ))) by {
            let e = spec_collapse(x)[i];
            if i < spec_collapse(x.drop_last()).len() {
                assert(e == spec_collapse(x.drop_last())[i]);
                if e != '_' {
                    let j = choose|j: int|
                        0 <= j < x.drop_last().len() && x.drop_last()[j] == e;
                    assert(x[j] == e);
                }
            } else {
                assert(e == spec_collapse(x).last());
                if e != '_' {
                    assert(e == x.last());
                    assert(x[x.len() - 1] == e);
                }
            }
        }
    }
}

/// What sanitization promises of its output: no stripped punctuation and
/// no raw spacing survives — every run of spaces and tildes ends as one
/// underscore.
pub proof fn lemma_tidied_clean(s: Seq<char>)
    ensures
        forall|i: int|
            0 <= i < spec_tidied(s).len() ==> !is_stripped_char(#[trigger] spec_tidied(s)[i])
                && !is_spacing_char(spec_tidied(s)[i]),
{
    let filtered = spec_depunct(lowercased(ascii_folded(trimmed(s))));
    lemma_depunct_chars(lowercased(ascii_folded(trimmed(s))));
    lemma_collapse_chars(filtered);
    assert forall|i: int| 0 <= i < spec_tidied(s).len() implies !is_stripped_char(
        #[trigger] spec_tidied(s)[i],
    ) && !is_spacing_char(spec_tidied(s)[i]) by {
        let e = spec_tidied(s)[i];
        if e == '_' {
            assert('_' as int == 95);
            assert(!is_stripped_char('_'));
        } else {
            assert(filtered.contains(e));
            let j = choose|j: int| 0 <= j < filtered.len() && filtered[j] == e;
        }
    }
}

/// Sanitize one name component: trim, transliterate to ASCII, lower-case,
/// drop punctuation, collapse spacing.
pub fn tidy_string(s: &str) -> (r: String)
    ensures
        r@ == spec_tidied(s@),
{
    let trimmed_text = trim_text(s);
    let folded = fold_ascii(trimmed_text.as_str());
    let lowered = lowercase(folded.as_str());
    let stripped = strip_punctuation(lowered.as_str());
    collapse_spacing(stripped.as_str())
}

/// Drop a leading `the ` — lower-case, with a literal space. Sanitized
/// text has already had its spaces collapsed to underscores (see
/// `lemma_tidied_clean`), so on the pipeline's own output this prefix can
/// no longer occur and the name passes through unchanged; only a caller
/// handing unsanitized text here would see the article stripped.
pub open spec fn spec_strip_the(s: Seq<char>) -> Seq<char> {
    if s.len() >= 4 && s.take(4) == "the "@ {
        s.skip(4)
    } else {
        s
    }
}

pub fn strip_the(s: &str) -> (r: String)
    ensures
        r@ == spec_strip_the(s@),
{
    let n = s.unicode_len();
    if n >= 4 {
        let head = s.substring_char(0, 4);
        if crate::order::str_eq(head, "the ") {
            let rest = s.substring_char(4, n);
            proof {
                assert(s@.subrange(0, 4) =~= s@.take(4));
                assert(s@.subrange(4, n as int) =~= s@.skip(4));
            }
            return rest.to_owned();
        }
        proof {
            assert(s@.subrange(0, 4) =~= s@.take(4));
        }
    }
    s.to_owned()
}

/// The artist a file is filed under: `various` for a compilation — the
/// flag holds the literal text `1` — else the album artist, else the
/// artist, else nothing, sanitized.
pub open spec fn spec_artist_dir(f: TagFieldsModel) -> Seq<char> {
    if f.compilation == Some("1"@) {
        spec_strip_the("various"@)
    } else if f.album_artist is Some {
        spec_strip_the(spec_tidied(f.album_artist->0))
    } else if f.artist is Some {
        spec_strip_the(spec_tidied(f.artist->0))
    } else {
        spec_strip_the(spec_tidied(Seq::empty()))
    }
}

fn artist_dir(fields: &TagFields) -> (r: String)
    ensures
        r@ == spec_artist_dir(fields@),
{
    let compilation = match &fields.compilation {
        Some(c) => crate::order::str_eq(c.as_str(), "1"),
        None => false,
    };
    let tidied = if compilation {
        String::from_str("various")
    } else {
        match &fields.album_artist {
            Some(a) => tidy_string(a.as_str()),
            None => match &fields.artist {
                Some(a) => tidy_string(a.as_str()),
                None => tidy_string(""),
            },
        }
    };
    proof {
        reveal_strlit("");
        assert(""@ =~= Seq::<char>::empty());
    }
    strip_the(tidied.as_str())
}

/// The disc prefix of a file name: the disc number and a dash, or nothing.
pub open spec fn spec_disc_prefix(f: TagFieldsModel) -> Seq<char> {
    match f.disk_number {
        Option::None => Seq::empty(),
        Option::Some(d) => spec_u64_digits(d as nat) + "-"@,
    }
}

/// The track number, zero-padded to two digits; track one where the tag
/// has none.
pub open spec fn spec_track_part(f: TagFieldsModel) -> Seq<char> {
    let t = match f.track_number {
        Option::None => 1u32,
        Option::Some(t) => t,
    };
    if t < 10 {
        "0"@ + spec_u64_digits(t as nat)
    } else {
        spec_u64_digits(t as nat)
    }
}

/// Where a file belongs, relative to its root, given its tag fields:
/// `artist/album/disc-track_title.extension`, every component sanitized.
/// A source path without an extension cannot be normalized.
pub open spec fn spec_nice_rel(f: TagFieldsModel, ext: Seq<char>) -> Seq<char> {
    spec_artist_dir(f) + "/"@ + spec_tidied(match f.album {
        Option::None => Seq::empty(),
        Option::Some(a) => a,
    }) + "/"@ + spec_disc_prefix(f) + spec_track_part(f) + "_"@ + spec_tidied(
        match f.title {
            Option::None => Seq::empty(),
            Option::Some(t) => t,
        },
    ) + "."@ + ext
}

/// The normalized relative path for one source file. Returns the path
/// exactly when the source path carries an extension, and the path error
/// exactly when it does not.
pub fn nice_rel_path(fields: &TagFields, src_rel: &str) -> (r: Result<String, AppError>)
    ensures
        match r {
            Ok(p) => crate::paths::spec_ext_of(src_rel@) is Some && p@ == spec_nice_rel(
                fields@,
                crate::paths::spec_ext_of(src_rel@)->0,
            ),
            Err(e) => crate::paths::spec_ext_of(src_rel@) is None && e == AppError::PathError,
        },
{
    let ext = match extension_of(src_rel) {
        None => {
            return Err(AppError::PathError);
        },
        Some(e) => e,
    };
    let ghost album_model: Seq<char> = match fields@.album {
        Option::None => Seq::empty(),
        Option::Some(a) => a,
    };
    let ghost title_model: Seq<char> = match fields@.title {
        Option::None => Seq::empty(),
        Option::Some(t) => t,
    };
    let ghost head = spec_artist_dir(fields@) + "/"@ + spec_tidied(album_model) + "/"@;
    let ghost with_disc = head + spec_disc_prefix(fields@);
    let ghost with_track = with_disc + spec_track_part(fields@);
    let mut out = artist_dir(fields);
    out.append("/");
    let album = match &fields.album {
        Some(a) => tidy_string(a.as_str()),
        None => tidy_string(""),
    };
    proof {
        reveal_strlit("");
        assert(""@ =~= Seq::<char>::empty());
    }
    out.append(album.as_str());
    out.append("/");
    match &fields.disk_number {
        None => {
            proof {
                assert(out@ =~= with_disc);
            }
        },
        Some(d) => {
            let digits = crate::json::u64_string(*d as u64);
            out.append(digits.as_str());
            out.append("-");
            proof {
                assert(out@ =~= with_disc);
            }
        },
    }
    let track = match &fields.track_number {
        None => 1u32,
        Some(t) => *t,
    };
    if track < 10 {
        out.append("0");
    }
    let track_digits = crate::json::u64_string(track as u64);
    out.append(track_digits.as_str());
    proof {
        assert(out@ =~= with_track);
    }
    out.append("_");
    let title = match &fields.title {
        Some(t) => tidy_string(t.as_str()),
        None => tidy_string(""),
    };
    proof {
        reveal_strlit("");
        assert(""@ =~= Seq::<char>::empty());
    }
    out.append(title.as_str());
    out.append(".");
    out.append(ext.as_str());
    proof {
        assert(out@ =~= spec_nice_rel(fields@, ext@));
    }
    Ok(out)
}

} // verus!
