use vstd::prelude::*;

use crate::entry::{EntryModel, IndexEntry};
use crate::json::push_char;
use crate::listmap::ListMap;

verus! {

// The index file format is this library's own (see `crate::json` for the
// writer), so it is read back by a verified parser with an exact contract:
// the spec functions below define, character by character, which texts
// load and what they load to. Anything outside the canonical shape is a
// load failure, and a load failure degrades to the empty index — the run
// then reindexes from scratch, which is the stated recovery.
pub open spec fn is_digit(c: char) -> bool {
    '0' <= c && c <= '9'
}

pub open spec fn digit_value(c: char) -> int {
    c as int - 48
}

/// The writer emits lower-case hexadecimal.
pub open spec fn is_hex_lower(c: char) -> bool {
    is_digit(c) || ('a' <= c && c <= 'f')
}

pub open spec fn hex_value(c: char) -> int {
    if is_digit(c) {
        c as int - 48
    } else {
        c as int - 87
    }
}

/// The literal stands at `pos`: the position just past it, or nothing.
pub open spec fn spec_match_lit(s: Seq<char>, pos: int, lit: Seq<char>) -> Option<int> {
    if 0 <= pos && pos + lit.len() <= s.len() && s.subrange(pos, pos + lit.len()) == lit {
        Some(pos + lit.len())
    } else {
        None
    }
}

/// Take digits from `pos` into the accumulator until a non-digit; a value
/// past the width of `u64` fails the parse.
pub open spec fn spec_parse_digits(s: Seq<char>, pos: int, acc: u64) -> Option<(u64, int)>
    decreases s.len() - pos,
{
    if 0 <= pos && pos < s.len() && is_digit(s[pos]) {
        if acc as int <= (0xffff_ffff_ffff_ffff - digit_value(s[pos])) / 10 {
            spec_parse_digits(s, pos + 1, (10 * (acc as int) + digit_value(s[pos])) as u64)
        } else {
            None
        }
    } else {
        Some((acc, pos))
    }
}

/// A canonical number: one or more digits, and a leading zero only as the
/// whole number `0`.
pub open spec fn spec_parse_u64(s: Seq<char>, pos: int) -> Option<(u64, int)> {
    if 0 <= pos && pos < s.len() && is_digit(s[pos]) {
        if s[pos] == '0' {
            Some((0, pos + 1))
        } else {
            spec_parse_digits(s, pos, 0)
        }
    } else {
        None
    }
}

/// The body of a canonical string, read from just after the opening quote
/// to just past the closing one: quote and backslash stand escaped,
/// control characters as four lower-case hex digits, everything else as
/// itself.
pub open spec fn spec_parse_text(s: Seq<char>, pos: int, acc: Seq<char>) -> Option<
    (Seq<char>, int),
>
    decreases s.len() - pos,
{
    if pos < 0 || pos >= s.len() {
        None
    } else if s[pos] == '"' {
        Some((acc, pos + 1))
    } else if s[pos] == '\\' {
        if pos + 2 <= s.len() && s[pos + 1] == '"' {
            spec_parse_text(s, pos + 2, acc.push('"'))
        } else if pos + 2 <= s.len() && s[pos + 1] == '\\' {
            spec_parse_text(s, pos + 2, acc.push('\\'))
        } else if pos + 6 <= s.len() && s[pos + 1] == 'u' && s[pos + 2] == '0' && s[pos + 3] == '0'
            && is_hex_lower(s[pos + 4]) && is_hex_lower(s[pos + 5]) && 16 * hex_value(s[pos + 4])
            + hex_value(s[pos + 5]) < 32 {
            spec_parse_text(
                s,
                pos + 6,
                acc.push((((16 * hex_value(s[pos + 4]) + hex_value(s[pos + 5])) as u8) as char)),
            )
        } else {
            None
        }
    } else if (s[pos] as int) < 32 {
        None
    } else {
        spec_parse_text(s, pos + 1, acc.push(s[pos]))
    }
}

/// An optional numeric field: where its label stands, the number must
/// follow; where it does not, the field is absent and nothing is taken.
pub open spec fn spec_parse_opt_num(s: Seq<char>, pos: int, label: Seq<char>) -> Option<
    (Option<u64>, int),
> {
    match spec_match_lit(s, pos, label) {
        Option::None => Some((Option::<u64>::None, pos)),
        Option::Some(p) => match spec_parse_u64(s, p) {
            Option::None => None,
            Option::Some(v) => Some((Some(v.0), v.1)),
        },
    }
}

/// An optional numeric field that must fit `u32`.
pub open spec fn spec_parse_opt_u32(s: Seq<char>, pos: int, label: Seq<char>) -> Option<
    (Option<u32>, int),
> {
    match spec_parse_opt_num(s, pos, label) {
        Option::None => None,
        Option::Some(v) => match v.0 {
            Option::None => Some((Option::<u32>::None, v.1)),
            Option::Some(x) => if x <= 0xffff_ffff {
                Some((Some(x as u32), v.1))
            } else {
                None
            },
        },
    }
}

/// An optional text field; its label ends with the opening quote.
pub open spec fn spec_parse_opt_text(s: Seq<char>, pos: int, label: Seq<char>) -> Option<
    (Option<Seq<char>>, int),
> {
    match spec_match_lit(s, pos, label) {
        Option::None => Some((Option::<Seq<char>>::None, pos)),
        Option::Some(p) => match spec_parse_text(s, p, Seq::empty()) {
            Option::None => None,
            Option::Some(v) => Some((Some(v.0), v.1)),
        },
    }
}

/// The three required fields at an entry's head.
pub open spec fn spec_parse_head(s: Seq<char>, pos: int) -> Option<((u64, u64, u64), int)> {
    match spec_match_lit(s, pos, "{\"mtime\":"@) {
        Option::None => None,
        Option::Some(p1) => match spec_parse_u64(s, p1) {
            Option::None => None,
            Option::Some(mt) => match spec_match_lit(s, mt.1, ",\"size\":"@) {
                Option::None => None,
                Option::Some(p2) => match spec_parse_u64(s, p2) {
                    Option::None => None,
                    Option::Some(sz) => match spec_match_lit(s, sz.1, ",\"duration\":"@) {
                        Option::None => None,
                        Option::Some(p3) => match spec_parse_u64(s, p3) {
                            Option::None => None,
                            Option::Some(du) => Some(((mt.0, sz.0, du.0), du.1)),
                        },
                    },
                },
            },
        },
    }
}

/// One whole entry, fields in their canonical order, absent ones left out.
pub open spec fn spec_parse_entry(s: Seq<char>, pos: int) -> Option<(EntryModel, int)> {
    match spec_parse_head(s, pos) {
        Option::None => None,
        Option::Some(h) => match spec_parse_opt_u32(s, h.1, ",\"bitrate\":"@) {
            Option::None => None,
            Option::Some(bi) => match spec_parse_opt_text(s, bi.1, ",\"album\":\""@) {
                Option::None => None,
                Option::Some(al) => match spec_parse_opt_text(s, al.1, ",\"artist\":\""@) {
                    Option::None => None,
                    Option::Some(ar) => match spec_parse_opt_text(s, ar.1, ",\"title\":\""@) {
                        Option::None => None,
                        Option::Some(ti) => match spec_parse_opt_text(
                            s,
                            ti.1,
                            ",\"albumArtist\":\""@,
                        ) {
                            Option::None => None,
                            Option::Some(aa) => match spec_parse_opt_text(
                                s,
                                aa.1,
                                ",\"genre\":\""@,
                            ) {
                                Option::None => None,
                                Option::Some(ge) => match spec_parse_opt_u32(
                                    s,
                                    ge.1,
                                    ",\"year\":"@,
                                ) {
                                    Option::None => None,
                                    Option::Some(ye) => match spec_parse_opt_u32(
                                        s,
                                        ye.1,
                                        ",\"trackNumber\":"@,
                                    ) {
                                        Option::None => None,
                                        Option::Some(tn) => match spec_parse_opt_u32(
                                            s,
                                            tn.1,
                                            ",\"trackNumberTotal\":"@,
                                        ) {
                                            Option::None => None,
                                            Option::Some(tt) => match spec_parse_opt_u32(
                                                s,
                                                tt.1,
                                                ",\"diskNumber\":"@,
                                            ) {
                                                Option::None => None,
                                                Option::Some(dn) => match spec_parse_opt_u32(
                                                    s,
                                                    dn.1,
                                                    ",\"diskNumberTotal\":"@,
                                                ) {
                                                    Option::None => None,
                                                    Option::Some(dt) => match spec_match_lit(
                                                        s,
                                                        dt.1,
                                                        "}"@,
                                                    ) {
                                                        Option::None => None,
                                                        Option::Some(pe) => Some(
                                                            (
                                                                EntryModel {
                                                                    mtime: h.0.0,
                                                                    size: h.0.1,
                                                                    duration: h.0.2,
                                                                    bitrate: bi.0,
                                                                    album: al.0,
                                                                    artist: ar.0,
                                                                    title: ti.0,
                                                                    album_artist: aa.0,
                                                                    genre: ge.0,
                                                                    year: ye.0,
                                                                    track_number: tn.0,
                                                                    track_number_total: tt.0,
                                                                    disk_number: dn.0,
                                                                    disk_number_total: dt.0,
                                                                },
                                                                pe,
                                                            ),
                                                        ),
                                                    },
                                                },
                                            },
                                        },
                                    },
                                },
                            },
                        },
                    },
                },
            },
        },
    }
}

/// One `"key":entry` pair.
pub open spec fn spec_parse_pair(s: Seq<char>, pos: int) -> Option<((Seq<char>, EntryModel), int)> {
    match spec_match_lit(s, pos, "\""@) {
        Option::None => None,
        Option::Some(p1) => match spec_parse_text(s, p1, Seq::empty()) {
            Option::None => None,
            Option::Some(k) => match spec_match_lit(s, k.1, ":"@) {
                Option::None => None,
                Option::Some(p2) => match spec_parse_entry(s, p2) {
                    Option::None => None,
                    Option::Some(e) => Some(((k.0, e.0), e.1)),
                },
            },
        },
    }
}

/// The pairs after the first, each behind a comma.
pub open spec fn spec_parse_more_pairs(
    s: Seq<char>,
    pos: int,
    acc: Seq<(Seq<char>, EntryModel)>,
) -> Option<(Seq<(Seq<char>, EntryModel)>, int)>
    decreases s.len() - pos,
{
    match spec_match_lit(s, pos, ","@) {
        Option::None => Some((acc, pos)),
        Option::Some(p) => match spec_parse_pair(s, p) {
            Option::None => None,
            Option::Some(pr) => if pos < pr.1 && pr.1 <= s.len() {
                spec_parse_more_pairs(s, pr.1, acc.push(pr.0))
            } else {
                None
            },
        },
    }
}

/// A whole index file, and nothing after it.
pub open spec fn spec_parse_index(s: Seq<char>) -> Option<Seq<(Seq<char>, EntryModel)>> {
    match spec_match_lit(s, 0, "{\"version\":1,\"tracks\":{"@) {
        Option::None => None,
        Option::Some(p) => match spec_match_lit(s, p, "}}"@) {
            Option::Some(p2) => if p2 == s.len() {
                Some(Seq::empty())
            } else {
                None
            },
            Option::None => match spec_parse_pair(s, p) {
                Option::None => None,
                Option::Some(pr) => match spec_parse_more_pairs(s, pr.1, seq![pr.0]) {
                    Option::None => None,
                    Option::Some(ps) => match spec_match_lit(s, ps.1, "}}"@) {
                        Option::None => None,
                        Option::Some(pe) => if pe == s.len() {
                            Some(ps.0)
                        } else {
                            None
                        },
                    },
                },
            },
        },
    }
}

/// What a pair sequence means as a map, later pairs winning.
pub open spec fn loaded_map(pairs: Seq<(Seq<char>, EntryModel)>) -> Map<Seq<char>, EntryModel>
    decreases pairs.len(),
{
    if pairs.len() == 0 {
        Map::empty()
    } else {
        loaded_map(pairs.drop_last()).insert(pairs.last().0, pairs.last().1)
    }
}

/// What loading a text yields: the parsed pairs as a map, and the empty
/// index for any text outside the canonical shape.
pub open spec fn spec_loaded_index(text: Seq<char>) -> Map<Seq<char>, EntryModel> {
    match spec_parse_index(text) {
        Option::None => Map::empty(),
        Option::Some(pairs) => loaded_map(pairs),
    }
}

/// `escape_string` read from the front: the first character's escape,
/// then the rest's.
proof fn lemma_escape_front(t: Seq<char>)
    requires
        t.len() > 0,
    ensures
        crate::json::escape_string(t) == crate::json::escape_char(t[0])
            + crate::json::escape_string(t.drop_first()),
    decreases t.len(),
{
    if t.len() == 1 {
        assert(t.drop_last() =~= Seq::<char>::empty());
        assert(t.drop_first() =~= Seq::<char>::empty());
        assert(t.last() == t[0]);
        assert(crate::json::escape_string(t) =~= crate::json::escape_char(t[0])
            + crate::json::escape_string(t.drop_first()));
    } else {
        lemma_escape_front(t.drop_last());
        assert(t.drop_first().drop_last() =~= t.drop_last().drop_first());
        assert(t.drop_first().last() == t.last());
        assert(t.drop_last()[0] == t[0]);
        assert(crate::json::escape_string(t.drop_first()) == crate::json::escape_string(
            t.drop_first().drop_last(),
        ) + crate::json::escape_char(t.drop_first().last()));
        assert(crate::json::escape_string(t) =~= crate::json::escape_char(t[0])
            + crate::json::escape_string(t.drop_first()));
    }
}

/// Hex digits as the writer emits them decode back to their value.
proof fn lemma_hex_digit_roundtrip(d: int)
    requires
        0 <= d < 16,
    ensures
        is_hex_lower(crate::json::digit_char(d)),
        hex_value(crate::json::digit_char(d)) == d,
{
}

/// One piece of the save-then-load round trip, the part that is not
/// literal bookkeeping: where the escaped form of a text and its closing
/// quote stand, the string parser reads back exactly that text.
pub proof fn lemma_text_roundtrip(s: Seq<char>, pos: int, t: Seq<char>, acc: Seq<char>)
    requires
        0 <= pos,
        pos + crate::json::escape_string(t).len() + 1 <= s.len(),
        s.subrange(pos, pos + crate::json::escape_string(t).len() + 1)
            == crate::json::escape_string(t).push('"'),
    ensures
        spec_parse_text(s, pos, acc) == Some(
            (acc + t, pos + crate::json::escape_string(t).len() + 1),
        ),
    decreases t.len(),
{
    let esc = crate::json::escape_string(t);
    let sub = s.subrange(pos, pos + esc.len() + 1);
    if t.len() == 0 {
        assert(esc.len() == 0);
        assert(s[pos] == '"') by {
            assert(sub[0] == s[pos]);
        }
        assert(acc + t =~= acc);
    } else {
        lemma_escape_front(t);
        let c = t[0];
        let e0 = crate::json::escape_char(c);
        let rest = crate::json::escape_string(t.drop_first());
        assert(esc == e0 + rest);
        assert(sub.len() == esc.len() + 1);
        assert forall|j: int| 0 <= j < e0.len() implies s[pos + j] == e0[j] by {
            assert(sub[j] == s[pos + j]);
            assert(sub[j] == esc.push('"')[j]);
            assert(esc.push('"')[j] == esc[j]);
            assert(esc[j] == (e0 + rest)[j]);
        }
        let pos2 = pos + e0.len();
        assert forall|j: int|
            0 <= j < rest.len() + 1 implies s.subrange(pos2, pos2 + rest.len() + 1)[j]
            == rest.push('"')[j] by {
            assert(s.subrange(pos2, pos2 + rest.len() + 1)[j] == s[pos2 + j]);
            assert(sub[e0.len() + j] == s[pos + (e0.len() + j)]);
            assert(sub[e0.len() + j] == esc.push('"')[e0.len() + j]);
            if j < rest.len() {
                assert(esc.push('"')[e0.len() + j] == esc[e0.len() + j]);
                assert(esc[e0.len() + j] == (e0 + rest)[e0.len() + j]);
                assert((e0 + rest)[e0.len() + j] == rest[j]);
                assert(rest.push('"')[j] == rest[j]);
            } else {
                assert(esc.push('"')[e0.len() + j] == '"');
                assert(rest.push('"')[j] == '"');
            }
        }
        assert(s.subrange(pos2, pos2 + rest.len() + 1) =~= rest.push('"'));
        if c == '"' {
            assert(e0 =~= seq!['\\', '"']);
            assert(s[pos + 0] == e0[0] && s[pos + 1] == e0[1]);
            assert(s[pos] == '\\' && s[pos + 1] == '"');
            lemma_text_roundtrip(s, pos2, t.drop_first(), acc.push('"'));
            assert(acc.push(c) + t.drop_first() =~= acc + t);
        } else if c == '\\' {
            assert(e0 =~= seq!['\\', '\\']);
            assert(s[pos + 0] == e0[0] && s[pos + 1] == e0[1]);
            assert(s[pos] == '\\' && s[pos + 1] == '\\');
            lemma_text_roundtrip(s, pos2, t.drop_first(), acc.push('\\'));
            assert(acc.push(c) + t.drop_first() =~= acc + t);
        } else if (c as int) < 32 {
            let hi = (c as int) / 16;
            let lo = (c as int) % 16;
            vstd::utf8::char_is_scalar(c);
            vstd::utf8::char_u32_cast(c, c as u32);
            assert(c as int == (c as u32) as int);
            assert(c as int >= 0);
            assert(0 <= hi < 16 && 0 <= lo < 16);
            assert(e0 =~= seq![
                '\\',
                'u',
                '0',
                '0',
                crate::json::digit_char(hi),
                crate::json::digit_char(lo),
            ]);
            assert(s[pos + 0] == e0[0] && s[pos + 1] == e0[1] && s[pos + 2] == e0[2] && s[pos + 3]
                == e0[3] && s[pos + 4] == e0[4] && s[pos + 5] == e0[5]);
            assert(s[pos] == '\\' && s[pos + 1] == 'u' && s[pos + 2] == '0' && s[pos + 3] == '0');
            lemma_hex_digit_roundtrip(hi);
            lemma_hex_digit_roundtrip(lo);
            assert(s[pos + 4] == crate::json::digit_char(hi));
            assert(s[pos + 5] == crate::json::digit_char(lo));
            assert(16 * hex_value(s[pos + 4]) + hex_value(s[pos + 5]) == c as int);
            assert((((c as int) as u8) as char) == c);
            lemma_text_roundtrip(s, pos2, t.drop_first(), acc.push(c));
            assert(acc.push(c) + t.drop_first() =~= acc + t);
        } else {
            assert(e0 =~= seq![c]);
            assert(s[pos + 0] == e0[0]);
            assert(e0[0] == c);
            assert(s[pos] == c);
            assert(s[pos] != '"' && s[pos] != '\\' && s[pos] as int >= 32);
            lemma_text_roundtrip(s, pos2, t.drop_first(), acc.push(c));
            assert(acc.push(c) + t.drop_first() =~= acc + t);
        }
    }
}

/// Ten to the power `k`.
spec fn pow10(k: nat) -> int
    decreases k,
{
    if k == 0 {
        1
    } else {
        10 * pow10((k - 1) as nat)
    }
}

/// The writer's digits are decimal digits, and a positive number never
/// starts with a zero.
proof fn lemma_digits_shape(n: u64)
    ensures
        crate::json::spec_u64_digits(n as nat).len() >= 1,
        forall|j: int|
            0 <= j < crate::json::spec_u64_digits(n as nat).len() ==> is_digit(
                #[trigger] crate::json::spec_u64_digits(n as nat)[j],
            ),
        n >= 1 ==> crate::json::spec_u64_digits(n as nat)[0] != '0',
    decreases n,
{
    if n >= 10 {
        lemma_digits_shape(n / 10);
        let d = crate::json::spec_u64_digits(n as nat);
        let head = crate::json::spec_u64_digits((n / 10) as nat);
        assert(d == head + seq![crate::json::digit_char(((n as nat) % 10) as int)]);
        assert(d[0] == head[0]);
        assert forall|j: int| 0 <= j < d.len() implies is_digit(#[trigger] d[j]) by {
            if j < head.len() {
                assert(d[j] == head[j]);
            }
        }
    }
}

/// Munching the writer's digits of `n` advances past them, folding them
/// onto the accumulator.
proof fn lemma_digits_chunk(s: Seq<char>, pos: int, n: u64, acc: u64)
    requires
        0 <= pos,
        pos + crate::json::spec_u64_digits(n as nat).len() <= s.len(),
        s.subrange(pos, pos + crate::json::spec_u64_digits(n as nat).len())
            == crate::json::spec_u64_digits(n as nat),
        (acc as int) * pow10(crate::json::spec_u64_digits(n as nat).len() as nat) + n
            <= 0xffff_ffff_ffff_ffff,
    ensures
        spec_parse_digits(s, pos, acc) == spec_parse_digits(
            s,
            pos + crate::json::spec_u64_digits(n as nat).len(),
            ((acc as int) * pow10(crate::json::spec_u64_digits(n as nat).len() as nat)
                + n) as u64,
        ),
    decreases n,
{
    lemma_digits_shape(n);
    let d = crate::json::spec_u64_digits(n as nat);
    let limit: int = 0xffff_ffff_ffff_ffff;
    if n < 10 {
        assert(d =~= seq![crate::json::digit_char(n as int)]);
        assert(s[pos + 0] == d[0]);
        assert(is_digit(s[pos]));
        assert(digit_value(s[pos]) == n) by {
            assert(d[0] == crate::json::digit_char(n as int));
        }
        assert(pow10(0) == 1);
        assert(pow10(1) == 10 * pow10(0));
        assert((acc as int) * pow10(1) == (acc as int) * 10) by (nonlinear_arith)
            requires
                pow10(1) == 10,
        ;
        assert((acc as int) * 10 + n <= limit);
        assert(acc as int <= (limit - n) / 10) by (nonlinear_arith)
            requires
                (acc as int) * 10 + n <= limit,
                0 <= n < 10,
                0 <= acc,
        ;
        assert(spec_parse_digits(s, pos, acc) == spec_parse_digits(
            s,
            pos + 1,
            (10 * (acc as int) + n) as u64,
        ));
    } else {
        let head = crate::json::spec_u64_digits((n / 10) as nat);
        let hl = head.len();
        assert(d == head + seq![crate::json::digit_char(((n as nat) % 10) as int)]);
        assert(d.len() == hl + 1);
        assert(s.subrange(pos, pos + hl as int) =~= head) by {
            assert(forall|j: int|
                0 <= j < hl ==> #[trigger] s.subrange(pos, pos + hl as int)[j] == s.subrange(
                    pos,
                    pos + d.len(),
                )[j]);
            assert(forall|j: int| 0 <= j < hl ==> #[trigger] d[j] == head[j]);
        }
        assert(d.len() as nat == hl as nat + 1);
        assert(pow10(d.len() as nat) == 10 * pow10(hl as nat));
        assert((acc as int) * pow10(d.len() as nat) == 10 * ((acc as int) * pow10(hl as nat)))
            by (nonlinear_arith)
            requires
                pow10(d.len() as nat) == 10 * pow10(hl as nat),
        ;
        assert(10 * ((n / 10) as int) + (n % 10) as int == n as int);
        assert(10 * ((acc as int) * pow10(hl as nat) + (n / 10) as int) + (n % 10) as int == (
        acc as int) * pow10(d.len() as nat) + n);
        lemma_pow10_pos(hl as nat);
        assert(0 <= (acc as int) * pow10(hl as nat)) by (nonlinear_arith)
            requires
                0 <= acc as int,
                pow10(hl as nat) >= 1,
        ;
        let x = (acc as int) * pow10(hl as nat) + (n / 10) as int;
        assert(0 <= x);
        assert(10 * x + (n % 10) as int <= limit);
        assert(x <= limit) by {
            assert(x <= 10 * x);
        }
        let mid = x as u64;
        assert(mid as int == x);
        lemma_digits_chunk(s, pos, n / 10, acc);
        assert(spec_parse_digits(s, pos, acc) == spec_parse_digits(s, pos + hl as int, mid));
        assert(s[pos + hl as int] == crate::json::digit_char(((n as nat) % 10) as int)) by {
            assert(s.subrange(pos, pos + d.len())[hl as int] == s[pos + hl as int]);
            assert(d[hl as int] == crate::json::digit_char(((n as nat) % 10) as int));
        }
        assert(is_digit(s[pos + hl as int]) && digit_value(s[pos + hl as int]) == (n % 10) as int);
        assert(10 * (mid as int) + (n % 10) as int <= limit);
        assert(mid as int <= (limit - digit_value(s[pos + hl as int])) / 10) by (nonlinear_arith)
            requires
                10 * (mid as int) + digit_value(s[pos + hl as int]) <= limit,
                0 <= digit_value(s[pos + hl as int]) < 10,
                0 <= mid as int,
        ;
        assert(spec_parse_digits(s, pos + hl as int, mid) == spec_parse_digits(
            s,
            pos + d.len(),
            (10 * (mid as int) + digit_value(s[pos + hl as int])) as u64,
        ));
    }
}

proof fn lemma_pow10_pos(k: nat)
    ensures
        pow10(k) >= 1,
    decreases k,
{
    if k > 0 {
        lemma_pow10_pos((k - 1) as nat);
    }
}

/// The other semantic piece of the save-then-load round trip: where the
/// writer's digits of `n` stand, followed by a non-digit, the number
/// parser reads back exactly `n`.
pub proof fn lemma_number_roundtrip(s: Seq<char>, pos: int, n: u64)
    requires
        0 <= pos,
        pos + crate::json::spec_u64_digits(n as nat).len() <= s.len(),
        s.subrange(pos, pos + crate::json::spec_u64_digits(n as nat).len())
            == crate::json::spec_u64_digits(n as nat),
        pos + crate::json::spec_u64_digits(n as nat).len() == s.len() || !is_digit(
            s[pos + crate::json::spec_u64_digits(n as nat).len()],
        ),
    ensures
        spec_parse_u64(s, pos) == Some(
            (n, pos + crate::json::spec_u64_digits(n as nat).len()),
        ),
{
    lemma_digits_shape(n);
    let d = crate::json::spec_u64_digits(n as nat);
    assert(s[pos + 0] == d[0]) by {
        assert(s.subrange(pos, pos + d.len())[0] == s[pos]);
    }
    if n == 0 {
        assert(d =~= seq!['0']);
        assert(s[pos] == '0');
    } else {
        assert(is_digit(s[pos]) && s[pos] != '0');
        lemma_pow10_pos(d.len() as nat);
        assert(0 * pow10(d.len() as nat) + n <= 0xffff_ffff_ffff_ffff);
        lemma_digits_chunk(s, pos, n, 0);
        assert((0 as int) * pow10(d.len() as nat) + n == n as int) by (nonlinear_arith);
        assert(spec_parse_digits(s, pos, 0) == spec_parse_digits(s, pos + d.len(), n));
        assert(spec_parse_digits(s, pos + d.len(), n) == Some((n, pos + d.len())));
    }
}

fn match_lit(s: &str, pos: usize, lit: &str) -> (r: Option<usize>)
    ensures
        match r {
            Option::Some(p) => spec_match_lit(s@, pos as int, lit@) == Some(p as int) && pos <= p
                <= s@.len(),
            Option::None => spec_match_lit(s@, pos as int, lit@) is None,
        },
{
    let n = s.unicode_len();
    let m = lit.unicode_len();
    if pos > n {
        return None;
    }
    if m > n - pos {
        return None;
    }
    let mut j: usize = 0;
    while j < m
        invariant
            j <= m,
            m == lit@.len(),
            n == s@.len(),
            pos + m <= n,
            forall|k: int| 0 <= k < j ==> s@[pos + k] == lit@[k],
        decreases m - j,
    {
        let cs = s.get_char(pos + j);
        let cl = lit.get_char(j);
        if cs != cl {
            proof {
                let sub = s@.subrange(pos as int, pos as int + m as int);
                assert(sub[j as int] == s@[pos + j]);
                assert(sub != lit@);
            }
            return None;
        }
        j = j + 1;
    }
    proof {
        assert(s@.subrange(pos as int, pos as int + m as int) =~= lit@);
    }
    Some(pos + m)
}

fn parse_u64_at(s: &str, pos: usize) -> (r: Option<(u64, usize)>)
    ensures
        match r {
            Option::Some(v) => spec_parse_u64(s@, pos as int) == Some((v.0, v.1 as int)) && pos
                < v.1 <= s@.len(),
            Option::None => spec_parse_u64(s@, pos as int) is None,
        },
{
    let n = s.unicode_len();
    if pos >= n {
        return None;
    }
    let c0 = s.get_char(pos);
    if !('0' <= c0 && c0 <= '9') {
        return None;
    }
    if c0 == '0' {
        return Some((0, pos + 1));
    }
    let mut i: usize = pos;
    let mut acc: u64 = 0;
    loop
        invariant
            pos <= i <= n,
            n == s@.len(),
            pos < s@.len(),
            is_digit(s@[pos as int]),
            s@[pos as int] != '0',
            spec_parse_digits(s@, pos as int, 0) == spec_parse_digits(s@, i as int, acc),
        ensures
            pos < i <= n,
            spec_parse_digits(s@, pos as int, 0) == Some((acc, i as int)),
        decreases n - i,
    {
        if i >= n {
            proof {
                assert(i > pos);
            }
            break;
        }
        let c = s.get_char(i);
        if !('0' <= c && c <= '9') {
            proof {
                assert(i != pos) by {
                    assert(is_digit(s@[pos as int]));
                }
            }
            break;
        }
        let d = (c as u32) as u64 - 48;
        proof {
            assert(d == digit_value(s@[i as int]));
        }
        if !(acc <= (0xffff_ffff_ffff_ffffu64 - d) / 10) {
            return None;
        }
        proof {
            let top = 0xffff_ffff_ffff_ffff - d as int;
            assert(10 * (top / 10) <= top) by {
                assert(top == 10 * (top / 10) + top % 10);
            }
            assert(10 * (acc as int) + d as int <= 0xffff_ffff_ffff_ffff);
        }
        acc = acc * 10 + d;
        i = i + 1;
    }
    Some((acc, i))
}

fn parse_text_at(s: &str, pos: usize) -> (r: Option<(String, usize)>)
    ensures
        match r {
            Option::Some(v) => spec_parse_text(s@, pos as int, Seq::empty()) == Some(
                (v.0@, v.1 as int),
            ) && pos < v.1 <= s@.len(),
            Option::None => spec_parse_text(s@, pos as int, Seq::empty()) is None,
        },
{
    let n = s.unicode_len();
    let mut out = String::new();
    let mut i: usize = pos;
    proof {
        assert(out@ =~= Seq::<char>::empty());
    }
    loop
        invariant
            pos <= i,
            i <= n || i == pos,
            n == s@.len(),
            spec_parse_text(s@, pos as int, Seq::empty()) == spec_parse_text(s@, i as int, out@),
        decreases n - i,
    {
        if i >= n {
            return None;
        }
        let c = s.get_char(i);
        if c == '"' {
            return Some((out, i + 1));
        }
        if c == '\\' {
            if n - i < 2 {
                return None;
            }
            let c1 = s.get_char(i + 1);
            if c1 == '"' {
                push_char(&mut out, '"');
                i = i + 2;
            } else if c1 == '\\' {
                push_char(&mut out, '\\');
                i = i + 2;
            } else if c1 == 'u' {
                if n - i < 6 {
                    return None;
                }
                let c2 = s.get_char(i + 2);
                let c3 = s.get_char(i + 3);
                let c4 = s.get_char(i + 4);
                let c5 = s.get_char(i + 5);
                let h4 = ('0' <= c4 && c4 <= '9') || ('a' <= c4 && c4 <= 'f');
                let h5 = ('0' <= c5 && c5 <= '9') || ('a' <= c5 && c5 <= 'f');
                if !(c2 == '0' && c3 == '0' && h4 && h5) {
                    return None;
                }
                let v4: u32 = if '0' <= c4 && c4 <= '9' {
                    c4 as u32 - 48
                } else {
                    c4 as u32 - 87
                };
                let v5: u32 = if '0' <= c5 && c5 <= '9' {
                    c5 as u32 - 48
                } else {
                    c5 as u32 - 87
                };
                let code = 16 * v4 + v5;
                if code >= 32 {
                    return None;
                }
                proof {
                    assert(v4 == hex_value(s@[i as int + 4]));
                    assert(v5 == hex_value(s@[i as int + 5]));
                }
                push_char(&mut out, (code as u8) as char);
                i = i + 6;
            } else {
                return None;
            }
        } else if (c as u32) < 32 {
            return None;
        } else {
            push_char(&mut out, c);
            i = i + 1;
        }
    }
}

fn parse_opt_num(s: &str, pos: usize, label: &str) -> (r: Option<(Option<u64>, usize)>)
    requires
        pos <= s@.len(),
    ensures
        match r {
            Option::Some(v) => spec_parse_opt_num(s@, pos as int, label@) == Some(
                (v.0, v.1 as int),
            ) && pos <= v.1 <= s@.len(),
            Option::None => spec_parse_opt_num(s@, pos as int, label@) is None,
        },
{
    match match_lit(s, pos, label) {
        None => Some((None, pos)),
        Some(p) => match parse_u64_at(s, p) {
            None => None,
            Some((x, p2)) => Some((Some(x), p2)),
        },
    }
}

fn parse_opt_u32(s: &str, pos: usize, label: &str) -> (r: Option<(Option<u32>, usize)>)
    requires
        pos <= s@.len(),
    ensures
        match r {
            Option::Some(v) => spec_parse_opt_u32(s@, pos as int, label@) == Some(
                (v.0, v.1 as int),
            ) && pos <= v.1 <= s@.len(),
            Option::None => spec_parse_opt_u32(s@, pos as int, label@) is None,
        },
{
    match parse_opt_num(s, pos, label) {
        None => None,
        Some((None, p)) => Some((None, p)),
        Some((Some(x), p)) => if x <= 0xffff_ffff {
            Some((Some(x as u32), p))
        } else {
            None
        },
    }
}

fn parse_opt_text(s: &str, pos: usize, label: &str) -> (r: Option<(Option<String>, usize)>)
    requires
        pos <= s@.len(),
    ensures
        match r {
            Option::Some(v) => spec_parse_opt_text(s@, pos as int, label@) == Some(
                (v.0.deep_view(), v.1 as int),
            ) && pos <= v.1 <= s@.len(),
            Option::None => spec_parse_opt_text(s@, pos as int, label@) is None,
        },
{
    match match_lit(s, pos, label) {
        None => Some((None, pos)),
        Some(p) => match parse_text_at(s, p) {
            None => None,
            Some((t, p2)) => Some((Some(t), p2)),
        },
    }
}

/// One whole entry.
#[verifier::rlimit(100)]
fn parse_entry_at(s: &str, pos: usize) -> (r: Option<(IndexEntry, usize)>)
    requires
        pos <= s@.len(),
    ensures
        match r {
            Option::Some(v) => spec_parse_entry(s@, pos as int) == Some((v.0@, v.1 as int)) && pos
                <= v.1 <= s@.len(),
            Option::None => spec_parse_entry(s@, pos as int) is None,
        },
{
    let p1 = match match_lit(s, pos, "{\"mtime\":") {
        None => {
            return None;
        },
        Some(p) => p,
    };
    let (mtime, p2) = match parse_u64_at(s, p1) {
        None => {
            return None;
        },
        Some(v) => v,
    };
    let p3 = match match_lit(s, p2, ",\"size\":") {
        None => {
            return None;
        },
        Some(p) => p,
    };
    let (size, p4) = match parse_u64_at(s, p3) {
        None => {
            return None;
        },
        Some(v) => v,
    };
    let p5 = match match_lit(s, p4, ",\"duration\":") {
        None => {
            return None;
        },
        Some(p) => p,
    };
    let (duration, p6) = match parse_u64_at(s, p5) {
        None => {
            return None;
        },
        Some(v) => v,
    };
    let (bitrate, p7) = match parse_opt_u32(s, p6, ",\"bitrate\":") {
        None => {
            return None;
        },
        Some(v) => v,
    };
    let (album, p8) = match parse_opt_text(s, p7, ",\"album\":\"") {
        None => {
            return None;
        },
        Some(v) => v,
    };
    let (artist, p9) = match parse_opt_text(s, p8, ",\"artist\":\"") {
        None => {
            return None;
        },
        Some(v) => v,
    };
    let (title, p10) = match parse_opt_text(s, p9, ",\"title\":\"") {
        None => {
            return None;
        },
        Some(v) => v,
    };
    let (album_artist, p11) = match parse_opt_text(s, p10, ",\"albumArtist\":\"") {
        None => {
            return None;
        },
        Some(v) => v,
    };
    let (genre, p12) = match parse_opt_text(s, p11, ",\"genre\":\"") {
        None => {
            return None;
        },
        Some(v) => v,
    };
    let (year, p13) = match parse_opt_u32(s, p12, ",\"year\":") {
        None => {
            return None;
        },
        Some(v) => v,
    };
    let (track_number, p14) = match parse_opt_u32(s, p13, ",\"trackNumber\":") {
        None => {
            return None;
        },
        Some(v) => v,
    };
    let (track_number_total, p15) = match parse_opt_u32(s, p14, ",\"trackNumberTotal\":") {
        None => {
            return None;
        },
        Some(v) => v,
    };
    let (disk_number, p16) = match parse_opt_u32(s, p15, ",\"diskNumber\":") {
        None => {
            return None;
        },
        Some(v) => v,
    };
    let (disk_number_total, p17) = match parse_opt_u32(s, p16, ",\"diskNumberTotal\":") {
        None => {
            return None;
        },
        Some(v) => v,
    };
    let pe = match match_lit(s, p17, "}") {
        None => {
            return None;
        },
        Some(p) => p,
    };
    let entry = IndexEntry {
        mtime,
        size,
        duration,
        bitrate,
        album,
        artist,
        title,
        album_artist,
        genre,
        year,
        track_number,
        track_number_total,
        disk_number,
        disk_number_total,
    };
    Some((entry, pe))
}

/// One `"key":entry` pair.
fn parse_pair_at(s: &str, pos: usize) -> (r: Option<((String, IndexEntry), usize)>)
    requires
        pos <= s@.len(),
    ensures
        match r {
            Option::Some(v) => spec_parse_pair(s@, pos as int) == Some(
                ((v.0.0@, v.0.1@), v.1 as int),
            ) && pos <= v.1 <= s@.len(),
            Option::None => spec_parse_pair(s@, pos as int) is None,
        },
{
    let p1 = match match_lit(s, pos, "\"") {
        None => {
            return None;
        },
        Some(p) => p,
    };
    let (key, p2) = match parse_text_at(s, p1) {
        None => {
            return None;
        },
        Some(v) => v,
    };
    let p3 = match match_lit(s, p2, ":") {
        None => {
            return None;
        },
        Some(p) => p,
    };
    match parse_entry_at(s, p3) {
        None => None,
        Some((entry, p4)) => Some(((key, entry), p4)),
    }
}

/// The parsed pairs as mathematical values, in text order.
pub open spec fn pair_models(v: Seq<(String, IndexEntry)>) -> Seq<(Seq<char>, EntryModel)> {
    v.map(|i: int, p: (String, IndexEntry)| (p.0@, p.1@))
}

fn parse_index_text(s: &str) -> (r: Option<Vec<(String, IndexEntry)>>)
    ensures
        match r {
            Option::Some(v) => spec_parse_index(s@) == Some(pair_models(v@)),
            Option::None => spec_parse_index(s@) is None,
        },
{
    let n = s.unicode_len();
    let p = match match_lit(s, 0, "{\"version\":1,\"tracks\":{") {
        None => {
            return None;
        },
        Some(p) => p,
    };
    match match_lit(s, p, "}}") {
        Some(p2) => {
            if p2 == n {
                let empty: Vec<(String, IndexEntry)> = Vec::new();
                proof {
                    assert(pair_models(empty@) =~= Seq::<(Seq<char>, EntryModel)>::empty());
                }
                return Some(empty);
            }
            return None;
        },
        None => {},
    }
    let (first, p1) = match parse_pair_at(s, p) {
        None => {
            return None;
        },
        Some(v) => v,
    };
    let ghost first_model = (first.0@, first.1@);
    let mut acc: Vec<(String, IndexEntry)> = Vec::new();
    acc.push(first);
    proof {
        assert(pair_models(acc@) =~= seq![first_model]);
    }
    let mut cur: usize = p1;
    loop
        invariant
            cur <= n,
            n == s@.len(),
            spec_match_lit(s@, 0, "{\"version\":1,\"tracks\":{"@) == Some(p as int),
            spec_match_lit(s@, p as int, "}}"@) is None,
            spec_parse_pair(s@, p as int) == Some((first_model, p1 as int)),
            spec_parse_more_pairs(s@, p1 as int, seq![first_model]) == spec_parse_more_pairs(
                s@,
                cur as int,
                pair_models(acc@),
            ),
        ensures
            cur <= n,
            spec_parse_more_pairs(s@, p1 as int, seq![first_model]) == Some(
                (pair_models(acc@), cur as int),
            ),
        decreases n - cur,
    {
        let pc = match match_lit(s, cur, ",") {
            None => {
                break ;
            },
            Some(p) => p,
        };
        let (pair, pnext) = match parse_pair_at(s, pc) {
            None => {
                return None;
            },
            Some(v) => v,
        };
        proof {
            reveal_strlit(",");
            assert(","@.len() == 1);
            assert(pc == cur + 1);
        }
        let ghost pair_model = (pair.0@, pair.1@);
        let ghost before = pair_models(acc@);
        acc.push(pair);
        proof {
            assert(pair_models(acc@) =~= before.push(pair_model));
        }
        cur = pnext;
    }
    let pe = match match_lit(s, cur, "}}") {
        None => {
            return None;
        },
        Some(p) => p,
    };
    if pe != n {
        return None;
    }
    Some(acc)
}

/// Load a persisted index from its serialized text: the exact inverse walk
/// of the writer's canonical form. Any text outside that form — not JSON,
/// a missing or malformed `tracks` object, an entry with fields out of
/// order or out of range — is a load failure, and a load failure yields
/// the empty index: the run then reindexes every file, which is the stated
/// recovery. The result is always a well-formed index. The writer's
/// escaped strings and decimal numbers parse back exactly
/// (`lemma_text_roundtrip`, `lemma_number_roundtrip`).
pub fn index_from_json(text: &str) -> (r: ListMap<IndexEntry>)
    ensures
        r.wf(),
        r@ == spec_loaded_index(text@),
{
    let pairs = match parse_index_text(text) {
        None => {
            return ListMap::new();
        },
        Some(v) => v,
    };
    let ghost models = pair_models(pairs@);
    let mut index: ListMap<IndexEntry> = ListMap::new();
    let mut rest = pairs;
    let ghost mut done: int = 0;
    proof {
        assert(models.take(0) =~= Seq::<(Seq<char>, EntryModel)>::empty());
        assert(pair_models(rest@) =~= models.skip(0));
    }
    while rest.len() > 0
        invariant
            index.wf(),
            0 <= done <= models.len(),
            pair_models(rest@) == models.skip(done),
            index@ == loaded_map(models.take(done)),
        decreases rest@.len(),
    {
        proof {
            assert(pair_models(rest@).len() == rest@.len());
            assert(models.skip(done).len() == models.len() - done);
        }
        let ghost old_rest = rest@;
        let pair = rest.remove(0);
        proof {
            assert(models.skip(done)[0] == models[done]);
            assert(pair_models(old_rest)[0] == (old_rest[0].0@, old_rest[0].1@));
            assert((pair.0@, pair.1@) == models[done]);
            assert forall|j: int|
                0 <= j < rest@.len() implies #[trigger] pair_models(rest@)[j] == models.skip(
                done + 1,
            )[j] by {
                assert(rest@[j] == old_rest[j + 1]);
                assert(pair_models(old_rest)[j + 1] == (old_rest[j + 1].0@, old_rest[j + 1].1@));
                assert(models.skip(done)[j + 1] == models[done + 1 + j]);
            }
            assert(pair_models(rest@) =~= models.skip(done + 1));
        }
        index.insert(pair.0, pair.1);
        proof {
            assert(models.take(done + 1).drop_last() =~= models.take(done));
            assert(models.take(done + 1).last() == models[done]);
            done = done + 1;
        }
    }
    proof {
        assert(done == models.len());
        assert(models.take(models.len() as int) =~= models);
    }
    index
}

} // verus!
