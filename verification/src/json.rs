use vstd::prelude::*;

use crate::entry::{EntryModel, IndexEntry};
use crate::listmap::{lemma_sorted_canonical, row_models, ListMap};

verus! {

/// The decimal (or hexadecimal) digit characters.
pub open spec fn digit_char(d: int) -> char {
    if d == 0 {
        '0'
    } else if d == 1 {
        '1'
    } else if d == 2 {
        '2'
    } else if d == 3 {
        '3'
    } else if d == 4 {
        '4'
    } else if d == 5 {
        '5'
    } else if d == 6 {
        '6'
    } else if d == 7 {
        '7'
    } else if d == 8 {
        '8'
    } else if d == 9 {
        '9'
    } else if d == 10 {
        'a'
    } else if d == 11 {
        'b'
    } else if d == 12 {
        'c'
    } else if d == 13 {
        'd'
    } else if d == 14 {
        'e'
    } else {
        'f'
    }
}

/// A number's decimal digits, most significant first.
pub open spec fn spec_u64_digits(n: nat) -> Seq<char>
    decreases n,
{
    if n < 10 {
        seq![digit_char(n as int)]
    } else {
        spec_u64_digits(n / 10) + seq![digit_char((n % 10) as int)]
    }
}

/// Append one digit character.
fn push_digit(out: &mut String, d: u64)
    requires
        d < 16,
    ensures
        final(out)@ == old(out)@ + seq![digit_char(d as int)],
{
    if d == 0 {
        out.append("0");
        proof {
            reveal_strlit("0");
            assert("0"@ =~= seq![digit_char(d as int)]);
        }
    } else if d == 1 {
        out.append("1");
        proof {
            reveal_strlit("1");
            assert("1"@ =~= seq![digit_char(d as int)]);
        }
    } else if d == 2 {
        out.append("2");
        proof {
            reveal_strlit("2");
            assert("2"@ =~= seq![digit_char(d as int)]);
        }
    } else if d == 3 {
        out.append("3");
        proof {
            reveal_strlit("3");
            assert("3"@ =~= seq![digit_char(d as int)]);
        }
    } else if d == 4 {
        out.append("4");
        proof {
            reveal_strlit("4");
            assert("4"@ =~= seq![digit_char(d as int)]);
        }
    } else if d == 5 {
        out.append("5");
        proof {
            reveal_strlit("5");
            assert("5"@ =~= seq![digit_char(d as int)]);
        }
    } else if d == 6 {
        out.append("6");
        proof {
            reveal_strlit("6");
            assert("6"@ =~= seq![digit_char(d as int)]);
        }
    } else if d == 7 {
        out.append("7");
        proof {
            reveal_strlit("7");
            assert("7"@ =~= seq![digit_char(d as int)]);
        }
    } else if d == 8 {
        out.append("8");
        proof {
            reveal_strlit("8");
            assert("8"@ =~= seq![digit_char(d as int)]);
        }
    } else if d == 9 {
        out.append("9");
        proof {
            reveal_strlit("9");
            assert("9"@ =~= seq![digit_char(d as int)]);
        }
    } else if d == 10 {
        out.append("a");
        proof {
            reveal_strlit("a");
            assert("a"@ =~= seq![digit_char(d as int)]);
        }
    } else if d == 11 {
        out.append("b");
        proof {
            reveal_strlit("b");
            assert("b"@ =~= seq![digit_char(d as int)]);
        }
    } else if d == 12 {
        out.append("c");
        proof {
            reveal_strlit("c");
            assert("c"@ =~= seq![digit_char(d as int)]);
        }
    } else if d == 13 {
        out.append("d");
        proof {
            reveal_strlit("d");
            assert("d"@ =~= seq![digit_char(d as int)]);
        }
    } else if d == 14 {
        out.append("e");
        proof {
            reveal_strlit("e");
            assert("e"@ =~= seq![digit_char(d as int)]);
        }
    } else {
        out.append("f");
        proof {
            reveal_strlit("f");
            assert("f"@ =~= seq![digit_char(d as int)]);
        }
    }
}

/// Append a number in decimal, most significant digit first.
fn push_u64(out: &mut String, n: u64)
    ensures
        final(out)@ == old(out)@ + spec_u64_digits(n as nat),
    decreases n,
{
    if n >= 10 {
        push_u64(out, n / 10);
    }
    push_digit(out, n % 10);
}

/// A number as decimal text.
pub fn u64_string(n: u64) -> (r: String)
    ensures
        r@ == spec_u64_digits(n as nat),
{
    let mut out = String::new();
    push_u64(&mut out, n);
    proof {
        assert(out@ =~= spec_u64_digits(n as nat));
    }
    out
}

/// Relies on String::push from std: it appends exactly the one character.
#[verifier::external_body]
pub(crate) fn push_char(out: &mut String, c: char)
    ensures
        final(out)@ == old(out)@.push(c),
{
    out.push(c);
}

/// How one character appears inside a JSON string: quote and backslash are
/// escaped, control characters take the four-digit escape, everything else
/// stands as itself.
pub open spec fn escape_char(c: char) -> Seq<char> {
    if c == '"' {
        seq!['\\', '"']
    } else if c == '\\' {
        seq!['\\', '\\']
    } else if (c as int) < 32 {
        seq!['\\', 'u', '0', '0', digit_char((c as int) / 16), digit_char((c as int) % 16)]
    } else {
        seq![c]
    }
}

/// A whole text, escaped character by character.
pub open spec fn escape_string(s: Seq<char>) -> Seq<char>
    decreases s.len(),
{
    if s.len() == 0 {
        Seq::empty()
    } else {
        escape_string(s.drop_last()) + escape_char(s.last())
    }
}

/// Append a text in its escaped form.
fn push_escaped(out: &mut String, s: &str)
    ensures
        final(out)@ == old(out)@ + escape_string(s@),
{
    let n = s.unicode_len();
    let mut i: usize = 0;
    proof {
        assert(s@.take(0) =~= Seq::<char>::empty());
        assert(out@ =~= out@ + escape_string(s@.take(0)));
    }
    while i < n
        invariant
            i <= n,
            n == s@.len(),
            out@ == old(out)@ + escape_string(s@.take(i as int)),
        decreases n - i,
    {
        let c = s.get_char(i);
        proof {
            assert(s@.take(i as int + 1).drop_last() =~= s@.take(i as int));
            assert(s@.take(i as int + 1).last() == s@[i as int]);
        }
        if c == '"' {
            out.append("\\\"");
            proof {
                reveal_strlit("\\\"");
                assert("\\\""@ =~= escape_char(c));
            }
        } else if c == '\\' {
            out.append("\\\\");
            proof {
                reveal_strlit("\\\\");
                assert("\\\\"@ =~= escape_char(c));
            }
        } else if (c as u32) < 32 {
            let code = c as u32;
            out.append("\\u00");
            push_digit(out, (code / 16) as u64);
            push_digit(out, (code % 16) as u64);
            proof {
                reveal_strlit("\\u00");
                assert("\\u00"@ + seq![digit_char((code as int) / 16)] + seq![
                    digit_char((code as int) % 16),
                ] =~= escape_char(c));
            }
        } else {
            push_char(out, c);
            proof {
                assert(old(out)@ + escape_string(s@.take(i as int)) + escape_char(c) =~= (old(
                    out,
                )@ + escape_string(s@.take(i as int))).push(c));
            }
        }
        proof {
            assert(out@ =~= old(out)@ + escape_string(s@.take(i as int + 1)));
        }
        i = i + 1;
    }
    proof {
        assert(s@.take(n as int) =~= s@);
    }
}

/// An optional numeric field: label then digits where present, nothing
/// where absent.
pub open spec fn spec_opt_num(label: Seq<char>, v: Option<u32>) -> Seq<char> {
    match v {
        Option::None => Seq::empty(),
        Option::Some(x) => label + spec_u64_digits(x as nat),
    }
}

/// An optional text field: label, the escaped text and the closing quote
/// where present, nothing where absent.
pub open spec fn spec_opt_str(label: Seq<char>, v: Option<Seq<char>>) -> Seq<char> {
    match v {
        Option::None => Seq::empty(),
        Option::Some(s) => label + escape_string(s) + "\""@,
    }
}

/// Append an optional numeric field.
fn push_opt_num(out: &mut String, label: &str, v: &Option<u32>)
    ensures
        final(out)@ == old(out)@ + spec_opt_num(label@, *v),
{
    match v {
        Option::None => {
            proof {
                assert(out@ =~= out@ + spec_opt_num(label@, *v));
            }
        },
        Option::Some(x) => {
            out.append(label);
            push_u64(out, *x as u64);
            proof {
                assert(out@ =~= old(out)@ + spec_opt_num(label@, *v));
            }
        },
    }
}

/// Append an optional text field.
fn push_opt_str(out: &mut String, label: &str, v: &Option<String>)
    ensures
        final(out)@ == old(out)@ + spec_opt_str(label@, v.deep_view()),
{
    match v {
        Option::None => {
            proof {
                assert(out@ =~= out@ + spec_opt_str(label@, v.deep_view()));
            }
        },
        Option::Some(s) => {
            out.append(label);
            push_escaped(out, s.as_str());
            out.append("\"");
            proof {
                assert(out@ =~= old(out)@ + spec_opt_str(label@, v.deep_view()));
            }
        },
    }
}

/// One entry's serialized form: the file facts, then every present tag
/// field under its name, absent fields left out entirely.
pub open spec fn spec_entry_json(e: EntryModel) -> Seq<char> {
    "{\"mtime\":"@ + spec_u64_digits(e.mtime as nat) + ",\"size\":"@ + spec_u64_digits(
        e.size as nat,
    ) + ",\"duration\":"@ + spec_u64_digits(e.duration as nat) + spec_opt_num(
        ",\"bitrate\":"@,
        e.bitrate,
    ) + spec_opt_str(",\"album\":\""@, e.album) + spec_opt_str(",\"artist\":\""@, e.artist)
        + spec_opt_str(",\"title\":\""@, e.title) + spec_opt_str(
        ",\"albumArtist\":\""@,
        e.album_artist,
    ) + spec_opt_str(",\"genre\":\""@, e.genre) + spec_opt_num(",\"year\":"@, e.year)
        + spec_opt_num(",\"trackNumber\":"@, e.track_number) + spec_opt_num(
        ",\"trackNumberTotal\":"@,
        e.track_number_total,
    ) + spec_opt_num(",\"diskNumber\":"@, e.disk_number) + spec_opt_num(
        ",\"diskNumberTotal\":"@,
        e.disk_number_total,
    ) + "}"@
}

/// Serialize one entry.
fn entry_json(e: &IndexEntry) -> (r: String)
    ensures
        r@ == spec_entry_json(e@),
{
    let mut out = String::new();
    out.append("{\"mtime\":");
    proof {
        assert(out@ =~= "{\"mtime\":"@);
    }
    push_u64(&mut out, e.mtime);
    out.append(",\"size\":");
    push_u64(&mut out, e.size);
    out.append(",\"duration\":");
    push_u64(&mut out, e.duration);
    push_opt_num(&mut out, ",\"bitrate\":", &e.bitrate);
    push_opt_str(&mut out, ",\"album\":\"", &e.album);
    push_opt_str(&mut out, ",\"artist\":\"", &e.artist);
    push_opt_str(&mut out, ",\"title\":\"", &e.title);
    push_opt_str(&mut out, ",\"albumArtist\":\"", &e.album_artist);
    push_opt_str(&mut out, ",\"genre\":\"", &e.genre);
    push_opt_num(&mut out, ",\"year\":", &e.year);
    push_opt_num(&mut out, ",\"trackNumber\":", &e.track_number);
    push_opt_num(&mut out, ",\"trackNumberTotal\":", &e.track_number_total);
    push_opt_num(&mut out, ",\"diskNumber\":", &e.disk_number);
    push_opt_num(&mut out, ",\"diskNumberTotal\":", &e.disk_number_total);
    out.append("}");
    out
}

/// One key/entry pair, as it stands inside the `tracks` object.
pub open spec fn spec_pair_json(p: (Seq<char>, EntryModel)) -> Seq<char> {
    "\""@ + escape_string(p.0) + "\":"@ + spec_entry_json(p.1)
}

/// The body of the `tracks` object: the pairs in row order, separated by
/// commas.
pub open spec fn spec_tracks_json(rows: Seq<(Seq<char>, EntryModel)>) -> Seq<char>
    decreases rows.len(),
{
    if rows.len() == 0 {
        Seq::empty()
    } else if rows.len() == 1 {
        spec_pair_json(rows[0])
    } else {
        spec_tracks_json(rows.drop_last()) + seq![','] + spec_pair_json(rows.last())
    }
}

/// A whole index file: fixed version, then the tracks in key order.
pub open spec fn spec_index_json(rows: Seq<(Seq<char>, EntryModel)>) -> Seq<char> {
    "{\"version\":1,\"tracks\":{"@ + spec_tracks_json(rows) + "}}"@
}

/// Serialize an index. Rows are kept in strictly increasing key order, so
/// the output is a function of the index's contents alone (see
/// `lemma_index_json_canonical`); running with an unchanged library leaves
/// an unchanged index file, byte for byte.
#[verifier::rlimit(50)]
pub fn index_json(index: &ListMap<IndexEntry>) -> (r: String)
    requires
        index.wf(),
    ensures
        r@ == spec_index_json(row_models(index.rows@)),
{
    let ghost models = row_models(index.rows@);
    let mut out = String::new();
    out.append("{\"version\":1,\"tracks\":{");
    let n = index.len();
    let mut i: usize = 0;
    proof {
        assert(models.take(0) =~= Seq::<(Seq<char>, EntryModel)>::empty());
        assert(out@ =~= "{\"version\":1,\"tracks\":{"@ + spec_tracks_json(models.take(0)));
    }
    while i < n
        invariant
            i <= n,
            index.wf(),
            n == index.rows@.len(),
            models == row_models(index.rows@),
            models.len() == n,
            out@ == "{\"version\":1,\"tracks\":{"@ + spec_tracks_json(models.take(i as int)),
        decreases n - i,
    {
        if i > 0 {
            out.append(",");
            proof {
                reveal_strlit(",");
                assert(","@ =~= seq![',']);
            }
        }
        out.append("\"");
        push_escaped(&mut out, index.key_at(i).as_str());
        out.append("\":");
        let entry = entry_json(index.val_at(i));
        out.append(entry.as_str());
        proof {
            assert(models[i as int] == (index.rows@[i as int].key@, index.rows@[i as int].val@));
            assert(models.take(i as int + 1).drop_last() =~= models.take(i as int));
            assert(models.take(i as int + 1).last() == models[i as int]);
            if i == 0 {
                assert(spec_tracks_json(models.take(1)) == spec_pair_json(models[0]));
                assert(out@ =~= "{\"version\":1,\"tracks\":{"@ + spec_tracks_json(
                    models.take(i as int + 1),
                ));
            } else {
                assert(out@ =~= "{\"version\":1,\"tracks\":{"@ + spec_tracks_json(
                    models.take(i as int + 1),
                ));
            }
        }
        i = i + 1;
    }
    out.append("}}");
    proof {
        assert(models.take(n as int) =~= models);
        assert(out@ =~= spec_index_json(models));
    }
    out
}

/// One contents, one serialization: two well-formed indexes with equal
/// contents serialize to the same text, however each was built up.
pub proof fn lemma_index_json_canonical(i1: &ListMap<IndexEntry>, i2: &ListMap<IndexEntry>)
    requires
        i1.wf(),
        i2.wf(),
        i1@ == i2@,
    ensures
        spec_index_json(row_models(i1.rows@)) == spec_index_json(row_models(i2.rows@)),
{
    lemma_sorted_canonical(i1.rows@, i2.rows@);
}

} // verus!
