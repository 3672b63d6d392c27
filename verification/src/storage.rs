//! The history record format and the storage interface.
//!
//! A post is stored as one record of five fields, in the order
//! `id, time, user_agent, login, message`. Every field is enclosed in
//! double quotes, with a quote inside a field written twice; fields are
//! separated by commas and each record ends with a newline. For example, a
//! post with id 42 is stored as
//! `"42","20161026120000","Firefox/48.0.1","","Plop!"`.
//!
//! Reading a stored history is tolerant of damage: a record that cannot be
//! parsed, or whose id does not continue the increasing id sequence, is
//! skipped, and reading goes on with the rest.

use crate::digits::{all_digits, dec_digits, dec_value, parse_u64_digits, u64_to_dec};
use crate::history::{lemma_run_restore_suffix, run_restore, History, HistoryListener};
use crate::post::{views_of, Post, PostView};
use vstd::prelude::*;

verus! {

/// A field's characters with every double quote doubled.
pub open spec fn escaped(f: Seq<char>) -> Seq<char>
    decreases f.len(),
{
    if f.len() == 0 {
        Seq::empty()
    } else {
        escaped(f.drop_last()) + (if f.last() == '"' {
            seq!['"', '"']
        } else {
            seq![f.last()]
        })
    }
}

/// A field as stored: its escaped characters between double quotes.
pub open spec fn quoted(f: Seq<char>) -> Seq<char> {
    seq!['"'] + escaped(f) + seq!['"']
}

/// A record line: the quoted fields, separated by commas.
pub open spec fn record_line(fs: Seq<Seq<char>>) -> Seq<char>
    decreases fs.len(),
{
    if fs.len() == 0 {
        Seq::empty()
    } else if fs.len() == 1 {
        quoted(fs[0])
    } else {
        record_line(fs.drop_last()) + seq![','] + quoted(fs.last())
    }
}

/// The five stored fields of a post: id, time, user_agent, login, message.
pub open spec fn post_record(p: PostView) -> Seq<Seq<char>> {
    seq![dec_digits(p.id as int), p.time, p.user_agent, p.login, p.message]
}

/// Appends `f` to `out` in stored form: quoted, with inner quotes doubled.
#[verifier::loop_isolation(false)]
fn push_quoted(out: &mut String, f: &str)
    ensures
        final(out)@ == old(out)@ + quoted(f@),
{
    proof {
        reveal_strlit("\"");
        reveal_strlit("\"\"");
    }
    let n = f.unicode_len();
    out.append("\"");
    let ghost head = out@;
    for k in 0..n
        invariant
            out@ == head + escaped(f@.take(k as int)),
    {
        let c = f.get_char(k);
        if c == '"' {
            out.append("\"\"");
            proof {
                assert(f@.take(k + 1).drop_last() =~= f@.take(k as int));
                assert(out@ =~= head + escaped(f@.take(k + 1)));
            }
        } else {
            let piece = f.substring_char(k, k + 1);
            out.append(piece);
            proof {
                assert(piece@ =~= seq![f@[k as int]]);
                assert(f@.take(k + 1).drop_last() =~= f@.take(k as int));
                assert(out@ =~= head + escaped(f@.take(k + 1)));
            }
        }
    }
    out.append("\"");
    proof {
        assert(f@.take(n as int) =~= f@);
        assert(out@ =~= old(out)@ + quoted(f@));
    }
}

/// Encodes a post as its stored record: the five quoted fields
/// `id, time, user_agent, login, message`, comma-separated, ending with a
/// newline.
pub fn encode_post(p_post: &Post) -> (r: String)
    ensures
        r@ == record_line(post_record(p_post@)) + seq!['\n'],
{
    proof {
        reveal_strlit(",");
        reveal_strlit("\n");
    }
    let mut out = String::new();
    let id_str = u64_to_dec(p_post.id());
    push_quoted(&mut out, id_str.as_str());
    out.append(",");
    push_quoted(&mut out, p_post.time().as_str());
    out.append(",");
    push_quoted(&mut out, p_post.user_agent().as_str());
    out.append(",");
    push_quoted(&mut out, p_post.login().as_str());
    out.append(",");
    push_quoted(&mut out, p_post.message().as_str());
    out.append("\n");
    proof {
        reveal_with_fuel(record_line, 6);
        let fs = post_record(p_post@);
        assert(fs.drop_last() =~= seq![
            dec_digits(p_post@.id as int),
            p_post@.time,
            p_post@.user_agent,
            p_post@.login,
        ]);
        assert(fs.drop_last().drop_last() =~= seq![
            dec_digits(p_post@.id as int),
            p_post@.time,
            p_post@.user_agent,
        ]);
        assert(fs.drop_last().drop_last().drop_last() =~= seq![
            dec_digits(p_post@.id as int),
            p_post@.time,
        ]);
        assert(fs.drop_last().drop_last().drop_last().drop_last() =~= seq![
            dec_digits(p_post@.id as int),
        ]);
        assert(out@ =~= record_line(fs) + seq!['\n']);
    }
    out
}

/// The body of a quoted field read from position `i` (just after the
/// opening quote): the field's characters and the position right after the
/// closing quote, or nothing if the field never closes.
pub open spec fn spec_parse_field(s: Seq<char>, i: int) -> Option<(Seq<char>, int)>
    decreases s.len() - i,
{
    if i < 0 || i >= s.len() {
        None
    } else if s[i] == '"' {
        if i + 1 < s.len() && s[i + 1] == '"' {
            match spec_parse_field(s, i + 2) {
                Some(fj) => Some((seq!['"'] + fj.0, fj.1)),
                None => None,
            }
        } else {
            Some((Seq::empty(), i + 1))
        }
    } else {
        match spec_parse_field(s, i + 1) {
            Some(fj) => Some((seq![s[i]] + fj.0, fj.1)),
            None => None,
        }
    }
}

/// A parsed field ends after where it began, within the text.
pub proof fn lemma_parse_field_bounds(s: Seq<char>, i: int)
    ensures
        spec_parse_field(s, i) matches Some(fj) ==> i < fj.1 <= s.len(),
    decreases s.len() - i,
{
    if 0 <= i < s.len() {
        if s[i] == '"' {
            if i + 1 < s.len() && s[i + 1] == '"' {
                lemma_parse_field_bounds(s, i + 2);
            }
        } else {
            lemma_parse_field_bounds(s, i + 1);
        }
    }
}

/// A record read from position `i`, which must hold an opening quote: the
/// sequence of fields up to and including the terminating newline, and the
/// position right after that newline. Anything else is a malformed record.
pub open spec fn spec_parse_record(s: Seq<char>, i: int) -> Option<(Seq<Seq<char>>, int)>
    decreases s.len() - i,
        via spec_parse_record_decreases
{
    if i < 0 || i >= s.len() || s[i] != '"' {
        None
    } else {
        match spec_parse_field(s, i + 1) {
            None => None,
            Some(fj) => {
                if fj.1 >= s.len() {
                    None
                } else if s[fj.1] == ',' {
                    match spec_parse_record(s, fj.1 + 1) {
                        None => None,
                        Some(rk) => Some((seq![fj.0] + rk.0, rk.1)),
                    }
                } else if s[fj.1] == '\n' {
                    Some((seq![fj.0], fj.1 + 1))
                } else {
                    None
                }
            },
        }
    }
}

#[via_fn]
proof fn spec_parse_record_decreases(s: Seq<char>, i: int) {
    lemma_parse_field_bounds(s, i + 1);
}

/// A parsed record ends after where it began, within the text.
pub proof fn lemma_parse_record_bounds(s: Seq<char>, i: int)
    ensures
        spec_parse_record(s, i) matches Some(rk) ==> i < rk.1 <= s.len(),
    decreases s.len() - i,
{
    if 0 <= i < s.len() && s[i] == '"' {
        lemma_parse_field_bounds(s, i + 1);
        match spec_parse_field(s, i + 1) {
            Some(fj) => {
                if fj.1 < s.len() && s[fj.1] == ',' {
                    lemma_parse_record_bounds(s, fj.1 + 1);
                }
            },
            None => {},
        }
    }
}

/// The position right after the next newline at or after `i`, where
/// reading resumes after a malformed record; the end of the text if no
/// newline is left.
pub open spec fn resync(s: Seq<char>, i: int) -> int
    decreases s.len() - i,
{
    if i < 0 || i >= s.len() {
        s.len() as int
    } else if s[i] == '\n' {
        i + 1
    } else {
        resync(s, i + 1)
    }
}

/// Resuming after a malformed record advances past where it began.
pub proof fn lemma_resync_bounds(s: Seq<char>, i: int)
    requires
        0 <= i < s.len(),
    ensures
        i < resync(s, i) <= s.len(),
    decreases s.len() - i,
{
    if s[i] != '\n' {
        if i + 1 < s.len() {
            lemma_resync_bounds(s, i + 1);
        } else {
            assert(resync(s, i + 1) == s.len());
        }
    }
}

/// All the well-formed records of the text, read from position `i` on:
/// each record is read by [`spec_parse_record`]; after a malformed one,
/// reading resumes past the next newline.
pub open spec fn spec_parse_file(s: Seq<char>, i: int) -> Seq<Seq<Seq<char>>>
    decreases s.len() - i,
        via spec_parse_file_decreases
{
    if i < 0 || i >= s.len() {
        Seq::empty()
    } else {
        match spec_parse_record(s, i) {
            Some(rk) => seq![rk.0] + spec_parse_file(s, rk.1),
            None => spec_parse_file(s, resync(s, i)),
        }
    }
}

#[via_fn]
proof fn spec_parse_file_decreases(s: Seq<char>, i: int) {
    if 0 <= i < s.len() {
        lemma_parse_record_bounds(s, i);
        lemma_resync_bounds(s, i);
    }
}

/// Reads the body of a quoted field of `p_text`, starting at character
/// position `p_start` (just after the opening quote). Returns the field
/// and the position right after the closing quote.
#[verifier::loop_isolation(false)]
fn parse_field_at(p_text: &str, p_start: usize) -> (r: Option<(String, usize)>)
    ensures
        r is None ==> spec_parse_field(p_text@, p_start as int) is None,
        r matches Some(fj) ==> spec_parse_field(p_text@, p_start as int) == Some((
            fj.0@,
            fj.1 as int,
        )),
{
    proof {
        reveal_strlit("\"");
    }
    let n = p_text.unicode_len();
    let mut i = p_start;
    let mut acc = String::new();
    loop
        invariant
            p_start <= i,
            ({
                let orig = spec_parse_field(p_text@, p_start as int);
                match spec_parse_field(p_text@, i as int) {
                    Some(fj) => orig == Some((acc@ + fj.0, fj.1)),
                    None => orig is None,
                }
            }),
        decreases n - i,
    {
        if i >= n {
            return None;
        }
        let c = p_text.get_char(i);
        if c == '"' {
            if i + 1 < n && p_text.get_char(i + 1) == '"' {
                let ghost pre = acc@;
                acc.append("\"");
                proof {
                    match spec_parse_field(p_text@, i + 2) {
                        Some(fj) => {
                            assert(pre + (seq!['"'] + fj.0) =~= acc@ + fj.0);
                        },
                        None => {},
                    }
                }
                i = i + 2;
            } else {
                proof {
                    assert(acc@ + Seq::<char>::empty() =~= acc@);
                }
                return Some((acc, i + 1));
            }
        } else {
            let ghost pre = acc@;
            let piece = p_text.substring_char(i, i + 1);
            acc.append(piece);
            proof {
                assert(piece@ =~= seq![p_text@[i as int]]);
                match spec_parse_field(p_text@, i + 1) {
                    Some(fj) => {
                        assert(pre + (seq![p_text@[i as int]] + fj.0) =~= acc@ + fj.0);
                    },
                    None => {},
                }
            }
            i = i + 1;
        }
    }
}

/// Reads one record of `p_text` starting at character position `p_start`.
/// Returns the record's fields and the position right after its
/// terminating newline.
#[verifier::loop_isolation(false)]
fn parse_record_at(p_text: &str, p_start: usize) -> (r: Option<(Vec<String>, usize)>)
    ensures
        r is None ==> spec_parse_record(p_text@, p_start as int) is None,
        r matches Some(rk) ==> spec_parse_record(p_text@, p_start as int) == Some((
            rk.0.deep_view(),
            rk.1 as int,
        )),
{
    let n = p_text.unicode_len();
    let mut i = p_start;
    let mut fields: Vec<String> = Vec::new();
    loop
        invariant
            p_start <= i,
            ({
                let orig = spec_parse_record(p_text@, p_start as int);
                match spec_parse_record(p_text@, i as int) {
                    Some(rk) => orig == Some((fields.deep_view() + rk.0, rk.1)),
                    None => orig is None,
                }
            }),
        decreases n - i,
    {
        if i >= n {
            return None;
        }
        if p_text.get_char(i) != '"' {
            return None;
        }
        match parse_field_at(p_text, i + 1) {
            None => {
                return None;
            },
            Some((f, j)) => {
                proof {
                    lemma_parse_field_bounds(p_text@, i + 1);
                }
                if j >= n {
                    return None;
                }
                let cj = p_text.get_char(j);
                if cj == ',' {
                    let ghost pre = fields.deep_view();
                    let ghost fv = f@;
                    fields.push(f);
                    proof {
                        assert(fields.deep_view() =~= pre.push(fv));
                        match spec_parse_record(p_text@, j + 1) {
                            Some(rk) => {
                                assert(pre + (seq![fv] + rk.0) =~= fields.deep_view() + rk.0);
                            },
                            None => {},
                        }
                    }
                    i = j + 1;
                } else if cj == '\n' {
                    let ghost pre = fields.deep_view();
                    let ghost fv = f@;
                    fields.push(f);
                    proof {
                        assert(fields.deep_view() =~= pre.push(fv));
                        assert(pre + seq![fv] =~= fields.deep_view());
                    }
                    return Some((fields, j + 1));
                } else {
                    return None;
                }
            },
        }
    }
}

/// Scans `p_text` from character position `p_start` to right after the
/// next newline, where reading resumes after a malformed record.
#[verifier::loop_isolation(false)]
fn resync_at(p_text: &str, p_start: usize) -> (r: usize)
    ensures
        r == resync(p_text@, p_start as int),
{
    let n = p_text.unicode_len();
    let mut i = p_start;
    loop
        invariant
            p_start <= i,
            resync(p_text@, p_start as int) == resync(p_text@, i as int),
        decreases n - i,
    {
        if i >= n {
            return n;
        }
        if p_text.get_char(i) == '\n' {
            return i + 1;
        }
        i = i + 1;
    }
}

/// Reads every well-formed record of `p_text`, skipping past the next
/// newline after each malformed one.
#[verifier::loop_isolation(false)]
pub fn parse_history_text(p_text: &str) -> (r: Vec<Vec<String>>)
    ensures
        r.deep_view() == spec_parse_file(p_text@, 0),
{
    let n = p_text.unicode_len();
    let mut i: usize = 0;
    let mut out: Vec<Vec<String>> = Vec::new();
    loop
        invariant
            spec_parse_file(p_text@, 0) == out.deep_view() + spec_parse_file(p_text@, i as int),
        decreases n - i,
    {
        if i >= n {
            proof {
                assert(out.deep_view() + spec_parse_file(p_text@, i as int) =~= out.deep_view());
            }
            return out;
        }
        match parse_record_at(p_text, i) {
            Some((rec, j)) => {
                proof {
                    lemma_parse_record_bounds(p_text@, i as int);
                }
                let ghost pre = out.deep_view();
                let ghost rv = rec.deep_view();
                out.push(rec);
                proof {
                    assert(out.deep_view() =~= pre.push(rv));
                    assert(pre + (seq![rv] + spec_parse_file(p_text@, j as int)) =~= out.deep_view()
                        + spec_parse_file(p_text@, j as int));
                }
                i = j;
            },
            None => {
                proof {
                    lemma_resync_bounds(p_text@, i as int);
                }
                i = resync_at(p_text, i);
            },
        }
    }
}

/// Escaping works character by character from the front as well.
proof fn lemma_escaped_unfold_front(f: Seq<char>)
    requires
        f.len() > 0,
    ensures
        escaped(f) == (if f[0] == '"' {
            seq!['"', '"']
        } else {
            seq![f[0]]
        }) + escaped(f.drop_first()),
    decreases f.len(),
{
    let head: Seq<char> = if f[0] == '"' {
        seq!['"', '"']
    } else {
        seq![f[0]]
    };
    if f.len() == 1 {
        assert(f.drop_last() =~= Seq::<char>::empty());
        assert(f.drop_first() =~= Seq::<char>::empty());
        assert(f.last() == f[0]);
        assert(escaped(f) =~= head + escaped(f.drop_first()));
    } else {
        lemma_escaped_unfold_front(f.drop_last());
        assert(f.drop_last()[0] == f[0]);
        assert(f.drop_last().drop_first() =~= f.drop_first().drop_last());
        assert(f.drop_first().last() == f.last());
        assert(escaped(f) == escaped(f.drop_last()) + (if f.last() == '"' {
            seq!['"', '"']
        } else {
            seq![f.last()]
        }));
        assert(escaped(f) =~= head + escaped(f.drop_first()));
    }
}

/// Reading a field back: right after an opening quote, the parser run over
/// the escaped characters of `f` followed by the closing quote yields `f`
/// and stops right after that quote — provided no stray quote follows it,
/// which a comma or a newline never is.
proof fn lemma_parse_field_of_escaped(s: Seq<char>, i: int, j: int, f: Seq<char>)
    requires
        0 <= i,
        j == i + escaped(f).len(),
        j + 1 <= s.len(),
        s.subrange(i, j) == escaped(f),
        s[j] == '"',
        !(j + 1 < s.len() && s[j + 1] == '"'),
    ensures
        spec_parse_field(s, i) == Some((f, j + 1)),
    decreases f.len(),
{
    if f.len() == 0 {
        assert(escaped(f).len() == 0);
        assert(i == j);
        assert(f =~= Seq::<char>::empty());
    } else {
        lemma_escaped_unfold_front(f);
        let tail = f.drop_first();
        if f[0] == '"' {
            assert(escaped(f).len() == 2 + escaped(tail).len());
            assert(s.subrange(i, j)[0] == s[i]);
            assert(s.subrange(i, j)[1] == s[i + 1]);
            assert(s[i] == '"');
            assert(s[i + 1] == '"');
            assert(s.subrange(i + 2, j) =~= escaped(tail)) by {
                assert forall|k: int| 0 <= k < j - i - 2 implies s.subrange(i + 2, j)[k]
                    == escaped(tail)[k] by {
                    assert(s.subrange(i + 2, j)[k] == s[i + 2 + k]);
                    assert(s.subrange(i, j)[k + 2] == s[i + 2 + k]);
                    assert(escaped(f)[k + 2] == escaped(tail)[k]);
                }
            }
            lemma_parse_field_of_escaped(s, i + 2, j, tail);
            assert(seq!['"'] + tail =~= f);
        } else {
            assert(escaped(f).len() == 1 + escaped(tail).len());
            assert(s.subrange(i, j)[0] == s[i]);
            assert(s[i] == f[0]);
            assert(s[i] != '"');
            assert(s.subrange(i + 1, j) =~= escaped(tail)) by {
                assert forall|k: int| 0 <= k < j - i - 1 implies s.subrange(i + 1, j)[k]
                    == escaped(tail)[k] by {
                    assert(s.subrange(i + 1, j)[k] == s[i + 1 + k]);
                    assert(s.subrange(i, j)[k + 1] == s[i + 1 + k]);
                    assert(escaped(f)[k + 1] == escaped(tail)[k]);
                }
            }
            lemma_parse_field_of_escaped(s, i + 1, j, tail);
            assert(seq![s[i]] + tail =~= f);
        }
    }
}

/// A record line also grows field by field from the front.
proof fn lemma_record_line_unfold_front(fs: Seq<Seq<char>>)
    requires
        fs.len() >= 2,
    ensures
        record_line(fs) == quoted(fs[0]) + seq![','] + record_line(fs.drop_first()),
    decreases fs.len(),
{
    let rest = fs.drop_first();
    if fs.len() == 2 {
        assert(fs.drop_last().drop_last() =~= Seq::<Seq<char>>::empty());
        assert(fs.drop_last() =~= seq![fs[0]]);
        assert(rest =~= seq![fs[1]]);
        assert(record_line(fs) =~= quoted(fs[0]) + seq![','] + record_line(rest));
    } else {
        lemma_record_line_unfold_front(fs.drop_last());
        assert(fs.drop_last()[0] == fs[0]);
        assert(fs.drop_last().drop_first() =~= rest.drop_last());
        assert(rest.last() == fs.last());
        assert(record_line(fs) == record_line(fs.drop_last()) + seq![','] + quoted(fs.last()));
        assert(record_line(rest) == record_line(rest.drop_last()) + seq![','] + quoted(
            rest.last(),
        ));
        assert(record_line(fs) =~= quoted(fs[0]) + seq![','] + record_line(rest));
    }
}

/// Reading a record back: the parser run over a record line followed by
/// its newline yields exactly the fields of the line and stops right after
/// the newline.
proof fn lemma_parse_record_of_line(s: Seq<char>, i: int, j: int, fs: Seq<Seq<char>>)
    requires
        0 <= i,
        fs.len() >= 1,
        j == i + record_line(fs).len(),
        j + 1 <= s.len(),
        s.subrange(i, j) == record_line(fs),
        s[j] == '\n',
    ensures
        spec_parse_record(s, i) == Some((fs, j + 1)),
    decreases fs.len(),
{
    let f0 = fs[0];
    let e = i + 1 + escaped(f0).len();
    if fs.len() == 1 {
        assert(record_line(fs) == quoted(f0));
        assert(record_line(fs).len() == escaped(f0).len() + 2);
        assert(e == j - 1);
        assert(s.subrange(i, j)[0] == s[i]);
        assert(quoted(f0)[0] == '"');
        assert(s[i] == '"');
        assert(s.subrange(i, j)[e - i] == s[e]);
        assert(quoted(f0)[e - i] == '"');
        assert(s[e] == '"');
        assert(s.subrange(i + 1, e) =~= escaped(f0)) by {
            assert forall|k: int| 0 <= k < e - i - 1 implies s.subrange(i + 1, e)[k] == escaped(
                f0,
            )[k] by {
                assert(s.subrange(i + 1, e)[k] == s[i + 1 + k]);
                assert(s.subrange(i, j)[k + 1] == s[i + 1 + k]);
                assert(quoted(f0)[k + 1] == escaped(f0)[k]);
            }
        }
        lemma_parse_field_of_escaped(s, i + 1, e, f0);
        assert(spec_parse_field(s, i + 1) == Some((f0, j)));
        assert(spec_parse_record(s, i) == Some((seq![f0], j + 1)));
        assert(seq![f0] =~= fs);
    } else {
        lemma_record_line_unfold_front(fs);
        let rest = fs.drop_first();
        let line = record_line(fs);
        assert(line == quoted(f0) + seq![','] + record_line(rest));
        assert(line.len() == escaped(f0).len() + 3 + record_line(rest).len());
        assert(s.subrange(i, j)[0] == s[i]);
        assert(line[0] == '"');
        assert(s[i] == '"');
        assert(s.subrange(i, j)[e - i] == s[e]);
        assert(line[e - i] == '"');
        assert(s[e] == '"');
        assert(s.subrange(i, j)[e + 1 - i] == s[e + 1]);
        assert(line[e + 1 - i] == ',');
        assert(s[e + 1] == ',');
        assert(s.subrange(i + 1, e) =~= escaped(f0)) by {
            assert forall|k: int| 0 <= k < e - i - 1 implies s.subrange(i + 1, e)[k] == escaped(
                f0,
            )[k] by {
                assert(s.subrange(i + 1, e)[k] == s[i + 1 + k]);
                assert(s.subrange(i, j)[k + 1] == s[i + 1 + k]);
                assert(line[k + 1] == escaped(f0)[k]);
            }
        }
        lemma_parse_field_of_escaped(s, i + 1, e, f0);
        assert(spec_parse_field(s, i + 1) == Some((f0, e + 1)));
        let m = e + 2;
        assert(s.subrange(m, j) =~= record_line(rest)) by {
            assert forall|k: int| 0 <= k < j - m implies s.subrange(m, j)[k] == record_line(
                rest,
            )[k] by {
                assert(s.subrange(m, j)[k] == s[m + k]);
                assert(s.subrange(i, j)[m - i + k] == s[m + k]);
                assert(line[m - i + k] == record_line(rest)[k]);
            }
        }
        lemma_parse_record_of_line(s, m, j, rest);
        assert(spec_parse_record(s, m) == Some((rest, j + 1)));
        assert(spec_parse_record(s, i) == Some((seq![f0] + rest, j + 1)));
        assert(seq![f0] + rest =~= fs);
    }
}

/// The stored text of a run of records: each record's line followed by a
/// newline, in order.
pub open spec fn encoded_records(rs: Seq<Seq<Seq<char>>>) -> Seq<char>
    decreases rs.len(),
{
    if rs.len() == 0 {
        Seq::empty()
    } else {
        encoded_records(rs.drop_last()) + record_line(rs.last()) + seq!['\n']
    }
}

/// The stored text of a run of posts, record by record, as a writer
/// appending [`encode_post`]'s output for each post produces it.
pub open spec fn encoded_history(posts: Seq<PostView>) -> Seq<char> {
    encoded_records(posts.map_values(|p: PostView| post_record(p)))
}

/// Appending one more post's record to a stored history, as a writer
/// appending [`encode_post`]'s output does, extends the stored text by
/// exactly that post's line and its newline.
pub proof fn lemma_encoded_history_push(posts: Seq<PostView>, p: PostView)
    ensures
        encoded_history(posts.push(p)) == encoded_history(posts) + record_line(post_record(p))
            + seq!['\n'],
{
    let f = |q: PostView| post_record(q);
    assert(posts.push(p).map_values(f).drop_last() =~= posts.map_values(f));
    assert(posts.push(p).map_values(f).last() == post_record(p));
}

/// The stored text also grows record by record from the front.
proof fn lemma_encoded_records_unfold_front(rs: Seq<Seq<Seq<char>>>)
    requires
        rs.len() >= 1,
    ensures
        encoded_records(rs) == record_line(rs[0]) + seq!['\n'] + encoded_records(rs.drop_first()),
    decreases rs.len(),
{
    let rest = rs.drop_first();
    if rs.len() == 1 {
        assert(rs.drop_last() =~= Seq::<Seq<Seq<char>>>::empty());
        assert(rest =~= Seq::<Seq<Seq<char>>>::empty());
        assert(rs.last() == rs[0]);
        assert(encoded_records(rs) =~= record_line(rs[0]) + seq!['\n'] + encoded_records(rest));
    } else {
        lemma_encoded_records_unfold_front(rs.drop_last());
        assert(rs.drop_last()[0] == rs[0]);
        assert(rs.drop_last().drop_first() =~= rest.drop_last());
        assert(rest.last() == rs.last());
        assert(encoded_records(rest) == encoded_records(rest.drop_last()) + record_line(
            rest.last(),
        ) + seq!['\n']);
        assert(encoded_records(rs) =~= record_line(rs[0]) + seq!['\n'] + encoded_records(rest));
    }
}

/// Reading a whole stored text back: the parser run over the encoding of a
/// run of records yields exactly those records, none skipped.
proof fn lemma_parse_file_of_encoded(s: Seq<char>, i: int, rs: Seq<Seq<Seq<char>>>)
    requires
        0 <= i <= s.len(),
        forall|k: int| 0 <= k < rs.len() ==> #[trigger] rs[k].len() >= 1,
        s.subrange(i, s.len() as int) == encoded_records(rs),
    ensures
        spec_parse_file(s, i) == rs,
    decreases rs.len(),
{
    if rs.len() == 0 {
        assert(s.subrange(i, s.len() as int).len() == 0);
        assert(i == s.len());
        assert(spec_parse_file(s, i) =~= rs);
    } else {
        lemma_encoded_records_unfold_front(rs);
        let line = record_line(rs[0]);
        let j = i + line.len();
        let suffix = s.subrange(i, s.len() as int);
        assert(suffix.len() == line.len() + 1 + encoded_records(rs.drop_first()).len());
        assert(s.subrange(i, j) =~= line) by {
            assert forall|k: int| 0 <= k < line.len() implies s.subrange(i, j)[k] == line[k] by {
                assert(s.subrange(i, j)[k] == s[i + k]);
                assert(suffix[k] == s[i + k]);
            }
        }
        assert(suffix[j - i] == s[j]);
        assert(s[j] == '\n');
        lemma_parse_record_of_line(s, i, j, rs[0]);
        assert(spec_parse_record(s, i) == Some((rs[0], j + 1)));
        assert(s.subrange(j + 1, s.len() as int) =~= encoded_records(rs.drop_first())) by {
            assert forall|k: int| 0 <= k < s.len() - j - 1 implies s.subrange(
                j + 1,
                s.len() as int,
            )[k] == encoded_records(rs.drop_first())[k] by {
                assert(s.subrange(j + 1, s.len() as int)[k] == s[j + 1 + k]);
                assert(suffix[j + 1 - i + k] == s[j + 1 + k]);
            }
        }
        lemma_parse_file_of_encoded(s, j + 1, rs.drop_first());
        assert(spec_parse_file(s, i) == seq![rs[0]] + spec_parse_file(s, j + 1));
        assert(seq![rs[0]] + rs.drop_first() =~= rs);
    }
}

/// The post described by one stored record, if the record is well-formed:
/// five fields whose first is a decimal post id fitting in a `u64`.
pub open spec fn post_of_record(rec: Seq<Seq<char>>) -> Option<PostView> {
    if rec.len() == 5 && rec[0].len() >= 1 && all_digits(rec[0]) && dec_value(rec[0]) <= u64::MAX {
        Some(
            PostView {
                id: dec_value(rec[0]) as u64,
                time: rec[1],
                user_agent: rec[2],
                login: rec[3],
                message: rec[4],
            },
        )
    } else {
        None
    }
}

/// The posts admitted from a run of stored records, given that every
/// admitted id must lie above `floor`: a record that is malformed, whose id
/// does not increase over the posts before it, or whose id leaves no room
/// for a next id, is skipped.
pub open spec fn admitted_posts(recs: Seq<Seq<Seq<char>>>, floor: int) -> Seq<PostView>
    decreases recs.len(),
{
    if recs.len() == 0 {
        Seq::empty()
    } else {
        match post_of_record(recs.first()) {
            Some(pv) => {
                if floor < pv.id < u64::MAX {
                    seq![pv] + admitted_posts(recs.drop_first(), pv.id as int)
                } else {
                    admitted_posts(recs.drop_first(), floor)
                }
            },
            None => admitted_posts(recs.drop_first(), floor),
        }
    }
}

/// Admitted posts carry strictly increasing ids, all above the floor and
/// all below the largest id.
pub proof fn lemma_admitted_posts_ids(recs: Seq<Seq<Seq<char>>>, floor: int)
    ensures
        ({
            let ps = admitted_posts(recs, floor);
            &&& (forall|a: int, b: int| 0 <= a < b < ps.len() ==> ps[a].id < ps[b].id)
            &&& (forall|a: int| 0 <= a < ps.len() ==> floor < #[trigger] ps[a].id < u64::MAX)
        }),
    decreases recs.len(),
{
    if recs.len() > 0 {
        let rest = recs.drop_first();
        match post_of_record(recs.first()) {
            Some(pv) => {
                if floor < pv.id < u64::MAX {
                    lemma_admitted_posts_ids(rest, pv.id as int);
                    let ps = admitted_posts(recs, floor);
                    let tail = admitted_posts(rest, pv.id as int);
                    assert(ps == seq![pv] + tail);
                    assert(ps[0] == pv);
                    assert(forall|a: int| 1 <= a < ps.len() ==> ps[a] == tail[a - 1]);
                    assert forall|a: int| 0 <= a < ps.len() implies floor < #[trigger] ps[a].id
                        < u64::MAX by {
                        if a > 0 {
                            assert(pv.id < tail[a - 1].id < u64::MAX);
                        }
                    }
                    assert forall|a: int, b: int| 0 <= a < b < ps.len() implies ps[a].id
                        < ps[b].id by {
                        if a == 0 {
                            assert(pv.id < tail[b - 1].id);
                        }
                    }
                } else {
                    lemma_admitted_posts_ids(rest, floor);
                    assert(admitted_posts(recs, floor) == admitted_posts(rest, floor));
                }
            },
            None => {
                lemma_admitted_posts_ids(rest, floor);
                assert(admitted_posts(recs, floor) == admitted_posts(rest, floor));
            },
        }
    } else {
        assert(admitted_posts(recs, floor) == Seq::<PostView>::empty());
    }
}

/// A post's stored record describes the post itself.
pub proof fn lemma_post_record_round_trip(p: PostView)
    ensures
        post_of_record(post_record(p)) == Some(p),
{
    crate::digits::lemma_dec_digits_are_digits(p.id as int);
    crate::digits::lemma_dec_digits_value(p.id as int);
    let rec = post_record(p);
    assert(rec[0] == dec_digits(p.id as int));
    assert(dec_value(rec[0]) == p.id);
    assert(post_of_record(rec) == Some(p));
}

/// Admitting the records of posts whose ids strictly increase above the
/// floor keeps every one of them.
proof fn lemma_admitted_of_posts(posts: Seq<PostView>, floor: int)
    requires
        forall|a: int, b: int| 0 <= a < b < posts.len() ==> posts[a].id < posts[b].id,
        forall|a: int| 0 <= a < posts.len() ==> floor < #[trigger] posts[a].id < u64::MAX,
    ensures
        admitted_posts(posts.map_values(|p: PostView| post_record(p)), floor) == posts,
    decreases posts.len(),
{
    let recs = posts.map_values(|p: PostView| post_record(p));
    if posts.len() == 0 {
        assert(recs =~= Seq::<Seq<Seq<char>>>::empty());
        assert(admitted_posts(recs, floor) =~= posts);
    } else {
        let p0 = posts[0];
        assert(recs.first() == post_record(p0));
        lemma_post_record_round_trip(p0);
        assert(post_of_record(recs.first()) == Some(p0));
        assert(floor < p0.id < u64::MAX);
        assert(recs.drop_first() =~= posts.drop_first().map_values(
            |p: PostView| post_record(p),
        ));
        lemma_admitted_of_posts(posts.drop_first(), p0.id as int);
        assert(admitted_posts(recs, floor) == seq![p0] + admitted_posts(
            recs.drop_first(),
            p0.id as int,
        ));
        assert(seq![p0] + posts.drop_first() =~= posts);
    }
}

/// Law: a stored history read back gives exactly the posts that were
/// written. For posts with strictly increasing positive ids — as the
/// history keeps them — encoding them record by record, as a recording
/// listener writing [`encode_post`]'s output does, then parsing and
/// admitting the text again, as [`restore_history`] does, yields the same
/// posts in the same order.
pub proof fn lemma_history_round_trip(posts: Seq<PostView>)
    requires
        forall|a: int, b: int| 0 <= a < b < posts.len() ==> posts[a].id < posts[b].id,
        forall|a: int| 0 <= a < posts.len() ==> 0 < #[trigger] posts[a].id < u64::MAX,
    ensures
        admitted_posts(spec_parse_file(encoded_history(posts), 0), 0) == posts,
{
    let recs = posts.map_values(|p: PostView| post_record(p));
    let s = encoded_history(posts);
    assert(forall|k: int| 0 <= k < recs.len() ==> #[trigger] recs[k].len() >= 1);
    assert(s.subrange(0, s.len() as int) =~= encoded_records(recs));
    lemma_parse_file_of_encoded(s, 0, recs);
    lemma_admitted_of_posts(posts, 0);
}

/// Law: a whole history survives a write and a reload. For posts that a
/// well-formed history can hold — at most `max` of them, ids strictly
/// increasing and positive — storing them record by record and then
/// restoring the text into a fresh history of capacity `max`, as
/// [`restore_history`] does, ends with exactly those posts in the buffer.
pub proof fn lemma_write_restore_round_trip(posts: Seq<PostView>, max: nat)
    requires
        max >= 1,
        posts.len() <= max,
        forall|a: int, b: int| 0 <= a < b < posts.len() ==> posts[a].id < posts[b].id,
        forall|a: int| 0 <= a < posts.len() ==> 0 < #[trigger] posts[a].id < u64::MAX,
    ensures
        run_restore(
            Seq::empty(),
            max,
            admitted_posts(spec_parse_file(encoded_history(posts), 0), 0),
        ) == posts,
{
    lemma_history_round_trip(posts);
    crate::history::lemma_restore_into_fresh(max, posts);
}

/// Builds the posts admitted from the parsed records: a record is kept
/// when it has exactly five fields, its first field is a decimal id that
/// fits, and its id strictly increases over the posts kept before it.
#[verifier::loop_isolation(false)]
pub fn posts_from_records(p_records: &Vec<Vec<String>>) -> (r: Vec<Post>)
    ensures
        views_of(r@) == admitted_posts(p_records.deep_view(), 0),
{
    let n = p_records.len();
    let mut out: Vec<Post> = Vec::new();
    let mut floor: u64 = 0;
    proof {
        assert(p_records.deep_view().skip(0) =~= p_records.deep_view());
        assert(views_of(out@) =~= Seq::<PostView>::empty());
        assert(views_of(out@) + admitted_posts(p_records.deep_view(), 0) =~= admitted_posts(
            p_records.deep_view(),
            0,
        ));
    }
    for k in 0..n
        invariant
            admitted_posts(p_records.deep_view(), 0) == views_of(out@) + admitted_posts(
                p_records.deep_view().skip(k as int),
                floor as int,
            ),
    {
        let ghost all = p_records.deep_view();
        let ghost pre = views_of(out@);
        let ghost prefloor = floor;
        proof {
            assert(all.skip(k as int).first() == all[k as int]);
            assert(all[k as int] == p_records@[k as int].deep_view());
            assert(all.skip(k as int).drop_first() =~= all.skip(k + 1));
        }
        let rec = &p_records[k];
        if rec.len() == 5 {
            proof {
                assert(rec.deep_view().len() == 5);
                assert(rec.deep_view()[0] == rec@[0]@);
                assert(rec.deep_view()[1] == rec@[1]@);
                assert(rec.deep_view()[2] == rec@[2]@);
                assert(rec.deep_view()[3] == rec@[3]@);
                assert(rec.deep_view()[4] == rec@[4]@);
            }
            match parse_u64_digits(rec[0].as_str()) {
                Some(id) => {
                    if floor < id && id < u64::MAX {
                        let sub = crate::post::UserPost::new(
                            rec[3].clone(),
                            rec[2].clone(),
                            rec[4].clone(),
                        );
                        let post = Post::new(id, rec[1].clone(), sub);
                        let ghost pv = post@;
                        out.push(post);
                        floor = id;
                        proof {
                            assert(views_of(out@) =~= pre.push(pv));
                            assert(post_of_record(all[k as int]) == Some(pv));
                            assert(pre + (seq![pv] + admitted_posts(all.skip(k + 1), id as int))
                                =~= views_of(out@) + admitted_posts(all.skip(k + 1), id as int));
                        }
                    } else {
                        proof {
                            assert(post_of_record(all[k as int]) matches Some(q) && !(prefloor
                                < q.id < u64::MAX));
                        }
                    }
                },
                None => {
                    proof {
                        assert(post_of_record(all[k as int]) is None);
                    }
                },
            }
        } else {
            proof {
                assert(rec.deep_view().len() != 5);
                assert(post_of_record(all[k as int]) is None);
            }
        }
    }
    proof {
        assert(p_records.deep_view().skip(n as int) =~= Seq::<Seq<Seq<char>>>::empty());
        assert(views_of(out@) + admitted_posts(p_records.deep_view().skip(n as int), floor as int)
            =~= views_of(out@));
    }
    out
}

/// Feeds already-parsed posts into an empty history, in order, through
/// [`History::add_full_post`]: no ids are reassigned and no listener is
/// notified. Returns the number of posts fed in; the history keeps the
/// newest ones up to its capacity.
#[verifier::loop_isolation(false)]
pub fn load_posts<L: HistoryListener>(p_history: &mut History<L>, p_posts: Vec<Post>) -> (r: usize)
    requires
        old(p_history).wf(),
        old(p_history).posts().len() == 0,
        forall|a: int, b: int|
            0 <= a < b < p_posts@.len() ==> p_posts@[a]@.id < p_posts@[b]@.id,
        forall|a: int| 0 <= a < p_posts@.len() ==> p_posts@[a]@.id < u64::MAX,
    ensures
        final(p_history).wf(),
        final(p_history).posts() == run_restore(
            Seq::empty(),
            old(p_history).max_size_spec(),
            views_of(p_posts@),
        ),
        r == p_posts@.len(),
        final(p_history).board_name_view() == old(p_history).board_name_view(),
        final(p_history).max_size_spec() == old(p_history).max_size_spec(),
        final(p_history).listeners() == old(p_history).listeners(),
        final(p_history).trace() == old(p_history).trace(),
        p_posts@.len() == 0 ==> final(p_history).next_id() == old(p_history).next_id(),
        p_posts@.len() > 0 ==> final(p_history).next_id() == (if old(p_history).next_id()
            >= p_posts@.last()@.id + 1 {
            old(p_history).next_id()
        } else {
            (p_posts@.last()@.id + 1) as u64
        }),
{
    let n = p_posts.len();
    let ghost max = old(p_history).max_size_spec();
    for k in 0..n
        invariant
            p_history.wf(),
            p_history.posts() == run_restore(Seq::empty(), max, views_of(p_posts@.take(k as int))),
            p_history.board_name_view() == old(p_history).board_name_view(),
            p_history.max_size_spec() == max,
            p_history.listeners() == old(p_history).listeners(),
            p_history.trace() == old(p_history).trace(),
            k == 0 ==> p_history.next_id() == old(p_history).next_id(),
            k > 0 ==> p_history.next_id() == (if old(p_history).next_id() >= p_posts@[k - 1]@.id
                + 1 {
                old(p_history).next_id()
            } else {
                (p_posts@[k - 1]@.id + 1) as u64
            }),
    {
        let ghost prefix = views_of(p_posts@.take(k as int));
        proof {
            lemma_run_restore_suffix(max, prefix);
            assert forall|i: int| 0 <= i < p_history.posts().len() implies p_history.posts()[i].id
                < p_posts@[k as int]@.id by {
                let m: int = if prefix.len() <= max {
                    0
                } else {
                    prefix.len() - max
                };
                assert(p_history.posts()[i] == prefix[m + i]);
                assert(prefix[m + i] == p_posts@[m + i]@);
            }
        }
        let post = p_posts[k].clone();
        p_history.add_full_post(post);
        proof {
            assert(views_of(p_posts@.take(k + 1)).drop_last() =~= prefix);
            assert(views_of(p_posts@.take(k + 1)).last() == p_posts@[k as int]@);
            assert(p_history.posts() =~= run_restore(
                Seq::empty(),
                max,
                views_of(p_posts@.take(k + 1)),
            ));
        }
    }
    proof {
        assert(p_posts@.take(n as int) =~= p_posts@);
    }
    n
}

/// Restores a stored history: reads every well-formed record of `p_text`,
/// skipping malformed ones, and feeds the admitted posts into the empty
/// history without reassigning ids or notifying listeners. Returns the
/// number of posts fed in.
pub fn restore_history<L: HistoryListener>(p_history: &mut History<L>, p_text: &str) -> (r: usize)
    requires
        old(p_history).wf(),
        old(p_history).posts().len() == 0,
    ensures
        final(p_history).wf(),
        final(p_history).posts() == run_restore(
            Seq::empty(),
            old(p_history).max_size_spec(),
            admitted_posts(spec_parse_file(p_text@, 0), 0),
        ),
        r == admitted_posts(spec_parse_file(p_text@, 0), 0).len(),
        final(p_history).board_name_view() == old(p_history).board_name_view(),
        final(p_history).max_size_spec() == old(p_history).max_size_spec(),
        final(p_history).listeners() == old(p_history).listeners(),
        final(p_history).trace() == old(p_history).trace(),
{
    let records = parse_history_text(p_text);
    let posts = posts_from_records(&records);
    proof {
        lemma_admitted_posts_ids(spec_parse_file(p_text@, 0), 0);
        assert forall|a: int, b: int| 0 <= a < b < posts@.len() implies posts@[a]@.id
            < posts@[b]@.id by {
            assert(views_of(posts@)[a] == posts@[a]@);
            assert(views_of(posts@)[b] == posts@[b]@);
        }
        assert forall|a: int| 0 <= a < posts@.len() implies posts@[a]@.id < u64::MAX by {
            assert(views_of(posts@)[a] == posts@[a]@);
        }
    }
    load_posts(p_history, posts)
}

/// A failure of a storage backend, reported to the recorder and contained
/// there: the durable sink could not take the post.
pub enum StorageError {
    WriteFailed,
}

/// Common interface for storage backends: the durable sink that a
/// recording listener appends every new post to.
///
/// This is the trait to implement to save the history in another format or
/// place. A backend does its writing best-effort: it reports a failure
/// through its result, and the caller contains it.
pub trait StorageBackend {
    /// Saves one post to the durable sink.
    fn save_post(&mut self, p_post: &Post) -> Result<(), StorageError>;
}

/// A storage backend that keeps the saved posts in memory, in the order
/// they were saved.
pub struct MemoryStorage {
    saved: Vec<Post>,
}

impl MemoryStorage {
    /// The saved posts.
    pub closed spec fn saved_view(&self) -> Seq<PostView> {
        views_of(self.saved@)
    }

    /// Constructs an empty in-memory backend.
    pub fn new() -> (r: MemoryStorage)
        ensures
            r.saved_view() == Seq::<PostView>::empty(),
    {
        let r = MemoryStorage { saved: Vec::new() };
        proof {
            assert(r.saved_view() =~= Seq::<PostView>::empty());
        }
        r
    }

    /// Gives the saved posts, oldest first.
    pub fn saved(&self) -> (r: &Vec<Post>)
        ensures
            views_of(r@) == self.saved_view(),
    {
        &self.saved
    }
}

impl StorageBackend for MemoryStorage {
    /// Keeps the post in memory; this sink never fails.
    fn save_post(&mut self, p_post: &Post) -> Result<(), StorageError> {
        self.saved.push(p_post.clone());
        Ok(())
    }
}

/// The file-system place of a stored history: the directory where the data
/// files live and the name of the history file, kept as plain strings. The
/// reading and writing of that file happen outside this crate; the records
/// themselves are made and read by [`encode_post`] and
/// [`parse_history_text`].
pub struct CsvFileStorage {
    /// Directory where the data files are stored.
    dir: String,
    /// Name of the history data file.
    file: String,
}

impl CsvFileStorage {
    /// The directory where the data files are stored.
    pub closed spec fn dir_view(&self) -> Seq<char> {
        self.dir@
    }

    /// The name of the history data file.
    pub closed spec fn file_view(&self) -> Seq<char> {
        self.file@
    }

    /// Builds a new CSV file storage place from the directory and the file
    /// name.
    pub fn new(p_dir: &String, p_file: String) -> (r: CsvFileStorage)
        ensures
            r.dir_view() == p_dir@,
            r.file_view() == p_file@,
    {
        CsvFileStorage { dir: p_dir.clone(), file: p_file }
    }

    /// Gives the full path of the backend file: the directory and the file
    /// name, joined with a slash.
    pub fn file_path(&self) -> (r: String)
        ensures
            r@ == self.dir_view() + seq!['/'] + self.file_view(),
    {
        proof {
            reveal_strlit("/");
        }
        let mut r = self.dir.clone();
        r.append("/");
        r.append(self.file.as_str());
        proof {
            assert(r@ =~= self.dir_view() + seq!['/'] + self.file_view());
        }
        r
    }
}

} // verus!
