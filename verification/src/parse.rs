//! The wire parser: header/body byte form back to the canonical message
//! model. The parser is maximally lenient: only a stream with no
//! header/body boundary at all is rejected; garbled or missing headers
//! degrade to empty fields.

use vstd::prelude::*;
use vstd::string::StrSliceExecFns;
use vstd::string::StringExecFns;
use vstd::utf8::{decode_utf8, valid_utf8};
use crate::address::{is_valid_mailbox, spec_valid_mailbox};
use crate::date::{format_rfc3339, parse_rfc5322, spec_format_rfc3339, spec_parse_rfc5322};
use crate::model::{
    headers_view, key_bcc, key_cc, key_date, key_from, key_message_id, key_subject, key_to,
    spec_excluded, Email, FormatError,
};
use crate::text::{
    copy_range, eq_ignore_case, find_in, is_first_in, lemma_find_in_neg, lemma_find_in_none,
    lemma_find_in_some, spec_find_in, spec_lower, spec_trim, trim_in,
};

verus! {

/// A line with its terminating carriage return, if any, removed.
pub open spec fn strip_cr(line: Seq<char>) -> Seq<char> {
    if line.len() > 0 && line.last() == '\r' {
        line.drop_last()
    } else {
        line
    }
}

/// Splits a stream into its header lines and its body: lines end at a
/// line feed (a preceding carriage return is dropped), the headers end
/// at the first empty line, and the rest of the stream is the body,
/// verbatim. `None` when no empty line terminates the headers — the one
/// shape the parser rejects.
pub open spec fn spec_split_message(s: Seq<char>) -> Option<(Seq<Seq<char>>, Seq<char>)>
    decreases s.len(),
{
    let j = spec_find_in(s, 0, s.len() as int, '\n');
    if j < 0 || s.len() <= j {
        None
    } else {
        let line = strip_cr(s.take(j));
        let rest = s.skip(j + 1);
        if line.len() == 0 {
            Some((Seq::<Seq<char>>::empty(), rest))
        } else {
            match spec_split_message(rest) {
                None => None,
                Some((ls, b)) => Some((seq![line] + ls, b)),
            }
        }
    }
}

/// The result of prefixing already-split lines onto the outcome of
/// splitting the remainder.
pub open spec fn prepend_lines(
    acc: Seq<Seq<char>>,
    r: Option<(Seq<Seq<char>>, Seq<char>)>,
) -> Option<(Seq<Seq<char>>, Seq<char>)> {
    match r {
        None => None,
        Some((ls, b)) => Some((acc + ls, b)),
    }
}

/// The value of a header line with its separating space removed: the
/// parser strips exactly one space after the colon, so a value that
/// itself begins with spaces survives a round trip unchanged.
pub open spec fn strip_one_space(v: Seq<char>) -> Seq<char> {
    if v.len() > 0 && v[0] == ' ' {
        v.drop_first()
    } else {
        v
    }
}

/// One header line read as a (name, value) pair at its first colon;
/// a line without a colon carries no header.
pub open spec fn spec_header_pair(line: Seq<char>) -> Option<(Seq<char>, Seq<char>)> {
    let j = spec_find_in(line, 0, line.len() as int, ':');
    if j < 0 || line.len() <= j {
        None
    } else {
        Some((line.take(j), strip_one_space(line.skip(j + 1))))
    }
}

/// The (name, value) pairs of the header lines, in order, colon-less
/// lines dropped.
pub open spec fn spec_pairs(lines: Seq<Seq<char>>) -> Seq<(Seq<char>, Seq<char>)>
    decreases lines.len(),
{
    if lines.len() == 0 {
        Seq::<(Seq<char>, Seq<char>)>::empty()
    } else {
        (match spec_header_pair(lines[0]) {
            Some(p) => seq![p],
            None => Seq::<(Seq<char>, Seq<char>)>::empty(),
        }) + spec_pairs(lines.drop_first())
    }
}

proof fn lemma_pairs_push(lines: Seq<Seq<char>>, x: Seq<char>)
    ensures
        spec_pairs(lines.push(x)) == spec_pairs(lines) + (match spec_header_pair(x) {
            Some(p) => seq![p],
            None => Seq::<(Seq<char>, Seq<char>)>::empty(),
        }),
    decreases lines.len(),
{
    reveal_with_fuel(spec_pairs, 3);
    let item = match spec_header_pair(x) {
        Some(p) => seq![p],
        None => Seq::<(Seq<char>, Seq<char>)>::empty(),
    };
    if lines.len() == 0 {
        assert(lines.push(x)[0] == x);
        assert(lines.push(x).drop_first() =~= Seq::<Seq<char>>::empty());
        assert(spec_pairs(lines.push(x)) =~= spec_pairs(lines) + item);
    } else {
        assert(lines.push(x)[0] == lines[0]);
        assert(lines.push(x).drop_first() =~= lines.drop_first().push(x));
        lemma_pairs_push(lines.drop_first(), x);
        assert(spec_pairs(lines.push(x)) =~= spec_pairs(lines) + item);
    }
}

/// Splits a stream at its header/body boundary into CR-stripped header
/// lines and the verbatim body.
#[verifier::loop_isolation(false)]
fn split_message(s: &str) -> (r: Option<(Vec<String>, String)>)
    ensures
        match r {
            Some((lines, body)) => spec_split_message(s@) == Some((lines.deep_view(), body@)),
            None => spec_split_message(s@) is None,
        },
{
    let n = s.unicode_len();
    let mut lines: Vec<String> = Vec::new();
    let mut pos: usize = 0;
    proof {
        assert(lines.deep_view() =~= Seq::<Seq<char>>::empty());
        assert(s@.skip(0) =~= s@);
        if spec_split_message(s@) is Some {
            let (ls, b) = spec_split_message(s@).unwrap();
            assert(lines.deep_view() + ls =~= ls);
        }
    }
    loop
        invariant
            pos <= n == s@.len(),
            spec_split_message(s@) == prepend_lines(
                lines.deep_view(),
                spec_split_message(s@.skip(pos as int)),
            ),
        decreases n - pos,
    {
        let ghost suf = s@.skip(pos as int);
        match find_in(s, pos, n, '\n') {
            None => {
                proof {
                    lemma_find_in_neg(s@, pos as int, n as int, '\n');
                    assert forall|k: int| 0 <= k < suf.len() implies suf[k] != '\n' by {
                        assert(suf[k] == s@[pos + k]);
                    }
                    lemma_find_in_none(suf, 0, suf.len() as int, '\n');
                    assert(spec_split_message(suf) is None);
                }
                return None;
            },
            Some(j) => {
                proof {
                    assert forall|k: int| 0 <= k < j - pos implies suf[k] != '\n' by {
                        assert(suf[k] == s@[pos + k]);
                    }
                    assert(suf[j - pos] == s@[j as int]);
                    assert(is_first_in(suf, 0, suf.len() as int, '\n', j - pos));
                    lemma_find_in_some(suf, 0, suf.len() as int, '\n', j - pos);
                    assert(suf.take(j - pos) =~= s@.subrange(pos as int, j as int));
                    assert(suf.skip(j - pos + 1) =~= s@.skip(j as int + 1));
                }
                let line_end = if j > pos && s.get_char(j - 1) == '\r' {
                    j - 1
                } else {
                    j
                };
                proof {
                    assert(strip_cr(suf.take(j - pos)) =~= s@.subrange(
                        pos as int,
                        line_end as int,
                    ));
                }
                if line_end == pos {
                    let body = copy_range(s, j + 1, n);
                    proof {
                        assert(body@ =~= suf.skip(j - pos + 1));
                        assert(spec_split_message(suf) == Some(
                            (Seq::<Seq<char>>::empty(), body@),
                        ));
                        assert(lines.deep_view() + Seq::<Seq<char>>::empty() =~= lines.deep_view());
                    }
                    return Some((lines, body));
                } else {
                    let line = copy_range(s, pos, line_end);
                    let ghost old_lines = lines.deep_view();
                    lines.push(line);
                    proof {
                        assert(lines.deep_view() =~= old_lines.push(line@));
                        let inner = spec_split_message(s@.skip(j as int + 1));
                        assert(spec_split_message(suf) == (match inner {
                            None => None::<(Seq<Seq<char>>, Seq<char>)>,
                            Some((ls, b)) => Some((seq![line@] + ls, b)),
                        }));
                        if inner is Some {
                            let (ls, b) = inner.unwrap();
                            assert(old_lines + (seq![line@] + ls) =~= old_lines.push(line@) + ls);
                        }
                    }
                    pos = j + 1;
                }
            },
        }
    }
}

/// Reads every header line into its (name, value) pair, dropping lines
/// without a colon.
#[verifier::loop_isolation(false)]
fn header_pairs(lines: &Vec<String>) -> (r: Vec<(String, String)>)
    ensures
        headers_view(r@) == spec_pairs(lines.deep_view()),
{
    let mut out: Vec<(String, String)> = Vec::new();
    let mut i: usize = 0;
    while i < lines.len()
        invariant
            0 <= i <= lines.len(),
            headers_view(out@) == spec_pairs(lines.deep_view().take(i as int)),
        decreases lines.len() - i,
    {
        let ghost prefix = lines.deep_view().take(i as int);
        let line = &lines[i];
        proof {
            assert(lines.deep_view()[i as int] == line@);
        }
        let len = line.as_str().unicode_len();
        let ghost old_out = headers_view(out@);
        match find_in(line.as_str(), 0, len, ':') {
            None => {
                proof {
                    assert(spec_header_pair(line@) is None);
                }
            },
            Some(j) => {
                let name = copy_range(line.as_str(), 0, j);
                let vstart = if j + 1 < len && line.as_str().get_char(j + 1) == ' ' {
                    j + 2
                } else {
                    j + 1
                };
                let value = copy_range(line.as_str(), vstart, len);
                proof {
                    assert(line@.take(j as int) =~= name@);
                    assert(strip_one_space(line@.skip(j as int + 1)) =~= value@);
                    assert(spec_header_pair(line@) == Some((name@, value@)));
                }
                out.push((name, value));
                proof {
                    assert(headers_view(out@) =~= old_out.push(
                        (out@[out@.len() - 1].0@, out@[out@.len() - 1].1@),
                    ));
                }
            },
        }
        proof {
            lemma_pairs_push(prefix, line@);
            assert(prefix.push(line@) =~= lines.deep_view().take(i as int + 1));
        }
        i += 1;
    }
    proof {
        assert(lines.deep_view().take(lines@.len() as int) =~= lines.deep_view());
    }
    out
}

/// A header value split at its commas; splitting starts at `i`.
pub open spec fn spec_split_commas(v: Seq<char>, i: int) -> Seq<Seq<char>>
    decreases v.len() - i,
{
    if !(0 <= i <= v.len()) {
        Seq::<Seq<char>>::empty()
    } else {
        let j = spec_find_in(v, i, v.len() as int, ',');
        if j < 0 || v.len() <= j {
            seq![v.subrange(i, v.len() as int)]
        } else {
            seq![v.subrange(i, j)] + spec_split_commas(v, j + 1)
        }
    }
}

/// The address portion of one listed mailbox: the item is trimmed, and
/// when an angle-bracketed part follows a display name, that part is
/// taken instead.
pub open spec fn spec_extract_addr(item: Seq<char>) -> Seq<char> {
    let t = spec_trim(item);
    let a = spec_find_in(t, 0, t.len() as int, '<');
    if a < 0 || t.len() <= a {
        t
    } else {
        let b = spec_find_in(t, a + 1, t.len() as int, '>');
        if b < 0 || t.len() <= b {
            t
        } else {
            t.subrange(a + 1, b)
        }
    }
}

/// The valid mailboxes among a list of items, in order; an item whose
/// address portion is not a valid mailbox is dropped rather than
/// aborting the conversion.
pub open spec fn spec_addr_list(items: Seq<Seq<char>>) -> Seq<Seq<char>>
    decreases items.len(),
{
    if items.len() == 0 {
        Seq::<Seq<char>>::empty()
    } else {
        (if spec_valid_mailbox(spec_extract_addr(items[0])) {
            seq![spec_extract_addr(items[0])]
        } else {
            Seq::<Seq<char>>::empty()
        }) + spec_addr_list(items.drop_first())
    }
}

/// Every mailbox address a header value lists, in order.
pub open spec fn spec_addrs_of_value(v: Seq<char>) -> Seq<Seq<char>> {
    spec_addr_list(spec_split_commas(v, 0))
}

proof fn lemma_addr_list_push(items: Seq<Seq<char>>, x: Seq<char>)
    ensures
        spec_addr_list(items.push(x)) == spec_addr_list(items) + (if spec_valid_mailbox(
            spec_extract_addr(x),
        ) {
            seq![spec_extract_addr(x)]
        } else {
            Seq::<Seq<char>>::empty()
        }),
    decreases items.len(),
{
    reveal_with_fuel(spec_addr_list, 3);
    let item = if spec_valid_mailbox(spec_extract_addr(x)) {
        seq![spec_extract_addr(x)]
    } else {
        Seq::<Seq<char>>::empty()
    };
    if items.len() == 0 {
        assert(items.push(x)[0] == x);
        assert(items.push(x).drop_first() =~= Seq::<Seq<char>>::empty());
        assert(spec_addr_list(items.push(x)) =~= spec_addr_list(items) + item);
    } else {
        assert(items.push(x)[0] == items[0]);
        assert(items.push(x).drop_first() =~= items.drop_first().push(x));
        lemma_addr_list_push(items.drop_first(), x);
        assert(spec_addr_list(items.push(x)) =~= spec_addr_list(items) + item);
    }
}

/// Extracts the address portion of the item `v[from..to)` and appends it
/// when it is a valid mailbox.
#[verifier::loop_isolation(false)]
fn push_addr_item(out: &mut Vec<String>, v: &str, from: usize, to: usize)
    requires
        from <= to <= v@.len(),
    ensures
        final (out).deep_view() == old(out).deep_view() + (if spec_valid_mailbox(
            spec_extract_addr(v@.subrange(from as int, to as int)),
        ) {
            seq![spec_extract_addr(v@.subrange(from as int, to as int))]
        } else {
            Seq::<Seq<char>>::empty()
        }),
{
    let ghost item = v@.subrange(from as int, to as int);
    let (lo, hi) = trim_in(v, from, to);
    let ghost t = spec_trim(item);
    proof {
        assert(t == v@.subrange(lo as int, hi as int));
    }
    let mut alo: usize = lo;
    let mut ahi: usize = hi;
    match find_in(v, lo, hi, '<') {
        None => {
            proof {
                lemma_find_in_neg(v@, lo as int, hi as int, '<');
                assert forall|k: int| 0 <= k < t.len() implies t[k] != '<' by {
                    assert(t[k] == v@[lo + k]);
                }
                lemma_find_in_none(t, 0, t.len() as int, '<');
            }
        },
        Some(a) => {
            proof {
                assert forall|k: int| 0 <= k < a - lo implies t[k] != '<' by {
                    assert(t[k] == v@[lo + k]);
                }
                assert(t[a - lo] == v@[a as int]);
                assert(is_first_in(t, 0, t.len() as int, '<', a - lo));
                lemma_find_in_some(t, 0, t.len() as int, '<', a - lo);
            }
            match find_in(v, a + 1, hi, '>') {
                None => {
                    proof {
                        lemma_find_in_neg(v@, a as int + 1, hi as int, '>');
                        assert forall|k: int| a - lo + 1 <= k < t.len() implies t[k] != '>' by {
                            assert(t[k] == v@[lo + k]);
                        }
                        lemma_find_in_none(t, a - lo + 1, t.len() as int, '>');
                    }
                },
                Some(b) => {
                    proof {
                        assert forall|k: int| a - lo + 1 <= k < b - lo implies t[k] != '>' by {
                            assert(t[k] == v@[lo + k]);
                        }
                        assert(t[b - lo] == v@[b as int]);
                        assert(is_first_in(t, a - lo + 1, t.len() as int, '>', b - lo));
                        lemma_find_in_some(t, a - lo + 1, t.len() as int, '>', b - lo);
                        assert(t.subrange(a - lo + 1, b - lo) =~= v@.subrange(
                            a as int + 1,
                            b as int,
                        ));
                    }
                    alo = a + 1;
                    ahi = b;
                },
            }
        },
    }
    let candidate = copy_range(v, alo, ahi);
    proof {
        assert(candidate@ == spec_extract_addr(item));
    }
    let ghost old_dv = out.deep_view();
    if is_valid_mailbox(candidate.as_str()) {
        out.push(candidate);
        proof {
            assert(out.deep_view() =~= old_dv.push(out@[out@.len() - 1]@));
            assert(out.deep_view() =~= old_dv + seq![spec_extract_addr(item)]);
        }
    } else {
        proof {
            assert(out.deep_view() =~= old_dv + Seq::<Seq<char>>::empty());
        }
    }
}

/// Appends every valid mailbox a header value lists.
#[verifier::loop_isolation(false)]
fn append_addrs_of_value(out: &mut Vec<String>, v: &str)
    ensures
        final (out).deep_view() == old(out).deep_view() + spec_addrs_of_value(v@),
{
    let n = v.unicode_len();
    let ghost base = out.deep_view();
    let ghost mut processed: Seq<Seq<char>> = Seq::<Seq<char>>::empty();
    let mut pos: usize = 0;
    proof {
        assert(processed + spec_split_commas(v@, 0) =~= spec_split_commas(v@, 0));
        assert(spec_addr_list(processed) =~= Seq::<Seq<char>>::empty());
        assert(base + spec_addr_list(processed) =~= base);
    }
    loop
        invariant
            pos <= n == v@.len(),
            spec_split_commas(v@, 0) == processed + spec_split_commas(v@, pos as int),
            out.deep_view() == base + spec_addr_list(processed),
        decreases n - pos,
    {
        match find_in(v, pos, n, ',') {
            None => {
                let ghost item = v@.subrange(pos as int, n as int);
                push_addr_item(out, v, pos, n);
                proof {
                    assert(spec_split_commas(v@, pos as int) == seq![item]);
                    lemma_addr_list_push(processed, item);
                    assert(processed + seq![item] =~= processed.push(item));
                    assert(out.deep_view() =~= base + spec_addr_list(processed.push(item)));
                    assert(spec_addrs_of_value(v@) == spec_addr_list(processed.push(item)));
                }
                return;
            },
            Some(j) => {
                let ghost item = v@.subrange(pos as int, j as int);
                push_addr_item(out, v, pos, j);
                proof {
                    assert(spec_split_commas(v@, pos as int) == seq![item] + spec_split_commas(
                        v@,
                        j as int + 1,
                    ));
                    lemma_addr_list_push(processed, item);
                    assert(processed + (seq![item] + spec_split_commas(v@, j as int + 1))
                        =~= processed.push(item) + spec_split_commas(v@, j as int + 1));
                    assert(out.deep_view() =~= base + spec_addr_list(processed.push(item)));
                    processed = processed.push(item);
                }
                pos = j + 1;
            },
        }
    }
}

/// The value of the first header whose lower-cased name is `key`.
pub open spec fn spec_first_value(hs: Seq<(Seq<char>, Seq<char>)>, key: Seq<char>) -> Option<
    Seq<char>,
>
    decreases hs.len(),
{
    if hs.len() == 0 {
        None
    } else if spec_lower(hs[0].0) == key {
        Some(hs[0].1)
    } else {
        spec_first_value(hs.drop_first(), key)
    }
}

/// Every mailbox listed under the headers whose lower-cased name is
/// `key`, across repeated headers, in order.
pub open spec fn spec_collect_addrs(hs: Seq<(Seq<char>, Seq<char>)>, key: Seq<char>) -> Seq<
    Seq<char>,
>
    decreases hs.len(),
{
    if hs.len() == 0 {
        Seq::<Seq<char>>::empty()
    } else {
        (if spec_lower(hs[0].0) == key {
            spec_addrs_of_value(hs[0].1)
        } else {
            Seq::<Seq<char>>::empty()
        }) + spec_collect_addrs(hs.drop_first(), key)
    }
}

proof fn lemma_collect_push(hs: Seq<(Seq<char>, Seq<char>)>, x: (Seq<char>, Seq<char>), key: Seq<char>)
    ensures
        spec_collect_addrs(hs.push(x), key) == spec_collect_addrs(hs, key) + (if spec_lower(x.0)
            == key {
            spec_addrs_of_value(x.1)
        } else {
            Seq::<Seq<char>>::empty()
        }),
    decreases hs.len(),
{
    reveal_with_fuel(spec_collect_addrs, 3);
    let item = if spec_lower(x.0) == key {
        spec_addrs_of_value(x.1)
    } else {
        Seq::<Seq<char>>::empty()
    };
    if hs.len() == 0 {
        assert(hs.push(x)[0] == x);
        assert(hs.push(x).drop_first() =~= Seq::<(Seq<char>, Seq<char>)>::empty());
        assert(spec_collect_addrs(hs.push(x), key) =~= spec_collect_addrs(hs, key) + item);
    } else {
        assert(hs.push(x)[0] == hs[0]);
        assert(hs.push(x).drop_first() =~= hs.drop_first().push(x));
        lemma_collect_push(hs.drop_first(), x, key);
        assert(spec_collect_addrs(hs.push(x), key) =~= spec_collect_addrs(hs, key) + item);
    }
}

/// Finds the first header under `key` and hands its value back.
#[verifier::loop_isolation(false)]
fn first_value(hs: &Vec<(String, String)>, key: &str) -> (r: Option<String>)
    requires
        spec_lower(key@) == key@,
    ensures
        match r {
            Some(v) => spec_first_value(headers_view(hs@), key@) == Some(v@),
            None => spec_first_value(headers_view(hs@), key@) is None,
        },
{
    let ghost full = headers_view(hs@);
    let mut i: usize = 0;
    proof {
        assert(full.skip(0) =~= full);
    }
    while i < hs.len()
        invariant
            0 <= i <= hs.len(),
            full == headers_view(hs@),
            spec_first_value(full, key@) == spec_first_value(full.skip(i as int), key@),
        decreases hs.len() - i,
    {
        let pair = &hs[i];
        proof {
            assert(full[i as int] == (pair.0@, pair.1@));
            assert(full.skip(i as int)[0] == full[i as int]);
        }
        let name_str = pair.0.as_str();
        if eq_ignore_case(name_str, key) {
            proof {
                assert(spec_lower(pair.0@) =~= spec_lower(name_str@));
                assert(spec_first_value(full.skip(i as int), key@) == Some(pair.1@));
            }
            return Some(pair.1.clone());
        }
        proof {
            assert(full.skip(i as int).drop_first() =~= full.skip(i as int + 1));
        }
        i += 1;
    }
    proof {
        assert(full.skip(hs@.len() as int).len() == 0);
    }
    None
}

/// Collects every mailbox listed under `key`, across repeated headers.
#[verifier::loop_isolation(false)]
fn collect_addrs(hs: &Vec<(String, String)>, key: &str) -> (r: Vec<String>)
    requires
        spec_lower(key@) == key@,
    ensures
        r.deep_view() == spec_collect_addrs(headers_view(hs@), key@),
{
    let ghost full = headers_view(hs@);
    let mut out: Vec<String> = Vec::new();
    let mut i: usize = 0;
    proof {
        assert(out.deep_view() =~= Seq::<Seq<char>>::empty());
        assert(full.take(0) =~= Seq::<(Seq<char>, Seq<char>)>::empty());
    }
    while i < hs.len()
        invariant
            0 <= i <= hs.len(),
            full == headers_view(hs@),
            out.deep_view() == spec_collect_addrs(full.take(i as int), key@),
        decreases hs.len() - i,
    {
        let ghost prefix = full.take(i as int);
        let pair = &hs[i];
        let name_str = pair.0.as_str();
        proof {
            assert(full[i as int] == (pair.0@, pair.1@));
            assert(spec_lower(pair.0@) =~= spec_lower(name_str@));
            lemma_collect_push(prefix, full[i as int], key@);
            assert(prefix.push(full[i as int]) =~= full.take(i as int + 1));
        }
        if eq_ignore_case(name_str, key) {
            let value_str = pair.1.as_str();
            proof {
                assert(spec_lower(pair.0@) == key@);
            }
            append_addrs_of_value(&mut out, value_str);
            proof {
                assert(out.deep_view() =~= spec_collect_addrs(full.take(i as int + 1), key@));
            }
        } else {
            proof {
                assert(spec_lower(pair.0@) != key@);
                assert(spec_collect_addrs(prefix, key@) + Seq::<Seq<char>>::empty()
                    =~= spec_collect_addrs(prefix, key@));
                assert(out.deep_view() =~= spec_collect_addrs(full.take(i as int + 1), key@));
            }
        }
        i += 1;
    }
    proof {
        assert(full.take(hs@.len() as int) =~= full);
    }
    out
}

proof fn lemma_keys_lower()
    ensures
        "from"@ == key_from() && spec_lower("from"@) == key_from(),
        "to"@ == key_to() && spec_lower("to"@) == key_to(),
        "cc"@ == key_cc() && spec_lower("cc"@) == key_cc(),
        "bcc"@ == key_bcc() && spec_lower("bcc"@) == key_bcc(),
        "subject"@ == key_subject() && spec_lower("subject"@) == key_subject(),
        "date"@ == key_date() && spec_lower("date"@) == key_date(),
        "message-id"@ == key_message_id() && spec_lower("message-id"@) == key_message_id(),
{
    reveal_strlit("from");
    reveal_strlit("to");
    reveal_strlit("cc");
    reveal_strlit("bcc");
    reveal_strlit("subject");
    reveal_strlit("date");
    reveal_strlit("message-id");
    assert("from"@ =~= key_from());
    assert("to"@ =~= key_to());
    assert("cc"@ =~= key_cc());
    assert("bcc"@ =~= key_bcc());
    assert("subject"@ =~= key_subject());
    assert("date"@ =~= key_date());
    assert("message-id"@ =~= key_message_id());
    assert(spec_lower("from"@) =~= key_from());
    assert(spec_lower("to"@) =~= key_to());
    assert(spec_lower("cc"@) =~= key_cc());
    assert(spec_lower("bcc"@) =~= key_bcc());
    assert(spec_lower("subject"@) =~= key_subject());
    assert(spec_lower("date"@) =~= key_date());
    assert(spec_lower("message-id"@) =~= key_message_id());
}

fn is_excluded(name: &str) -> (r: bool)
    ensures
        r == spec_excluded(name@),
{
    proof {
        lemma_keys_lower();
    }
    eq_ignore_case(name, "from") || eq_ignore_case(name, "to") || eq_ignore_case(name, "cc")
        || eq_ignore_case(name, "bcc") || eq_ignore_case(name, "subject") || eq_ignore_case(
        name,
        "date",
    ) || eq_ignore_case(name, "message-id")
}

/// `j` is the position of the first stored header named `name`.
pub open spec fn is_first_name_at(
    hs: Seq<(Seq<char>, Seq<char>)>,
    name: Seq<char>,
    j: int,
) -> bool {
    &&& 0 <= j < hs.len()
    &&& hs[j].0 == name
    &&& forall|k: int| 0 <= k < j ==> hs[k].0 != name
}

/// The position of the first stored header named `name`, or `-1`.
pub open spec fn spec_index_of_name(hs: Seq<(Seq<char>, Seq<char>)>, name: Seq<char>) -> int {
    if exists|j: int| is_first_name_at(hs, name, j) {
        choose|j: int| is_first_name_at(hs, name, j)
    } else {
        -1
    }
}

proof fn lemma_index_of_name_some(hs: Seq<(Seq<char>, Seq<char>)>, name: Seq<char>, j: int)
    requires
        is_first_name_at(hs, name, j),
    ensures
        spec_index_of_name(hs, name) == j,
{
    let j2 = choose|j2: int| is_first_name_at(hs, name, j2);
    assert(is_first_name_at(hs, name, j2));
    if j2 < j {
        assert(hs[j2].0 != name);
    } else if j < j2 {
        assert(hs[j].0 != name);
    }
}

proof fn lemma_index_of_name_none(hs: Seq<(Seq<char>, Seq<char>)>, name: Seq<char>)
    requires
        forall|k: int| 0 <= k < hs.len() ==> hs[k].0 != name,
    ensures
        spec_index_of_name(hs, name) == -1,
{
    if exists|j: int| is_first_name_at(hs, name, j) {
        let j = choose|j: int| is_first_name_at(hs, name, j);
        assert(hs[j].0 != name);
    }
}

/// A header list with `name` bound to `value`: the first stored entry of
/// that exact name is overwritten, and a new name is appended.
pub open spec fn spec_upsert(
    acc: Seq<(Seq<char>, Seq<char>)>,
    name: Seq<char>,
    value: Seq<char>,
) -> Seq<(Seq<char>, Seq<char>)> {
    let k = spec_index_of_name(acc, name);
    if k == -1 {
        acc.push((name, value))
    } else {
        acc.update(k, (name, value))
    }
}

/// The extra headers a header list leaves once the seven typed names are
/// taken out: every remaining pair is folded in, in order, a later
/// duplicate name overwriting an earlier one.
pub open spec fn spec_others(
    hs: Seq<(Seq<char>, Seq<char>)>,
    acc: Seq<(Seq<char>, Seq<char>)>,
) -> Seq<(Seq<char>, Seq<char>)>
    decreases hs.len(),
{
    if hs.len() == 0 {
        acc
    } else {
        spec_others(
            hs.drop_first(),
            if spec_excluded(hs[0].0) {
                acc
            } else {
                spec_upsert(acc, hs[0].0, hs[0].1)
            },
        )
    }
}

#[verifier::loop_isolation(false)]
fn upsert(out: &mut Vec<(String, String)>, name: String, value: String)
    ensures
        headers_view(final (out)@) == spec_upsert(headers_view(old(out)@), name@, value@),
{
    let ghost acc = headers_view(out@);
    let mut k: usize = 0;
    while k < out.len()
        invariant
            0 <= k <= out.len(),
            out@ == old(out)@,
            acc == headers_view(out@),
            forall|i: int| 0 <= i < k ==> acc[i].0 != name@,
        decreases out.len() - k,
    {
        if out[k].0 == name {
            proof {
                assert(out@[k as int].0@ == name@);
                assert(acc[k as int] == (out@[k as int].0@, out@[k as int].1@));
                lemma_index_of_name_some(acc, name@, k as int);
            }
            out.remove(k);
            out.insert(k, (name, value));
            proof {
                assert(headers_view(out@) =~= spec_upsert(acc, name@, value@));
            }
            return;
        }
        proof {
            assert(acc[k as int].0 != name@);
        }
        k += 1;
    }
    proof {
        lemma_index_of_name_none(acc, name@);
    }
    out.push((name, value));
    proof {
        assert(headers_view(out@) =~= spec_upsert(acc, name@, value@));
    }
}

/// Keeps every header outside the seven typed names, later duplicates
/// overwriting earlier ones.
#[verifier::loop_isolation(false)]
fn build_others(hs: &Vec<(String, String)>) -> (r: Vec<(String, String)>)
    ensures
        headers_view(r@) == spec_others(
            headers_view(hs@),
            Seq::<(Seq<char>, Seq<char>)>::empty(),
        ),
{
    let ghost full = headers_view(hs@);
    let ghost empty_acc = Seq::<(Seq<char>, Seq<char>)>::empty();
    let mut out: Vec<(String, String)> = Vec::new();
    let mut i: usize = 0;
    proof {
        assert(full.skip(0) =~= full);
        assert(headers_view(out@) =~= empty_acc);
    }
    while i < hs.len()
        invariant
            0 <= i <= hs.len(),
            spec_others(full, empty_acc) == spec_others(
                full.skip(i as int),
                headers_view(out@),
            ),
        decreases hs.len() - i,
    {
        let pair = &hs[i];
        proof {
            assert(full[i as int] == (pair.0@, pair.1@));
            assert(full.skip(i as int)[0] == full[i as int]);
            assert(full.skip(i as int).drop_first() =~= full.skip(i as int + 1));
        }
        let name_str = pair.0.as_str();
        proof {
            assert(spec_lower(pair.0@) =~= spec_lower(name_str@));
        }
        if !is_excluded(name_str) {
            proof {
                assert(!spec_excluded(pair.0@));
            }
            upsert(&mut out, pair.0.clone(), pair.1.clone());
        } else {
            proof {
                assert(spec_excluded(pair.0@));
            }
        }
        i += 1;
    }
    proof {
        assert(full.skip(hs@.len() as int).len() == 0);
    }
    out
}

/// The `from` field a header list yields: the address portion of the
/// first mailbox of the first `From` header, or empty.
pub open spec fn spec_from_field(hs: Seq<(Seq<char>, Seq<char>)>) -> Seq<char> {
    match spec_first_value(hs, key_from()) {
        None => Seq::<char>::empty(),
        Some(v) => {
            let l = spec_addrs_of_value(v);
            if l.len() == 0 {
                Seq::<char>::empty()
            } else {
                l[0]
            }
        },
    }
}

/// A raw-valued field (`Subject`, `Message-ID`): the first matching
/// header's value, or empty.
pub open spec fn spec_simple_field(hs: Seq<(Seq<char>, Seq<char>)>, key: Seq<char>) -> Seq<char> {
    match spec_first_value(hs, key) {
        None => Seq::<char>::empty(),
        Some(v) => v,
    }
}

/// The `date` field: the first `Date` header's value re-expressed in the
/// machine-oriented form when it reads as a mail-header date, else empty.
pub open spec fn spec_date_field(hs: Seq<(Seq<char>, Seq<char>)>) -> Seq<char> {
    match spec_first_value(hs, key_date()) {
        None => Seq::<char>::empty(),
        Some(v) => match spec_parse_rfc5322(v) {
            Some(dt) => spec_format_rfc3339(dt),
            None => Seq::<char>::empty(),
        },
    }
}

/// What a successful parse yields, field by field, in terms of the
/// stream's header lines and body.
pub open spec fn parse_ok(s: Seq<char>, m: Email) -> bool {
    spec_split_message(s) matches Some((lines, body)) && {
        let hs = spec_pairs(lines);
        &&& m.from@ == spec_from_field(hs)
        &&& m.to.deep_view() == spec_collect_addrs(hs, key_to())
        &&& m.cc.deep_view() == spec_collect_addrs(hs, key_cc())
        &&& m.bcc.deep_view() == spec_collect_addrs(hs, key_bcc())
        &&& m.subject@ == spec_simple_field(hs, key_subject())
        &&& m.date@ == spec_date_field(hs)
        &&& m.message_id@ == spec_simple_field(hs, key_message_id())
        &&& headers_view(m.other_headers@) == spec_others(
            hs,
            Seq::<(Seq<char>, Seq<char>)>::empty(),
        )
        &&& m.body@ == body
    }
}

/// Parses a stream of text into the message model. Only a stream with no
/// header/body boundary is rejected; every field of a successful parse
/// is pinned by `parse_ok`.
pub fn parse_text(s: &str) -> (r: Result<Email, FormatError>)
    ensures
        match r {
            Ok(m) => parse_ok(s@, m),
            Err(e) => e == FormatError::Unparsable && spec_split_message(s@) is None,
        },
{
    let (lines, body) = match split_message(s) {
        None => {
            return Err(FormatError::Unparsable);
        },
        Some(x) => x,
    };
    let hs = header_pairs(&lines);
    let ghost pairs = headers_view(hs@);
    proof {
        lemma_keys_lower();
    }
    let from = match first_value(&hs, "from") {
        None => String::new(),
        Some(v) => {
            let mut tmp: Vec<String> = Vec::new();
            proof {
                assert(tmp.deep_view() =~= Seq::<Seq<char>>::empty());
            }
            append_addrs_of_value(&mut tmp, v.as_str());
            proof {
                assert(tmp.deep_view() =~= spec_addrs_of_value(v@));
            }
            if tmp.len() == 0 {
                String::new()
            } else {
                let a = tmp.remove(0);
                proof {
                    assert(a@ == tmp.deep_view().insert(0, a@)[0]);
                    assert(spec_addrs_of_value(v@)[0] == a@);
                }
                a
            }
        },
    };
    let to = collect_addrs(&hs, "to");
    let cc = collect_addrs(&hs, "cc");
    let bcc = collect_addrs(&hs, "bcc");
    let subject = match first_value(&hs, "subject") {
        None => String::new(),
        Some(v) => v,
    };
    let message_id = match first_value(&hs, "message-id") {
        None => String::new(),
        Some(v) => v,
    };
    let date = match first_value(&hs, "date") {
        None => String::new(),
        Some(v) => match parse_rfc5322(v.as_str()) {
            Some(dt) => format_rfc3339(&dt),
            None => String::new(),
        },
    };
    let other_headers = build_others(&hs);
    let m = Email { from, to, cc, bcc, subject, date, message_id, other_headers, body };
    Ok(m)
}

proof fn lemma_addr_list_valid(items: Seq<Seq<char>>)
    ensures
        forall|i: int|
            0 <= i < spec_addr_list(items).len() ==> spec_valid_mailbox(
                #[trigger] spec_addr_list(items)[i],
            ),
    decreases items.len(),
{
    if items.len() > 0 {
        lemma_addr_list_valid(items.drop_first());
        let hd = if spec_valid_mailbox(spec_extract_addr(items[0])) {
            seq![spec_extract_addr(items[0])]
        } else {
            Seq::<Seq<char>>::empty()
        };
        let tl = spec_addr_list(items.drop_first());
        assert forall|i: int|
            0 <= i < spec_addr_list(items).len() implies spec_valid_mailbox(
            #[trigger] spec_addr_list(items)[i],
        ) by {
            if i < hd.len() {
                assert(spec_addr_list(items)[i] == hd[i]);
            } else {
                assert(spec_addr_list(items)[i] == tl[i - hd.len()]);
            }
        }
    }
}

proof fn lemma_collect_addrs_valid(hs: Seq<(Seq<char>, Seq<char>)>, key: Seq<char>)
    ensures
        forall|i: int|
            0 <= i < spec_collect_addrs(hs, key).len() ==> spec_valid_mailbox(
                #[trigger] spec_collect_addrs(hs, key)[i],
            ),
    decreases hs.len(),
{
    if hs.len() > 0 {
        lemma_collect_addrs_valid(hs.drop_first(), key);
        let hd = if spec_lower(hs[0].0) == key {
            spec_addrs_of_value(hs[0].1)
        } else {
            Seq::<Seq<char>>::empty()
        };
        lemma_addr_list_valid(spec_split_commas(hs[0].1, 0));
        let tl = spec_collect_addrs(hs.drop_first(), key);
        assert forall|i: int|
            0 <= i < spec_collect_addrs(hs, key).len() implies spec_valid_mailbox(
            #[trigger] spec_collect_addrs(hs, key)[i],
        ) by {
            if i < hd.len() {
                assert(spec_collect_addrs(hs, key)[i] == hd[i]);
            } else {
                assert(spec_collect_addrs(hs, key)[i] == tl[i - hd.len()]);
            }
        }
    }
}

proof fn lemma_upsert_not_excluded(acc: Seq<(Seq<char>, Seq<char>)>, name: Seq<char>, value: Seq<char>)
    requires
        !spec_excluded(name),
        forall|j: int| 0 <= j < acc.len() ==> !spec_excluded(#[trigger] acc[j].0),
    ensures
        forall|j: int|
            0 <= j < spec_upsert(acc, name, value).len() ==> !spec_excluded(
                #[trigger] spec_upsert(acc, name, value)[j].0,
            ),
{
    let k = spec_index_of_name(acc, name);
    if k != -1 {
        assert(is_first_name_at(acc, name, k)) by {
            assert(exists|j: int| is_first_name_at(acc, name, j));
        }
    }
    assert forall|j: int|
        0 <= j < spec_upsert(acc, name, value).len() implies !spec_excluded(
        #[trigger] spec_upsert(acc, name, value)[j].0,
    ) by {
        if k == -1 {
            if j < acc.len() {
                assert(spec_upsert(acc, name, value)[j] == acc[j]);
            } else {
                assert(spec_upsert(acc, name, value)[j] == (name, value));
            }
        } else {
            if j == k {
                assert(spec_upsert(acc, name, value)[j] == (name, value));
            } else {
                assert(spec_upsert(acc, name, value)[j] == acc[j]);
            }
        }
    }
}

proof fn lemma_others_not_excluded(
    hs: Seq<(Seq<char>, Seq<char>)>,
    acc: Seq<(Seq<char>, Seq<char>)>,
)
    requires
        forall|j: int| 0 <= j < acc.len() ==> !spec_excluded(#[trigger] acc[j].0),
    ensures
        forall|j: int|
            0 <= j < spec_others(hs, acc).len() ==> !spec_excluded(
                #[trigger] spec_others(hs, acc)[j].0,
            ),
    decreases hs.len(),
{
    if hs.len() == 0 {
        assert forall|j: int|
            0 <= j < spec_others(hs, acc).len() implies !spec_excluded(
            #[trigger] spec_others(hs, acc)[j].0,
        ) by {
            assert(spec_others(hs, acc) == acc);
            assert(!spec_excluded(acc[j].0));
        }
    } else {
        let acc2 = if spec_excluded(hs[0].0) {
            acc
        } else {
            spec_upsert(acc, hs[0].0, hs[0].1)
        };
        if !spec_excluded(hs[0].0) {
            lemma_upsert_not_excluded(acc, hs[0].0, hs[0].1);
        }
        lemma_others_not_excluded(hs.drop_first(), acc2);
        assert(spec_others(hs, acc) == spec_others(hs.drop_first(), acc2));
        assert forall|j: int|
            0 <= j < spec_others(hs, acc).len() implies !spec_excluded(
            #[trigger] spec_others(hs, acc)[j].0,
        ) by {
            assert(!spec_excluded(spec_others(hs.drop_first(), acc2)[j].0));
        }
    }
}

/// The model invariant a parsed message satisfies: `from` is empty or a
/// valid mailbox, every recipient entry is a valid mailbox, and no extra
/// header case-insensitively shadows one of the seven typed fields.
pub proof fn lemma_parse_invariants(s: Seq<char>, m: Email)
    requires
        parse_ok(s, m),
    ensures
        m.from@.len() == 0 || spec_valid_mailbox(m.from@),
        forall|i: int|
            0 <= i < m.to.deep_view().len() ==> spec_valid_mailbox(#[trigger] m.to.deep_view()[i]),
        forall|i: int|
            0 <= i < m.cc.deep_view().len() ==> spec_valid_mailbox(#[trigger] m.cc.deep_view()[i]),
        forall|i: int|
            0 <= i < m.bcc.deep_view().len() ==> spec_valid_mailbox(
                #[trigger] m.bcc.deep_view()[i],
            ),
        forall|i: int|
            0 <= i < headers_view(m.other_headers@).len() ==> !spec_excluded(
                #[trigger] headers_view(m.other_headers@)[i].0,
            ),
{
    let (lines, body) = spec_split_message(s).unwrap();
    let hs = spec_pairs(lines);
    match spec_first_value(hs, key_from()) {
        None => {},
        Some(v) => {
            lemma_addr_list_valid(spec_split_commas(v, 0));
            let l = spec_addrs_of_value(v);
            if l.len() > 0 {
                assert(spec_valid_mailbox(l[0]));
            }
        },
    }
    lemma_collect_addrs_valid(hs, key_to());
    lemma_collect_addrs_valid(hs, key_cc());
    lemma_collect_addrs_valid(hs, key_bcc());
    lemma_others_not_excluded(hs, Seq::<(Seq<char>, Seq<char>)>::empty());
}

/// Names what the lossy byte-to-text decoding of the standard library
/// returns on arbitrary bytes; on well-formed bytes it is the ordinary
/// decoding.
pub uninterp spec fn lossy_chars(b: Seq<u8>) -> Seq<char>;

/// Relies on String::from_utf8_lossy: a deterministic function of the
/// bytes alone, equal to the ordinary decoding wherever the bytes are
/// well-formed.
#[verifier::external_body]
fn bytes_to_text(bytes: &[u8]) -> (r: String)
    ensures
        r@ == lossy_chars(bytes@),
        valid_utf8(bytes@) ==> r@ == decode_utf8(bytes@),
{
    String::from_utf8_lossy(bytes).into_owned()
}

/// Parses a byte stream into the message model. Bytes that are not
/// well-formed text are first decoded lossily; on well-formed bytes the
/// outcome is pinned entirely by the decoded text.
pub fn parse(bytes: &[u8]) -> (r: Result<Email, FormatError>)
    ensures
        match r {
            Ok(m) => parse_ok(lossy_chars(bytes@), m),
            Err(e) => e == FormatError::Unparsable && spec_split_message(lossy_chars(bytes@))
                is None,
        },
        valid_utf8(bytes@) ==> lossy_chars(bytes@) == decode_utf8(bytes@),
{
    let text = bytes_to_text(bytes);
    parse_text(text.as_str())
}

} // verus!
