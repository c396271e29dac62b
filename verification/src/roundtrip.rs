//! The round-trip law: parsing a serialized message recovers the fields
//! the wire format carries. The law is stated over the same specification
//! functions that the serializer's and the parser's contracts use, so it
//! composes with both.

use vstd::prelude::*;
use vstd::seq_lib::lemma_concat_associative;
use vstd::utf8::{
    decode_utf8, encode_utf8, encode_utf8_decode_utf8, encode_utf8_valid_utf8, valid_utf8,
};
use crate::address::{addr_char_ok, spec_valid_mailbox};
use crate::date::{dt_valid, lemma_rfc5322_round_trip, spec_format_rfc3339, spec_format_rfc5322, DateTime};
use crate::model::{
    headers_view, key_bcc, key_cc, key_date, key_from, key_message_id, key_subject, key_to,
    spec_excluded, Email,
};
use crate::parse::{
    prepend_lines, spec_addr_list, spec_addrs_of_value, spec_collect_addrs, spec_date_field,
    spec_first_value, spec_from_field, spec_header_pair, spec_pairs, spec_simple_field,
    spec_split_commas, spec_split_message, strip_cr, strip_one_space,
};
use crate::serialize::{
    content_type_value, line_text, name_bcc, name_cc, name_content_type, name_date, name_from,
    name_message_id, name_subject, name_to, spec_addr_lines, spec_other_lines,
    spec_serialize_text, synth_message_id,
};
use crate::text::{
    is_first_in, is_space, lemma_find_in_none, lemma_find_in_some,
    spec_find_in, spec_lower, spec_trim, spec_trim_end, spec_trim_start,
};

verus! {

/// A string that may stand as a header value: free of line breaks.
pub open spec fn value_ok(v: Seq<char>) -> bool {
    forall|i: int| 0 <= i < v.len() ==> v[i] != '\r' && v[i] != '\n'
}

/// A string that may stand as a header name: non-empty, free of line
/// breaks and of the colon that ends a name.
pub open spec fn name_ok(n: Seq<char>) -> bool {
    &&& n.len() > 0
    &&& forall|i: int| 0 <= i < n.len() ==> n[i] != '\r' && n[i] != '\n' && n[i] != ':'
}

/// A message the round-trip law speaks of: a valid sender, recipient
/// lists of valid mailboxes, a line-break-free subject, a non-empty
/// line-break-free identifier, and extra headers that are themselves
/// well-formed and outside the seven typed names.
pub open spec fn round_trippable(m: Email) -> bool {
    &&& spec_valid_mailbox(m.from@)
    &&& (forall|i: int|
        0 <= i < m.to.deep_view().len() ==> spec_valid_mailbox(#[trigger] m.to.deep_view()[i]))
    &&& (forall|i: int|
        0 <= i < m.cc.deep_view().len() ==> spec_valid_mailbox(#[trigger] m.cc.deep_view()[i]))
    &&& (forall|i: int|
        0 <= i < m.bcc.deep_view().len() ==> spec_valid_mailbox(#[trigger] m.bcc.deep_view()[i]))
    &&& value_ok(m.subject@)
    &&& m.message_id@.len() > 0
    &&& value_ok(m.message_id@)
    &&& (forall|i: int|
        0 <= i < headers_view(m.other_headers@).len() ==> {
            let p = #[trigger] headers_view(m.other_headers@)[i];
            name_ok(p.0) && !spec_excluded(p.0) && value_ok(p.1)
        })
}

proof fn lemma_value_ok_concat(a: Seq<char>, b: Seq<char>)
    requires
        value_ok(a),
        value_ok(b),
    ensures
        value_ok(a + b),
{
    assert forall|i: int| 0 <= i < (a + b).len() implies (a + b)[i] != '\r' && (a + b)[i] != '\n'
    by {
        if i < a.len() {
            assert((a + b)[i] == a[i]);
        } else {
            assert((a + b)[i] == b[i - a.len()]);
        }
    }
}

/// A valid mailbox never holds a delimiter, so it stands as a header
/// value and survives trimming and splitting.
proof fn lemma_valid_mailbox_chars(a: Seq<char>)
    requires
        spec_valid_mailbox(a),
    ensures
        value_ok(a),
        forall|i: int| 0 <= i < a.len() ==> #[trigger] addr_char_ok(a[i]),
{
}

/// One emitted header line splits off the front of a stream as one
/// CR-stripped line.
proof fn lemma_split_line(name: Seq<char>, value: Seq<char>, rest: Seq<char>)
    requires
        name_ok(name),
        value_ok(value),
        forall|i: int| 0 <= i < name.len() ==> name[i] != '\r' && name[i] != '\n',
    ensures
        spec_split_message(line_text(name, value) + rest) == prepend_lines(
            seq![name + ": "@ + value],
            spec_split_message(rest),
        ),
{
    reveal_strlit(": ");
    reveal_strlit("\r\n");
    let content = name + ": "@ + value;
    let s = line_text(name, value) + rest;
    let ll = content.len() as int;
    assert(s =~= content + "\r\n"@ + rest);
    assert(s[ll] == '\r');
    assert(s[ll + 1] == '\n');
    assert forall|k: int| 0 <= k < ll + 1 implies s[k] != '\n' by {
        if k < name.len() {
            assert(s[k] == name[k]);
        } else if k < name.len() + 2 {
            assert(s[k] == ": "@[k - name.len()]);
        } else if k < ll {
            assert(s[k] == value[k - name.len() - 2]);
        } else {
            assert(s[k] == '\r');
        }
    }
    assert(is_first_in(s, 0, s.len() as int, '\n', ll + 1));
    lemma_find_in_some(s, 0, s.len() as int, '\n', ll + 1);
    assert(s.take(ll + 1) =~= content + seq!['\r']);
    assert(strip_cr(s.take(ll + 1)) =~= content);
    assert(s.skip(ll + 2) =~= rest);
    assert(content.len() > 0);
    match spec_split_message(rest) {
        None => {
            assert(spec_split_message(s) is None);
        },
        Some((ls, b)) => {
            assert(spec_split_message(s) == Some((seq![content] + ls, b)));
        },
    }
}

/// The blank separator line ends the headers; everything after it is the
/// body, verbatim.
proof fn lemma_split_blank(body: Seq<char>)
    ensures
        spec_split_message("\r\n"@ + body) == Some((Seq::<Seq<char>>::empty(), body)),
{
    reveal_strlit("\r\n");
    let s = "\r\n"@ + body;
    assert(s[0] == '\r');
    assert(s[1] == '\n');
    assert(is_first_in(s, 0, s.len() as int, '\n', 1));
    lemma_find_in_some(s, 0, s.len() as int, '\n', 1);
    assert(s.take(1) =~= seq!['\r']);
    assert(strip_cr(s.take(1)) =~= Seq::<char>::empty());
    assert(s.skip(2) =~= body);
}

/// An emitted line reads back as exactly its name and value: the first
/// colon ends the name, and the single separating space is dropped.
proof fn lemma_header_pair_content(name: Seq<char>, value: Seq<char>)
    requires
        name_ok(name),
    ensures
        spec_header_pair(name + ": "@ + value) == Some((name, value)),
{
    reveal_strlit(": ");
    let content = name + ": "@ + value;
    let nl = name.len() as int;
    assert(content[nl] == ':');
    assert forall|k: int| 0 <= k < nl implies content[k] != ':' by {
        assert(content[k] == name[k]);
    }
    assert(is_first_in(content, 0, content.len() as int, ':', nl));
    lemma_find_in_some(content, 0, content.len() as int, ':', nl);
    assert(content.take(nl) =~= name);
    let after = content.skip(nl + 1);
    assert(after =~= seq![' '] + value);
    assert(after[0] == ' ');
    assert(strip_one_space(after) =~= value);
}

/// A trimmed delimiter-free string is itself.
proof fn lemma_trim_clean(a: Seq<char>)
    requires
        forall|i: int| 0 <= i < a.len() ==> #[trigger] addr_char_ok(a[i]),
    ensures
        spec_trim(a) == a,
{
    if a.len() > 0 {
        assert(addr_char_ok(a[0]));
        assert(addr_char_ok(a[a.len() - 1]));
        assert(!is_space(a[0]));
        assert(!is_space(a.last()));
    }
    assert(spec_trim_start(a) == a);
    assert(spec_trim_end(a) == a);
}

/// A single valid mailbox standing as a header value lists exactly
/// itself.
proof fn lemma_addrs_of_single(a: Seq<char>)
    requires
        spec_valid_mailbox(a),
    ensures
        spec_addrs_of_value(a) == seq![a],
{
    lemma_valid_mailbox_chars(a);
    assert forall|k: int| 0 <= k < a.len() && k < a.len() implies a[k] != ',' by {
        assert(addr_char_ok(a[k]));
    }
    lemma_find_in_none(a, 0, a.len() as int, ',');
    assert(a.subrange(0, a.len() as int) =~= a);
    assert(spec_split_commas(a, 0) == seq![a]);
    lemma_trim_clean(a);
    let t = spec_trim(a);
    assert forall|k: int| 0 <= k < t.len() implies t[k] != '<' by {
        assert(t[k] == a[k]);
        assert(addr_char_ok(a[k]));
    }
    lemma_find_in_none(t, 0, t.len() as int, '<');
    assert(spec_find_in(t, 0, t.len() as int, '<') == -1);
    assert(crate::parse::spec_extract_addr(a) == t);
    assert(crate::parse::spec_extract_addr(a) == a);
    let items = seq![a];
    reveal_with_fuel(spec_addr_list, 2);
    assert(items.drop_first() =~= Seq::<Seq<char>>::empty());
    assert(items[0] == a);
    assert(crate::parse::spec_extract_addr(items[0]) == a);
    assert(spec_addr_list(items) =~= seq![a] + Seq::<Seq<char>>::empty());
    assert(spec_addr_list(items) =~= seq![a]);
}

/// The CR-stripped line contents the recipient lines of one header name
/// produce, in order.
pub open spec fn addr_contents(name: Seq<char>, addrs: Seq<Seq<char>>) -> Seq<Seq<char>> {
    addrs.map_values(|a: Seq<char>| name + ": "@ + a)
}

/// The (name, value) pairs those lines read back as.
pub open spec fn addr_pairs(name: Seq<char>, addrs: Seq<Seq<char>>) -> Seq<(Seq<char>, Seq<char>)> {
    addrs.map_values(|a: Seq<char>| (name, a))
}

/// The CR-stripped line contents the extra header lines produce.
pub open spec fn other_contents(hs: Seq<(Seq<char>, Seq<char>)>) -> Seq<Seq<char>> {
    hs.map_values(|p: (Seq<char>, Seq<char>)| p.0 + ": "@ + p.1)
}

proof fn lemma_split_addr_lines(name: Seq<char>, addrs: Seq<Seq<char>>, rest: Seq<char>)
    requires
        name_ok(name),
        forall|i: int| 0 <= i < addrs.len() ==> spec_valid_mailbox(#[trigger] addrs[i]),
    ensures
        spec_split_message(spec_addr_lines(name, addrs) + rest) == prepend_lines(
            addr_contents(name, addrs),
            spec_split_message(rest),
        ),
    decreases addrs.len(),
{
    if addrs.len() == 0 {
        assert(spec_addr_lines(name, addrs) + rest =~= rest);
        assert(addr_contents(name, addrs).len() == 0);
        match spec_split_message(rest) {
            None => {},
            Some((ls, b)) => {
                assert(addr_contents(name, addrs) + ls =~= ls);
            },
        }
    } else {
        let a0 = addrs[0];
        assert(spec_valid_mailbox(a0));
        lemma_valid_mailbox_chars(a0);
        let tail = addrs.drop_first();
        assert forall|i: int| 0 <= i < tail.len() implies spec_valid_mailbox(#[trigger] tail[i])
        by {
            assert(tail[i] == addrs[i + 1]);
        }
        assert(a0.len() != 0);
        let tail_lines = spec_addr_lines(name, tail);
        assert(spec_addr_lines(name, addrs) + rest =~= line_text(name, a0) + (tail_lines + rest));
        lemma_split_line(name, a0, tail_lines + rest);
        lemma_split_addr_lines(name, tail, rest);
        match spec_split_message(rest) {
            None => {},
            Some((ls, b)) => {
                assert(seq![name + ": "@ + a0] + (addr_contents(name, tail) + ls) =~= addr_contents(
                    name,
                    addrs,
                ) + ls);
            },
        }
    }
}

proof fn lemma_split_other_lines(hs: Seq<(Seq<char>, Seq<char>)>, rest: Seq<char>)
    requires
        forall|i: int|
            0 <= i < hs.len() ==> name_ok(#[trigger] hs[i].0) && value_ok(hs[i].1),
    ensures
        spec_split_message(spec_other_lines(hs) + rest) == prepend_lines(
            other_contents(hs),
            spec_split_message(rest),
        ),
    decreases hs.len(),
{
    if hs.len() == 0 {
        assert(spec_other_lines(hs) + rest =~= rest);
        assert(other_contents(hs).len() == 0);
        match spec_split_message(rest) {
            None => {},
            Some((ls, b)) => {
                assert(other_contents(hs) + ls =~= ls);
            },
        }
    } else {
        let p0 = hs[0];
        assert(name_ok(p0.0) && value_ok(p0.1));
        let tail = hs.drop_first();
        assert forall|i: int|
            0 <= i < tail.len() implies name_ok(#[trigger] tail[i].0) && value_ok(tail[i].1) by {
            assert(tail[i] == hs[i + 1]);
        }
        let tail_lines = spec_other_lines(tail);
        assert(spec_other_lines(hs) + rest =~= line_text(p0.0, p0.1) + (tail_lines + rest));
        lemma_split_line(p0.0, p0.1, tail_lines + rest);
        lemma_split_other_lines(tail, rest);
        match spec_split_message(rest) {
            None => {},
            Some((ls, b)) => {
                assert(seq![p0.0 + ": "@ + p0.1] + (other_contents(tail) + ls) =~= other_contents(
                    hs,
                ) + ls);
            },
        }
    }
}

proof fn lemma_pairs_concat(a: Seq<Seq<char>>, b: Seq<Seq<char>>)
    ensures
        spec_pairs(a + b) == spec_pairs(a) + spec_pairs(b),
    decreases a.len(),
{
    if a.len() == 0 {
        assert(a + b =~= b);
        assert(spec_pairs(a).len() == 0);
        assert(spec_pairs(a) + spec_pairs(b) =~= spec_pairs(b));
    } else {
        assert((a + b)[0] == a[0]);
        assert((a + b).drop_first() =~= a.drop_first() + b);
        lemma_pairs_concat(a.drop_first(), b);
        assert(spec_pairs(a + b) =~= spec_pairs(a) + spec_pairs(b));
    }
}

proof fn lemma_pairs_single(name: Seq<char>, value: Seq<char>)
    requires
        name_ok(name),
    ensures
        spec_pairs(seq![name + ": "@ + value]) == seq![(name, value)],
{
    reveal_with_fuel(spec_pairs, 2);
    lemma_header_pair_content(name, value);
    let lines = seq![name + ": "@ + value];
    assert(lines.drop_first() =~= Seq::<Seq<char>>::empty());
    assert(spec_pairs(lines) =~= seq![(name, value)] + Seq::<(Seq<char>, Seq<char>)>::empty());
    assert(spec_pairs(lines) =~= seq![(name, value)]);
}

proof fn lemma_pairs_addr_contents(name: Seq<char>, addrs: Seq<Seq<char>>)
    requires
        name_ok(name),
    ensures
        spec_pairs(addr_contents(name, addrs)) == addr_pairs(name, addrs),
    decreases addrs.len(),
{
    if addrs.len() == 0 {
        assert(addr_contents(name, addrs).len() == 0);
        assert(spec_pairs(addr_contents(name, addrs)) =~= addr_pairs(name, addrs));
    } else {
        let cs = addr_contents(name, addrs);
        assert(cs[0] == name + ": "@ + addrs[0]);
        lemma_header_pair_content(name, addrs[0]);
        assert(cs.drop_first() =~= addr_contents(name, addrs.drop_first()));
        lemma_pairs_addr_contents(name, addrs.drop_first());
        assert(spec_pairs(cs) =~= addr_pairs(name, addrs));
    }
}

proof fn lemma_pairs_other_contents(hs: Seq<(Seq<char>, Seq<char>)>)
    requires
        forall|i: int| 0 <= i < hs.len() ==> name_ok(#[trigger] hs[i].0),
    ensures
        spec_pairs(other_contents(hs)) == hs,
    decreases hs.len(),
{
    if hs.len() == 0 {
        assert(other_contents(hs).len() == 0);
        assert(spec_pairs(other_contents(hs)) =~= hs);
    } else {
        let cs = other_contents(hs);
        assert(cs[0] == hs[0].0 + ": "@ + hs[0].1);
        lemma_header_pair_content(hs[0].0, hs[0].1);
        assert(cs.drop_first() =~= other_contents(hs.drop_first()));
        assert forall|i: int|
            0 <= i < hs.drop_first().len() implies name_ok(#[trigger] hs.drop_first()[i].0) by {
            assert(hs.drop_first()[i] == hs[i + 1]);
        }
        lemma_pairs_other_contents(hs.drop_first());
        assert(hs[0] == (hs[0].0, hs[0].1));
        assert(spec_pairs(cs) =~= hs);
    }
}

proof fn lemma_first_single_hit(
    name: Seq<char>,
    value: Seq<char>,
    rest: Seq<(Seq<char>, Seq<char>)>,
    key: Seq<char>,
)
    requires
        spec_lower(name) == key,
    ensures
        spec_first_value(seq![(name, value)] + rest, key) == Some(value),
{
    let hs = seq![(name, value)] + rest;
    assert(hs[0] == (name, value));
}

proof fn lemma_first_single_miss(
    name: Seq<char>,
    value: Seq<char>,
    rest: Seq<(Seq<char>, Seq<char>)>,
    key: Seq<char>,
)
    requires
        spec_lower(name) != key,
    ensures
        spec_first_value(seq![(name, value)] + rest, key) == spec_first_value(rest, key),
{
    let hs = seq![(name, value)] + rest;
    assert(hs[0] == (name, value));
    assert(hs.drop_first() =~= rest);
}

proof fn lemma_collect_single_miss(
    name: Seq<char>,
    value: Seq<char>,
    rest: Seq<(Seq<char>, Seq<char>)>,
    key: Seq<char>,
)
    requires
        spec_lower(name) != key,
    ensures
        spec_collect_addrs(seq![(name, value)] + rest, key) == spec_collect_addrs(rest, key),
{
    let hs = seq![(name, value)] + rest;
    assert(hs[0] == (name, value));
    assert(hs.drop_first() =~= rest);
    assert(Seq::<Seq<char>>::empty() + spec_collect_addrs(rest, key) =~= spec_collect_addrs(
        rest,
        key,
    ));
}

proof fn lemma_collect_addr_pairs_hit(name: Seq<char>, addrs: Seq<Seq<char>>, key: Seq<char>)
    requires
        spec_lower(name) == key,
        forall|i: int| 0 <= i < addrs.len() ==> spec_valid_mailbox(#[trigger] addrs[i]),
    ensures
        spec_collect_addrs(addr_pairs(name, addrs), key) == addrs,
    decreases addrs.len(),
{
    let ps = addr_pairs(name, addrs);
    if addrs.len() == 0 {
        assert(spec_collect_addrs(ps, key) =~= addrs);
    } else {
        assert(ps[0] == (name, addrs[0]));
        lemma_addrs_of_single(addrs[0]);
        assert(ps.drop_first() =~= addr_pairs(name, addrs.drop_first()));
        assert forall|i: int|
            0 <= i < addrs.drop_first().len() implies spec_valid_mailbox(
            #[trigger] addrs.drop_first()[i],
        ) by {
            assert(addrs.drop_first()[i] == addrs[i + 1]);
        }
        lemma_collect_addr_pairs_hit(name, addrs.drop_first(), key);
        assert(spec_collect_addrs(ps, key) =~= addrs);
    }
}

proof fn lemma_collect_addr_pairs_miss(name: Seq<char>, addrs: Seq<Seq<char>>, key: Seq<char>)
    requires
        spec_lower(name) != key,
    ensures
        spec_collect_addrs(addr_pairs(name, addrs), key) == Seq::<Seq<char>>::empty(),
    decreases addrs.len(),
{
    let ps = addr_pairs(name, addrs);
    if addrs.len() == 0 {
        assert(spec_collect_addrs(ps, key) =~= Seq::<Seq<char>>::empty());
    } else {
        assert(ps[0] == (name, addrs[0]));
        assert(ps.drop_first() =~= addr_pairs(name, addrs.drop_first()));
        lemma_collect_addr_pairs_miss(name, addrs.drop_first(), key);
        assert(spec_collect_addrs(ps, key) =~= Seq::<Seq<char>>::empty());
    }
}

proof fn lemma_collect_all_miss(hs: Seq<(Seq<char>, Seq<char>)>, key: Seq<char>)
    requires
        forall|i: int| 0 <= i < hs.len() ==> spec_lower(#[trigger] hs[i].0) != key,
    ensures
        spec_collect_addrs(hs, key) == Seq::<Seq<char>>::empty(),
    decreases hs.len(),
{
    if hs.len() == 0 {
    } else {
        assert(spec_lower(hs[0].0) != key);
        assert forall|i: int|
            0 <= i < hs.drop_first().len() implies spec_lower(
            #[trigger] hs.drop_first()[i].0,
        ) != key by {
            assert(hs.drop_first()[i] == hs[i + 1]);
        }
        lemma_collect_all_miss(hs.drop_first(), key);
        assert(spec_collect_addrs(hs, key) =~= Seq::<Seq<char>>::empty());
    }
}

proof fn lemma_fixed_names()
    ensures
        name_ok(name_from()) && spec_lower(name_from()) == key_from(),
        name_ok(name_to()) && spec_lower(name_to()) == key_to(),
        name_ok(name_cc()) && spec_lower(name_cc()) == key_cc(),
        name_ok(name_bcc()) && spec_lower(name_bcc()) == key_bcc(),
        name_ok(name_subject()) && spec_lower(name_subject()) == key_subject(),
        name_ok(name_date()) && spec_lower(name_date()) == key_date(),
        name_ok(name_message_id()) && spec_lower(name_message_id()) == key_message_id(),
        name_ok(name_content_type()),
        spec_lower(name_content_type()) != key_from(),
        spec_lower(name_content_type()) != key_to(),
        spec_lower(name_content_type()) != key_cc(),
        spec_lower(name_content_type()) != key_bcc(),
        spec_lower(name_content_type()) != key_subject(),
        spec_lower(name_content_type()) != key_date(),
        spec_lower(name_content_type()) != key_message_id(),
        value_ok(content_type_value()),
        value_ok(synth_message_id()),
{
    reveal_strlit("From");
    reveal_strlit("To");
    reveal_strlit("Cc");
    reveal_strlit("Bcc");
    reveal_strlit("Subject");
    reveal_strlit("Date");
    reveal_strlit("Message-ID");
    reveal_strlit("Content-Type");
    reveal_strlit("text/plain; charset=utf-8");
    reveal_strlit("<none@localhost>");
    assert(spec_lower(name_from()) =~= key_from());
    assert(spec_lower(name_to()) =~= key_to());
    assert(spec_lower(name_cc()) =~= key_cc());
    assert(spec_lower(name_bcc()) =~= key_bcc());
    assert(spec_lower(name_subject()) =~= key_subject());
    assert(spec_lower(name_date()) =~= key_date());
    assert(spec_lower(name_message_id()) =~= key_message_id());
    assert(spec_lower(name_content_type()).len() == 12);
}

proof fn lemma_pad2_value_ok(n: int)
    ensures
        value_ok(crate::date::pad2(n)),
{
    assert forall|i: int| 0 <= i < crate::date::pad2(n).len() implies crate::date::pad2(n)[i]
        != '\r' && crate::date::pad2(n)[i] != '\n' by {
        if i == 0 {
            assert(crate::date::pad2(n)[0] == crate::date::digit_char(n / 10));
        } else {
            assert(crate::date::pad2(n)[1] == crate::date::digit_char(n % 10));
        }
    }
}

proof fn lemma_pad4_value_ok(n: int)
    ensures
        value_ok(crate::date::pad4(n)),
{
    assert(crate::date::pad4(n).len() == 4);
    assert forall|i: int| 0 <= i < 4 implies crate::date::pad4(n)[i] != '\r' && crate::date::pad4(
        n,
    )[i] != '\n' by {
    }
}

/// The emitted date value is free of line breaks, whatever the
/// timestamp.
proof fn lemma_format_5322_value_ok(dt: DateTime)
    ensures
        value_ok(spec_format_rfc5322(dt)),
{
    let day = crate::date::pad2(dt.day as int);
    let mon = crate::date::month_name(dt.month as int);
    let year = crate::date::pad4(dt.year as int);
    let hh = crate::date::pad2(dt.hour as int);
    let mm = crate::date::pad2(dt.minute as int);
    let ss = crate::date::pad2(dt.second as int);
    let off = crate::date::offset_rfc5322(dt.offset_minutes as int);
    lemma_pad2_value_ok(dt.day as int);
    lemma_pad2_value_ok(dt.hour as int);
    lemma_pad2_value_ok(dt.minute as int);
    lemma_pad2_value_ok(dt.second as int);
    lemma_pad4_value_ok(dt.year as int);
    assert(value_ok(mon));
    if dt.offset_minutes >= 0 {
        lemma_pad2_value_ok(dt.offset_minutes as int / 60);
        lemma_pad2_value_ok(dt.offset_minutes as int % 60);
        lemma_value_ok_concat(seq!['+'], crate::date::pad2(dt.offset_minutes as int / 60));
        lemma_value_ok_concat(
            seq!['+'] + crate::date::pad2(dt.offset_minutes as int / 60),
            crate::date::pad2(dt.offset_minutes as int % 60),
        );
    } else {
        lemma_pad2_value_ok((-dt.offset_minutes) as int / 60);
        lemma_pad2_value_ok((-dt.offset_minutes) as int % 60);
        lemma_value_ok_concat(seq!['-'], crate::date::pad2((-dt.offset_minutes) as int / 60));
        lemma_value_ok_concat(
            seq!['-'] + crate::date::pad2((-dt.offset_minutes) as int / 60),
            crate::date::pad2((-dt.offset_minutes) as int % 60),
        );
    }
    assert(value_ok(off));
    lemma_value_ok_concat(day, seq![' ']);
    lemma_value_ok_concat(day + seq![' '], mon);
    lemma_value_ok_concat(day + seq![' '] + mon, seq![' ']);
    lemma_value_ok_concat(day + seq![' '] + mon + seq![' '], year);
    lemma_value_ok_concat(day + seq![' '] + mon + seq![' '] + year, seq![' ']);
    lemma_value_ok_concat(day + seq![' '] + mon + seq![' '] + year + seq![' '], hh);
    lemma_value_ok_concat(day + seq![' '] + mon + seq![' '] + year + seq![' '] + hh, seq![':']);
    lemma_value_ok_concat(
        day + seq![' '] + mon + seq![' '] + year + seq![' '] + hh + seq![':'],
        mm,
    );
    lemma_value_ok_concat(
        day + seq![' '] + mon + seq![' '] + year + seq![' '] + hh + seq![':'] + mm,
        seq![':'],
    );
    lemma_value_ok_concat(
        day + seq![' '] + mon + seq![' '] + year + seq![' '] + hh + seq![':'] + mm + seq![':'],
        ss,
    );
    lemma_value_ok_concat(
        day + seq![' '] + mon + seq![' '] + year + seq![' '] + hh + seq![':'] + mm + seq![':'] + ss,
        seq![' '],
    );
    lemma_value_ok_concat(
        day + seq![' '] + mon + seq![' '] + year + seq![' '] + hh + seq![':'] + mm + seq![':'] + ss
            + seq![' '],
        off,
    );
}

proof fn lemma_collect_concat(
    a: Seq<(Seq<char>, Seq<char>)>,
    b: Seq<(Seq<char>, Seq<char>)>,
    key: Seq<char>,
)
    ensures
        spec_collect_addrs(a + b, key) == spec_collect_addrs(a, key) + spec_collect_addrs(b, key),
    decreases a.len(),
{
    if a.len() == 0 {
        assert(a + b =~= b);
        assert(spec_collect_addrs(a, key).len() == 0);
        assert(spec_collect_addrs(a, key) + spec_collect_addrs(b, key) =~= spec_collect_addrs(
            b,
            key,
        ));
    } else {
        assert((a + b)[0] == a[0]);
        assert((a + b).drop_first() =~= a.drop_first() + b);
        lemma_collect_concat(a.drop_first(), b, key);
        assert(spec_collect_addrs(a + b, key) =~= spec_collect_addrs(a, key)
            + spec_collect_addrs(b, key));
    }
}

/// The round-trip law: for a message with a valid sender, valid
/// recipients, line-break-free subject and identifier, and well-formed
/// extra headers, parsing the serialized text recovers `from`, the three
/// recipient lists in order, `subject`, `message_id` and `body` exactly,
/// whatever timestamp the date resolved to. Stated over the
/// specification functions that `serialize_text` and `parse_text` are
/// proved against, so it carries over to the executable pair.
/// The CR-stripped lines the serializer's text splits into, in order.
pub open spec fn serialized_contents(m: Email, dt: DateTime) -> Seq<Seq<char>> {
    seq![name_from() + ": "@ + m.from@] + (seq![name_subject() + ": "@ + m.subject@] + (seq![
        name_message_id() + ": "@ + m.message_id@,
    ] + (seq![name_date() + ": "@ + spec_format_rfc5322(dt)] + (seq![
        name_content_type() + ": "@ + content_type_value(),
    ] + (addr_contents(name_to(), m.to.deep_view()) + (addr_contents(name_cc(), m.cc.deep_view())
        + (addr_contents(name_bcc(), m.bcc.deep_view()) + other_contents(
        headers_view(m.other_headers@),
    ))))))))
}

/// The (name, value) pairs those lines read back as, in order.
pub open spec fn serialized_pairs(m: Email, dt: DateTime) -> Seq<(Seq<char>, Seq<char>)> {
    seq![(name_from(), m.from@)] + (seq![(name_subject(), m.subject@)] + (seq![
        (name_message_id(), m.message_id@),
    ] + (seq![(name_date(), spec_format_rfc5322(dt))] + (seq![
        (name_content_type(), content_type_value()),
    ] + (addr_pairs(name_to(), m.to.deep_view()) + (addr_pairs(name_cc(), m.cc.deep_view())
        + (addr_pairs(name_bcc(), m.bcc.deep_view()) + headers_view(m.other_headers@))))))))
}

proof fn lemma_other_headers_wf(m: Email)
    requires
        round_trippable(m),
    ensures
        forall|i: int|
            0 <= i < headers_view(m.other_headers@).len() ==> {
                let p = #[trigger] headers_view(m.other_headers@)[i];
                name_ok(p.0) && !spec_excluded(p.0) && value_ok(p.1)
            },
{
}

/// The serializer's text from the recipient lines on: the three
/// recipient blocks, the extra headers, the blank line and the body.
pub open spec fn tail_lines(m: Email) -> Seq<char> {
    spec_addr_lines(name_to(), m.to.deep_view()) + (spec_addr_lines(name_cc(), m.cc.deep_view())
        + (spec_addr_lines(name_bcc(), m.bcc.deep_view()) + (spec_other_lines(
        headers_view(m.other_headers@),
    ) + ("\r\n"@ + m.body@))))
}

#[verifier::spinoff_prover]
proof fn lemma_text_nested(m: Email, dt: DateTime)
    requires
        m.message_id@.len() > 0,
    ensures
        spec_serialize_text(m, dt) == line_text(name_from(), m.from@) + (line_text(
            name_subject(),
            m.subject@,
        ) + (line_text(name_message_id(), m.message_id@) + (line_text(
            name_date(),
            spec_format_rfc5322(dt),
        ) + (line_text(name_content_type(), content_type_value()) + tail_lines(m))))),
{
    let l1 = line_text(name_from(), m.from@);
    let l2 = line_text(name_subject(), m.subject@);
    let l3 = line_text(name_message_id(), m.message_id@);
    let l4 = line_text(name_date(), spec_format_rfc5322(dt));
    let l5 = line_text(name_content_type(), content_type_value());
    let bt = spec_addr_lines(name_to(), m.to.deep_view());
    let bc = spec_addr_lines(name_cc(), m.cc.deep_view());
    let bb = spec_addr_lines(name_bcc(), m.bcc.deep_view());
    let bo = spec_other_lines(headers_view(m.other_headers@));
    let nl = "\r\n"@;
    let body = m.body@;
    assert(spec_serialize_text(m, dt) == l1 + l2 + l3 + l4 + l5 + bt + bc + bb + bo + nl + body);
    lemma_concat_associative(l1 + l2 + l3 + l4 + l5 + bt + bc + bb + bo, nl, body);
    lemma_concat_associative(l1 + l2 + l3 + l4 + l5 + bt + bc + bb, bo, nl + body);
    lemma_concat_associative(l1 + l2 + l3 + l4 + l5 + bt + bc, bb, bo + (nl + body));
    lemma_concat_associative(l1 + l2 + l3 + l4 + l5 + bt, bc, bb + (bo + (nl + body)));
    lemma_concat_associative(l1 + l2 + l3 + l4 + l5, bt, bc + (bb + (bo + (nl + body))));
    lemma_concat_associative(l1 + l2 + l3 + l4, l5, bt + (bc + (bb + (bo + (nl + body)))));
    lemma_concat_associative(l1 + l2 + l3, l4, l5 + (bt + (bc + (bb + (bo + (nl + body))))));
    lemma_concat_associative(l1 + l2, l3, l4 + (l5 + (bt + (bc + (bb + (bo + (nl + body)))))));
    lemma_concat_associative(l1, l2, l3 + (l4 + (l5 + (bt + (bc + (bb + (bo + (nl + body))))))));
    assert(tail_lines(m) == bt + (bc + (bb + (bo + (nl + body)))));
}

#[verifier::rlimit(100)]
#[verifier::spinoff_prover]
proof fn lemma_shape_tail(m: Email)
    requires
        round_trippable(m),
    ensures
        spec_split_message(tail_lines(m)) == Some(
            (
                addr_contents(name_to(), m.to.deep_view()) + (addr_contents(
                    name_cc(),
                    m.cc.deep_view(),
                ) + (addr_contents(name_bcc(), m.bcc.deep_view()) + other_contents(
                    headers_view(m.other_headers@),
                ))),
                m.body@,
            ),
        ),
{
    lemma_fixed_names();
    lemma_other_headers_wf(m);
    let tos = m.to.deep_view();
    let ccs = m.cc.deep_view();
    let bccs = m.bcc.deep_view();
    let oh = headers_view(m.other_headers@);
    let r0 = "\r\n"@ + m.body@;
    lemma_split_blank(m.body@);
    let r1 = spec_other_lines(oh) + r0;
    lemma_split_other_lines(oh, r0);
    let oc = other_contents(oh);
    assert(oc + Seq::<Seq<char>>::empty() =~= oc);
    assert(spec_split_message(r1) == Some((oc, m.body@)));
    let r2 = spec_addr_lines(name_bcc(), bccs) + r1;
    lemma_split_addr_lines(name_bcc(), bccs, r1);
    let bc = addr_contents(name_bcc(), bccs);
    assert(spec_split_message(r2) == Some((bc + oc, m.body@)));
    let r3 = spec_addr_lines(name_cc(), ccs) + r2;
    lemma_split_addr_lines(name_cc(), ccs, r2);
    let cc2 = addr_contents(name_cc(), ccs);
    assert(spec_split_message(r3) == Some((cc2 + (bc + oc), m.body@)));
    let r4 = spec_addr_lines(name_to(), tos) + r3;
    lemma_split_addr_lines(name_to(), tos, r3);
    let tc = addr_contents(name_to(), tos);
    assert(spec_split_message(r4) == Some((tc + (cc2 + (bc + oc)), m.body@)));
    assert(tail_lines(m) =~= r4);
}

#[verifier::rlimit(100)]
#[verifier::spinoff_prover]
proof fn lemma_serialized_shape(m: Email, dt: DateTime)
    requires
        round_trippable(m),
        dt_valid(dt),
    ensures
        spec_split_message(spec_serialize_text(m, dt)) == Some(
            (serialized_contents(m, dt), m.body@),
        ),
{
    lemma_fixed_names();
    lemma_format_5322_value_ok(dt);
    lemma_valid_mailbox_chars(m.from@);
    lemma_shape_tail(m);
    let tos = m.to.deep_view();
    let ccs = m.cc.deep_view();
    let bccs = m.bcc.deep_view();
    let oh = headers_view(m.other_headers@);
    let datev = spec_format_rfc5322(dt);
    let tc = addr_contents(name_to(), tos);
    let cc2 = addr_contents(name_cc(), ccs);
    let bc = addr_contents(name_bcc(), bccs);
    let oc = other_contents(oh);
    let r4 = tail_lines(m);
    let r5 = line_text(name_content_type(), content_type_value()) + r4;
    lemma_split_line(name_content_type(), content_type_value(), r4);
    let c_ct = name_content_type() + ": "@ + content_type_value();
    assert(spec_split_message(r5) == Some((seq![c_ct] + (tc + (cc2 + (bc + oc))), m.body@)));
    let r6 = line_text(name_date(), datev) + r5;
    lemma_split_line(name_date(), datev, r5);
    let c_date = name_date() + ": "@ + datev;
    assert(spec_split_message(r6) == Some(
        (seq![c_date] + (seq![c_ct] + (tc + (cc2 + (bc + oc)))), m.body@),
    ));
    let r7 = line_text(name_message_id(), m.message_id@) + r6;
    lemma_split_line(name_message_id(), m.message_id@, r6);
    let c_mid = name_message_id() + ": "@ + m.message_id@;
    assert(spec_split_message(r7) == Some(
        (seq![c_mid] + (seq![c_date] + (seq![c_ct] + (tc + (cc2 + (bc + oc))))), m.body@),
    ));
    let r8 = line_text(name_subject(), m.subject@) + r7;
    lemma_split_line(name_subject(), m.subject@, r7);
    let c_subj = name_subject() + ": "@ + m.subject@;
    assert(spec_split_message(r8) == Some(
        (
            seq![c_subj] + (seq![c_mid] + (seq![c_date] + (seq![c_ct] + (tc + (cc2 + (bc
                + oc)))))),
            m.body@,
        ),
    ));
    let r9 = line_text(name_from(), m.from@) + r8;
    lemma_split_line(name_from(), m.from@, r8);
    let c_from = name_from() + ": "@ + m.from@;
    let lines = seq![c_from] + (seq![c_subj] + (seq![c_mid] + (seq![c_date] + (seq![c_ct] + (tc
        + (cc2 + (bc + oc)))))));
    assert(spec_split_message(r9) == Some((lines, m.body@)));
    lemma_text_nested(m, dt);
    assert(spec_serialize_text(m, dt) == r9);
    assert(lines == serialized_contents(m, dt));
}

#[verifier::spinoff_prover]
proof fn lemma_serialized_pairs(m: Email, dt: DateTime)
    requires
        round_trippable(m),
        dt_valid(dt),
    ensures
        spec_pairs(serialized_contents(m, dt)) == serialized_pairs(m, dt),
{
    lemma_fixed_names();
    lemma_other_headers_wf(m);
    let tos = m.to.deep_view();
    let ccs = m.cc.deep_view();
    let bccs = m.bcc.deep_view();
    let oh = headers_view(m.other_headers@);
    let datev = spec_format_rfc5322(dt);
    let c_from = name_from() + ": "@ + m.from@;
    let c_subj = name_subject() + ": "@ + m.subject@;
    let c_mid = name_message_id() + ": "@ + m.message_id@;
    let c_date = name_date() + ": "@ + datev;
    let c_ct = name_content_type() + ": "@ + content_type_value();
    let tc = addr_contents(name_to(), tos);
    let cc2 = addr_contents(name_cc(), ccs);
    let bc = addr_contents(name_bcc(), bccs);
    let oc = other_contents(oh);
    // Pair reading: each emitted line reads back as its (name, value).
    lemma_pairs_single(name_from(), m.from@);
    lemma_pairs_single(name_subject(), m.subject@);
    lemma_pairs_single(name_message_id(), m.message_id@);
    lemma_pairs_single(name_date(), datev);
    lemma_pairs_single(name_content_type(), content_type_value());
    lemma_pairs_addr_contents(name_to(), tos);
    lemma_pairs_addr_contents(name_cc(), ccs);
    lemma_pairs_addr_contents(name_bcc(), bccs);
    lemma_pairs_other_contents(oh);
    let tp = addr_pairs(name_to(), tos);
    let cp = addr_pairs(name_cc(), ccs);
    let bp = addr_pairs(name_bcc(), bccs);
    lemma_pairs_concat(bc, oc);
    lemma_pairs_concat(cc2, bc + oc);
    lemma_pairs_concat(tc, cc2 + (bc + oc));
    lemma_pairs_concat(seq![c_ct], tc + (cc2 + (bc + oc)));
    lemma_pairs_concat(seq![c_date], seq![c_ct] + (tc + (cc2 + (bc + oc))));
    lemma_pairs_concat(seq![c_mid], seq![c_date] + (seq![c_ct] + (tc + (cc2 + (bc + oc)))));
    lemma_pairs_concat(
        seq![c_subj],
        seq![c_mid] + (seq![c_date] + (seq![c_ct] + (tc + (cc2 + (bc + oc))))),
    );
    lemma_pairs_concat(
        seq![c_from],
        seq![c_subj] + (seq![c_mid] + (seq![c_date] + (seq![c_ct] + (tc + (cc2 + (bc + oc)))))),
    );
    assert(spec_pairs(serialized_contents(m, dt)) =~= serialized_pairs(m, dt));
}

#[verifier::rlimit(100)]
#[verifier::spinoff_prover]
proof fn lemma_serialized_fields(m: Email, dt: DateTime)
    requires
        round_trippable(m),
        dt_valid(dt),
    ensures
        ({
            let hs = serialized_pairs(m, dt);
            &&& spec_from_field(hs) == m.from@
            &&& spec_collect_addrs(hs, key_to()) == m.to.deep_view()
            &&& spec_collect_addrs(hs, key_cc()) == m.cc.deep_view()
            &&& spec_collect_addrs(hs, key_bcc()) == m.bcc.deep_view()
            &&& spec_simple_field(hs, key_subject()) == m.subject@
            &&& spec_simple_field(hs, key_message_id()) == m.message_id@
            &&& spec_date_field(hs) == spec_format_rfc3339(dt)
        }),
{
    lemma_fixed_names();
    lemma_other_headers_wf(m);
    let tos = m.to.deep_view();
    let ccs = m.cc.deep_view();
    let bccs = m.bcc.deep_view();
    let oh = headers_view(m.other_headers@);
    let datev = spec_format_rfc5322(dt);
    let tp = addr_pairs(name_to(), tos);
    let cp = addr_pairs(name_cc(), ccs);
    let bp = addr_pairs(name_bcc(), bccs);
    let p_from = (name_from(), m.from@);
    let p_subj = (name_subject(), m.subject@);
    let p_mid = (name_message_id(), m.message_id@);
    let p_date = (name_date(), datev);
    let p_ct = (name_content_type(), content_type_value());
    let tail4 = tp + (cp + (bp + oh));
    let tail3 = seq![p_ct] + tail4;
    let tail2 = seq![p_date] + tail3;
    let tail1 = seq![p_mid] + tail2;
    let tail0 = seq![p_subj] + tail1;
    let hs = serialized_pairs(m, dt);
    assert(hs =~= seq![p_from] + tail0);
    // Field recovery.
    lemma_first_single_hit(name_from(), m.from@, tail0, key_from());
    lemma_addrs_of_single(m.from@);
    assert(spec_from_field(hs) == m.from@);
    lemma_first_single_miss(name_from(), m.from@, tail0, key_subject());
    lemma_first_single_hit(name_subject(), m.subject@, tail1, key_subject());
    assert(spec_simple_field(hs, key_subject()) == m.subject@);
    lemma_first_single_miss(name_from(), m.from@, tail0, key_message_id());
    lemma_first_single_miss(name_subject(), m.subject@, tail1, key_message_id());
    lemma_first_single_hit(name_message_id(), m.message_id@, tail2, key_message_id());
    assert(spec_simple_field(hs, key_message_id()) == m.message_id@);
    lemma_first_single_miss(name_from(), m.from@, tail0, key_date());
    lemma_first_single_miss(name_subject(), m.subject@, tail1, key_date());
    lemma_first_single_miss(name_message_id(), m.message_id@, tail2, key_date());
    lemma_first_single_hit(name_date(), datev, tail3, key_date());
    lemma_rfc5322_round_trip(dt);
    assert(spec_date_field(hs) == spec_format_rfc3339(dt));
    // Recipient recovery, one key at a time.
    assert forall|i: int| 0 <= i < oh.len() implies spec_lower(#[trigger] oh[i].0) != key_to()
        && spec_lower(oh[i].0) != key_cc() && spec_lower(oh[i].0) != key_bcc() by {
        assert(!spec_excluded(oh[i].0));
    }
    lemma_collect_all_miss(oh, key_to());
    lemma_collect_all_miss(oh, key_cc());
    lemma_collect_all_miss(oh, key_bcc());
    // to
    lemma_collect_single_miss(name_from(), m.from@, tail0, key_to());
    lemma_collect_single_miss(name_subject(), m.subject@, tail1, key_to());
    lemma_collect_single_miss(name_message_id(), m.message_id@, tail2, key_to());
    lemma_collect_single_miss(name_date(), datev, tail3, key_to());
    lemma_collect_single_miss(name_content_type(), content_type_value(), tail4, key_to());
    lemma_collect_concat(tp, cp + (bp + oh), key_to());
    lemma_collect_addr_pairs_hit(name_to(), tos, key_to());
    lemma_collect_concat(cp, bp + oh, key_to());
    lemma_collect_addr_pairs_miss(name_cc(), ccs, key_to());
    lemma_collect_concat(bp, oh, key_to());
    lemma_collect_addr_pairs_miss(name_bcc(), bccs, key_to());
    assert(spec_collect_addrs(hs, key_to()) =~= tos);
    // cc
    lemma_collect_single_miss(name_from(), m.from@, tail0, key_cc());
    lemma_collect_single_miss(name_subject(), m.subject@, tail1, key_cc());
    lemma_collect_single_miss(name_message_id(), m.message_id@, tail2, key_cc());
    lemma_collect_single_miss(name_date(), datev, tail3, key_cc());
    lemma_collect_single_miss(name_content_type(), content_type_value(), tail4, key_cc());
    lemma_collect_concat(tp, cp + (bp + oh), key_cc());
    lemma_collect_addr_pairs_miss(name_to(), tos, key_cc());
    lemma_collect_concat(cp, bp + oh, key_cc());
    lemma_collect_addr_pairs_hit(name_cc(), ccs, key_cc());
    lemma_collect_concat(bp, oh, key_cc());
    lemma_collect_addr_pairs_miss(name_bcc(), bccs, key_cc());
    assert(spec_collect_addrs(hs, key_cc()) =~= ccs);
    // bcc
    lemma_collect_single_miss(name_from(), m.from@, tail0, key_bcc());
    lemma_collect_single_miss(name_subject(), m.subject@, tail1, key_bcc());
    lemma_collect_single_miss(name_message_id(), m.message_id@, tail2, key_bcc());
    lemma_collect_single_miss(name_date(), datev, tail3, key_bcc());
    lemma_collect_single_miss(name_content_type(), content_type_value(), tail4, key_bcc());
    lemma_collect_concat(tp, cp + (bp + oh), key_bcc());
    lemma_collect_addr_pairs_miss(name_to(), tos, key_bcc());
    lemma_collect_concat(cp, bp + oh, key_bcc());
    lemma_collect_addr_pairs_miss(name_cc(), ccs, key_bcc());
    lemma_collect_concat(bp, oh, key_bcc());
    lemma_collect_addr_pairs_hit(name_bcc(), bccs, key_bcc());
    assert(spec_collect_addrs(hs, key_bcc()) =~= bccs);
}

/// The round-trip law: for a message with a valid sender, valid
/// recipients, a line-break-free subject, a non-empty line-break-free
/// identifier, and well-formed extra headers, parsing the serialized
/// text recovers `from`, the three recipient lists in order, `subject`,
/// `message_id` and `body` exactly, and reads the date back as the
/// machine-oriented form of the timestamp the serializer resolved the
/// stored date to. Stated over the specification functions that
/// `serialize_text` and `parse_text` are proved against, so it carries
/// over to the executable pair.
pub proof fn lemma_round_trip(m: Email, dt: DateTime)
    requires
        round_trippable(m),
        dt_valid(dt),
    ensures
        spec_split_message(spec_serialize_text(m, dt)) matches Some((lines, body)) && {
            let hs = spec_pairs(lines);
            &&& spec_from_field(hs) == m.from@
            &&& spec_collect_addrs(hs, key_to()) == m.to.deep_view()
            &&& spec_collect_addrs(hs, key_cc()) == m.cc.deep_view()
            &&& spec_collect_addrs(hs, key_bcc()) == m.bcc.deep_view()
            &&& spec_simple_field(hs, key_subject()) == m.subject@
            &&& spec_simple_field(hs, key_message_id()) == m.message_id@
            &&& spec_date_field(hs) == spec_format_rfc3339(dt)
            &&& body == m.body@
        },
{
    lemma_serialized_shape(m, dt);
    lemma_serialized_pairs(m, dt);
    lemma_serialized_fields(m, dt);
}

/// The round-trip law at the byte layer: the serializer's bytes are the
/// well-formed encoding of its text, decoding them gives that text back,
/// and the parser's field extraction on the decoded text recovers the
/// same fields the character-level law promises.
pub proof fn lemma_round_trip_bytes(m: Email, dt: DateTime)
    requires
        round_trippable(m),
        dt_valid(dt),
    ensures
        valid_utf8(encode_utf8(spec_serialize_text(m, dt))),
        decode_utf8(encode_utf8(spec_serialize_text(m, dt))) == spec_serialize_text(m, dt),
        spec_split_message(
            decode_utf8(encode_utf8(spec_serialize_text(m, dt))),
        ) matches Some((lines, body)) && {
            let hs = spec_pairs(lines);
            &&& spec_from_field(hs) == m.from@
            &&& spec_collect_addrs(hs, key_to()) == m.to.deep_view()
            &&& spec_collect_addrs(hs, key_cc()) == m.cc.deep_view()
            &&& spec_collect_addrs(hs, key_bcc()) == m.bcc.deep_view()
            &&& spec_simple_field(hs, key_subject()) == m.subject@
            &&& spec_simple_field(hs, key_message_id()) == m.message_id@
            &&& spec_date_field(hs) == spec_format_rfc3339(dt)
            &&& body == m.body@
        },
{
    encode_utf8_valid_utf8(spec_serialize_text(m, dt));
    encode_utf8_decode_utf8(spec_serialize_text(m, dt));
    lemma_round_trip(m, dt);
}

} // verus!
