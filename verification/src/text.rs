//! Character-level utilities shared by the serializer and the parser:
//! first-occurrence search, ASCII case folding, and whitespace trimming,
//! each with its specification-level counterpart.

use vstd::prelude::*;
use vstd::string::StrSliceExecFns;
use vstd::string::StringExecFns;

verus! {

/// Linear whitespace inside a header line.
pub open spec fn is_space(c: char) -> bool {
    c == ' ' || c == '\t'
}

/// ASCII lower-casing of a single character; anything outside `A`..`Z`
/// is left unchanged.
pub open spec fn lower_char(c: char) -> char {
    match c {
        'A' => 'a',
        'B' => 'b',
        'C' => 'c',
        'D' => 'd',
        'E' => 'e',
        'F' => 'f',
        'G' => 'g',
        'H' => 'h',
        'I' => 'i',
        'J' => 'j',
        'K' => 'k',
        'L' => 'l',
        'M' => 'm',
        'N' => 'n',
        'O' => 'o',
        'P' => 'p',
        'Q' => 'q',
        'R' => 'r',
        'S' => 's',
        'T' => 't',
        'U' => 'u',
        'V' => 'v',
        'W' => 'w',
        'X' => 'x',
        'Y' => 'y',
        'Z' => 'z',
        _ => c,
    }
}

/// ASCII lower-casing of a whole sequence.
pub open spec fn spec_lower(s: Seq<char>) -> Seq<char> {
    s.map_values(|c: char| lower_char(c))
}

fn lower_char_of(c: char) -> (r: char)
    ensures
        r == lower_char(c),
{
    match c {
        'A' => 'a',
        'B' => 'b',
        'C' => 'c',
        'D' => 'd',
        'E' => 'e',
        'F' => 'f',
        'G' => 'g',
        'H' => 'h',
        'I' => 'i',
        'J' => 'j',
        'K' => 'k',
        'L' => 'l',
        'M' => 'm',
        'N' => 'n',
        'O' => 'o',
        'P' => 'p',
        'Q' => 'q',
        'R' => 'r',
        'S' => 's',
        'T' => 't',
        'U' => 'u',
        'V' => 'v',
        'W' => 'w',
        'X' => 'x',
        'Y' => 'y',
        'Z' => 'z',
        _ => c,
    }
}

/// `j` is the position of the first `c` within `s[from..to)`.
pub open spec fn is_first_in(s: Seq<char>, from: int, to: int, c: char, j: int) -> bool {
    &&& from <= j < to
    &&& j < s.len()
    &&& s[j] == c
    &&& forall|k: int| from <= k < j ==> s[k] != c
}

/// The position of the first `c` within `s[from..to)`, or `-1` if there
/// is none.
pub open spec fn spec_find_in(s: Seq<char>, from: int, to: int, c: char) -> int {
    if exists|j: int| is_first_in(s, from, to, c, j) {
        choose|j: int| is_first_in(s, from, to, c, j)
    } else {
        -1
    }
}

pub proof fn lemma_find_in_some(s: Seq<char>, from: int, to: int, c: char, j: int)
    requires
        is_first_in(s, from, to, c, j),
    ensures
        spec_find_in(s, from, to, c) == j,
{
    let j2 = choose|j2: int| is_first_in(s, from, to, c, j2);
    assert(is_first_in(s, from, to, c, j2));
    if j2 < j {
        assert(s[j2] != c);
    } else if j < j2 {
        assert(s[j] != c);
    }
}

pub proof fn lemma_find_in_none(s: Seq<char>, from: int, to: int, c: char)
    requires
        forall|k: int| from <= k < to && k < s.len() ==> s[k] != c,
    ensures
        spec_find_in(s, from, to, c) == -1,
{
    if exists|j: int| is_first_in(s, from, to, c, j) {
        let j = choose|j: int| is_first_in(s, from, to, c, j);
        assert(s[j] != c);
    }
}

proof fn lemma_first_exists(s: Seq<char>, from: int, to: int, c: char, k: int)
    requires
        from <= k < to,
        k < s.len(),
        s[k] == c,
    ensures
        exists|j: int| is_first_in(s, from, to, c, j),
    decreases k - from,
{
    if forall|m: int| from <= m < k ==> s[m] != c {
        assert(is_first_in(s, from, to, c, k));
    } else {
        let m = choose|m: int| from <= m < k && s[m] == c;
        lemma_first_exists(s, from, to, c, m);
    }
}

/// When the search came back empty, no occurrence stands anywhere in the
/// range.
pub proof fn lemma_find_in_neg(s: Seq<char>, from: int, to: int, c: char)
    requires
        0 <= from,
        spec_find_in(s, from, to, c) == -1,
    ensures
        forall|k: int| from <= k < to && k < s.len() ==> s[k] != c,
{
    assert forall|k: int| from <= k < to && k < s.len() implies s[k] != c by {
        if s[k] == c {
            lemma_first_exists(s, from, to, c, k);
            let j = choose|j: int| is_first_in(s, from, to, c, j);
            assert(is_first_in(s, from, to, c, j));
        }
    }
}

/// Finds the first occurrence of `c` in `s[from..to)`.
pub fn find_in(s: &str, from: usize, to: usize, c: char) -> (r: Option<usize>)
    requires
        from <= to <= s@.len(),
    ensures
        match r {
            Some(i) => is_first_in(s@, from as int, to as int, c, i as int),
            None => spec_find_in(s@, from as int, to as int, c) == -1,
        },
        (r matches Some(i)) ==> spec_find_in(s@, from as int, to as int, c) == r.unwrap() as int,
{
    let mut i: usize = from;
    while i < to
        invariant
            from <= i <= to <= s@.len(),
            forall|k: int| from <= k < i ==> s@[k] != c,
        decreases to - i,
    {
        if s.get_char(i) == c {
            proof {
                lemma_find_in_some(s@, from as int, to as int, c, i as int);
            }
            return Some(i);
        }
        i += 1;
    }
    proof {
        lemma_find_in_none(s@, from as int, to as int, c);
    }
    None
}

/// Whether the lower-cased views of two strings coincide.
pub fn eq_ignore_case(a: &str, b: &str) -> (r: bool)
    ensures
        r == (spec_lower(a@) == spec_lower(b@)),
{
    let n = a.unicode_len();
    let m = b.unicode_len();
    if n != m {
        proof {
            assert(spec_lower(a@).len() != spec_lower(b@).len());
        }
        return false;
    }
    let mut i: usize = 0;
    while i < n
        invariant
            0 <= i <= n,
            n == a@.len() && n == b@.len(),
            forall|k: int| 0 <= k < i ==> spec_lower(a@)[k] == spec_lower(b@)[k],
        decreases n - i,
    {
        if lower_char_of(a.get_char(i)) != lower_char_of(b.get_char(i)) {
            proof {
                assert(spec_lower(a@)[i as int] != spec_lower(b@)[i as int]);
            }
            return false;
        }
        i += 1;
    }
    proof {
        assert(spec_lower(a@) =~= spec_lower(b@));
    }
    true
}

/// The sequence with its leading linear whitespace removed.
pub open spec fn spec_trim_start(v: Seq<char>) -> Seq<char>
    decreases v.len(),
{
    if v.len() > 0 && is_space(v[0]) {
        spec_trim_start(v.drop_first())
    } else {
        v
    }
}

/// The sequence with its trailing linear whitespace removed.
pub open spec fn spec_trim_end(v: Seq<char>) -> Seq<char>
    decreases v.len(),
{
    if v.len() > 0 && is_space(v.last()) {
        spec_trim_end(v.drop_last())
    } else {
        v
    }
}

/// The sequence with leading and trailing linear whitespace removed.
pub open spec fn spec_trim(v: Seq<char>) -> Seq<char> {
    spec_trim_end(spec_trim_start(v))
}

fn space_at(s: &str, i: usize) -> (r: bool)
    requires
        i < s@.len(),
    ensures
        r == is_space(s@[i as int]),
{
    let c = s.get_char(i);
    c == ' ' || c == '\t'
}

/// Narrows `[from, to)` to the bounds of the trimmed content of
/// `s[from..to)`.
pub fn trim_in(s: &str, from: usize, to: usize) -> (r: (usize, usize))
    requires
        from <= to <= s@.len(),
    ensures
        from <= r.0 <= r.1 <= to,
        s@.subrange(r.0 as int, r.1 as int) == spec_trim(
            s@.subrange(from as int, to as int),
        ),
{
    let ghost orig = s@.subrange(from as int, to as int);
    let mut lo: usize = from;
    while lo < to && space_at(s, lo)
        invariant
            from <= lo <= to <= s@.len(),
            spec_trim_start(orig) == spec_trim_start(s@.subrange(lo as int, to as int)),
        decreases to - lo,
    {
        proof {
            let cur = s@.subrange(lo as int, to as int);
            assert(cur.drop_first() =~= s@.subrange(lo as int + 1, to as int));
        }
        lo += 1;
    }
    proof {
        let cur = s@.subrange(lo as int, to as int);
        if lo < to {
            assert(!is_space(cur[0]));
        }
        assert(spec_trim_start(orig) == cur);
    }
    let mut hi: usize = to;
    while hi > lo && space_at(s, hi - 1)
        invariant
            from <= lo <= hi <= to <= s@.len(),
            spec_trim_start(orig) == s@.subrange(lo as int, to as int),
            spec_trim_end(s@.subrange(lo as int, to as int)) == spec_trim_end(
                s@.subrange(lo as int, hi as int),
            ),
        decreases hi,
    {
        proof {
            let cur = s@.subrange(lo as int, hi as int);
            assert(cur.len() > 0 && is_space(cur.last()));
            assert(cur.drop_last() =~= s@.subrange(lo as int, hi as int - 1));
        }
        hi -= 1;
    }
    proof {
        let cur = s@.subrange(lo as int, hi as int);
        if hi > lo {
            assert(!is_space(cur.last()));
        }
        assert(spec_trim(orig) == cur);
    }
    (lo, hi)
}

/// Copies `s[from..to)` into an owned string.
pub fn copy_range(s: &str, from: usize, to: usize) -> (r: String)
    requires
        from <= to <= s@.len(),
    ensures
        r@ == s@.subrange(from as int, to as int),
{
    String::from_str(s.substring_char(from, to))
}

} // verus!
