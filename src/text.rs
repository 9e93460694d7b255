//! Forward-only scanning primitives over the characters of a text: anchor
//! search, line ends, runs of decimal digits and their values.
use vstd::prelude::*;
use vstd::std_specs::iter::IteratorSpec;
use vstd::string::*;

verus! {

/// `pat` stands in `s` starting at index `i`.
pub open spec fn occurs_at(s: Seq<char>, i: int, pat: Seq<char>) -> bool {
    0 <= i && i + pat.len() <= s.len() && s.subrange(i, i + pat.len()) == pat
}

/// `pat` stands somewhere in `t`.
pub open spec fn contains(t: Seq<char>, pat: Seq<char>) -> bool {
    exists|i: int| occurs_at(t, i, pat)
}

/// No occurrence of `pat` starts inside `part`, which stands in `s` at `start`
/// and is followed by `pat` itself or by the end of `s`: an occurrence that ran
/// past `part` would end on a character of `pat` other than its last.
pub proof fn lemma_absent_in_part(s: Seq<char>, start: int, part: Seq<char>, pat: Seq<char>)
    requires
        0 <= start,
        start + part.len() <= s.len(),
        s.subrange(start, start + part.len()) == part,
        !contains(part, pat),
        pat.len() > 0,
        forall|j: int| 0 <= j < pat.len() - 1 ==> #[trigger] pat[j] != pat[pat.len() - 1],
        start + part.len() == s.len() || (start + part.len() + pat.len() <= s.len()
            && s.subrange(start + part.len(), start + part.len() + pat.len()) == pat),
    ensures
        forall|k: int| start <= k < start + part.len() ==> !occurs_at(s, k, pat),
{
    let e = start + part.len();
    let n = pat.len() as int;
    assert forall|k: int| start <= k < e implies !occurs_at(s, k, pat) by {
        if occurs_at(s, k, pat) {
            if k + n <= e {
                assert(part.subrange(k - start, k - start + n) =~= s.subrange(k, k + n));
                assert(occurs_at(part, k - start, pat));
            } else {
                let m = k + n - 1;
                assert(s.subrange(k, k + n)[n - 1] == s[m]);
                assert(s.subrange(e, e + n)[m - e] == s[m]);
            }
        }
    }
}

/// No occurrence of `pat` starts inside `part`, which stands in `s` at `start`
/// and is followed by `pat` itself: an occurrence that ran past `part` would put
/// the first character of `pat` at a later place in `pat`.
pub proof fn lemma_absent_before_anchor(s: Seq<char>, start: int, part: Seq<char>, pat: Seq<char>)
    requires
        0 <= start,
        start + part.len() + pat.len() <= s.len(),
        s.subrange(start, start + part.len()) == part,
        s.subrange(start + part.len(), start + part.len() + pat.len()) == pat,
        !contains(part, pat),
        pat.len() > 0,
        forall|j: int| 0 < j < pat.len() ==> #[trigger] pat[j] != pat[0],
    ensures
        forall|k: int| start <= k < start + part.len() ==> !occurs_at(s, k, pat),
{
    let e = start + part.len();
    let n = pat.len() as int;
    assert forall|k: int| start <= k < e implies !occurs_at(s, k, pat) by {
        if occurs_at(s, k, pat) {
            if k + n <= e {
                assert(part.subrange(k - start, k - start + n) =~= s.subrange(k, k + n));
                assert(occurs_at(part, k - start, pat));
            } else {
                assert(s.subrange(k, k + n)[e - k] == s[e]);
                assert(s.subrange(e, e + n)[0] == s[e]);
            }
        }
    }
}

/// An anchor that does not begin with a line feed does not stand on one.
pub proof fn lemma_not_at_line_feed(s: Seq<char>, k: int, pat: Seq<char>)
    requires
        0 <= k < s.len(),
        s[k] == '\n',
        pat.len() > 0,
        pat[0] != '\n',
    ensures
        !occurs_at(s, k, pat),
{
    if occurs_at(s, k, pat) {
        assert(s.subrange(k, k + pat.len())[0] == s[k]);
    }
}

/// The first index in `[from, to - pat.len()]` at which `pat` stands, if any.
pub open spec fn find(s: Seq<char>, from: int, to: int, pat: Seq<char>) -> Option<int>
    decreases to - from,
{
    if from < 0 || to > s.len() || from >= to || from + pat.len() > to {
        None
    } else if s.subrange(from, from + pat.len()) == pat {
        Some(from)
    } else {
        find(s, from + 1, to, pat)
    }
}

/// The index of the first line feed in `[from, to)`, or `to` when there is none.
pub open spec fn line_end(s: Seq<char>, from: int, to: int) -> int
    decreases to - from,
{
    if from >= to || s[from] == '\n' {
        from
    } else {
        line_end(s, from + 1, to)
    }
}

/// The end of the text of the line that starts at `from`, within `to`: the
/// line ends at its line feed, and a carriage return just before that is not
/// part of the text.
pub open spec fn line_text_end(s: Seq<char>, from: int, to: int) -> int {
    let e = line_end(s, from, to);
    if from < e && e < to && s[e - 1] == '\r' {
        e - 1
    } else {
        e
    }
}

pub open spec fn is_digit(c: char) -> bool {
    '0' <= c && c <= '9'
}

/// The end of the run of decimal digits that starts at `from`, within `to`.
pub open spec fn digits_end(s: Seq<char>, from: int, to: int) -> int
    decreases to - from,
{
    if from >= to || !is_digit(s[from]) {
        from
    } else {
        digits_end(s, from + 1, to)
    }
}

pub open spec fn digit_of(c: char) -> nat {
    (c as int - '0' as int) as nat
}

/// The number that a sequence of decimal digits writes, most significant first.
pub open spec fn digits_value(d: Seq<char>) -> nat
    decreases d.len(),
{
    if d.len() == 0 {
        0
    } else {
        digits_value(d.drop_last()) * 10 + digit_of(d.last())
    }
}

pub proof fn lemma_find_bounds(s: Seq<char>, from: int, to: int, pat: Seq<char>)
    ensures
        find(s, from, to, pat) matches Some(i) ==> from <= i && i + pat.len() <= to
            && to <= s.len() && occurs_at(s, i, pat),
    decreases to - from,
{
    if !(from < 0 || to > s.len() || from >= to || from + pat.len() > to) {
        if s.subrange(from, from + pat.len()) != pat {
            lemma_find_bounds(s, from + 1, to, pat);
        }
    }
}

/// `find` yields the first occurrence in the window, and nothing when there is none.
pub proof fn lemma_find_first(s: Seq<char>, from: int, to: int, pat: Seq<char>)
    requires
        0 <= from,
        to <= s.len(),
        pat.len() > 0,
    ensures
        find(s, from, to, pat) matches Some(i) ==> forall|k: int|
            from <= k < i ==> !occurs_at(s, k, pat),
        find(s, from, to, pat) is None ==> forall|k: int|
            from <= k && k + pat.len() <= to ==> !occurs_at(s, k, pat),
    decreases to - from,
{
    if !(from >= to || from + pat.len() > to) {
        if s.subrange(from, from + pat.len()) != pat {
            lemma_find_first(s, from + 1, to, pat);
        }
    }
}

/// An occurrence with none before it in the window is what `find` yields.
pub proof fn lemma_find_is(s: Seq<char>, from: int, to: int, pat: Seq<char>, i: int)
    requires
        0 <= from <= i,
        i + pat.len() <= to <= s.len(),
        pat.len() > 0,
        occurs_at(s, i, pat),
        forall|k: int| from <= k < i ==> !occurs_at(s, k, pat),
    ensures
        find(s, from, to, pat) == Some(i),
    decreases i - from,
{
    if from < i {
        assert(!occurs_at(s, from, pat));
        lemma_find_is(s, from + 1, to, pat, i);
    }
}

/// With no occurrence in the window, `find` yields nothing.
pub proof fn lemma_find_none(s: Seq<char>, from: int, to: int, pat: Seq<char>)
    requires
        0 <= from,
        to <= s.len(),
        pat.len() > 0,
        forall|k: int| from <= k && k + pat.len() <= to ==> !occurs_at(s, k, pat),
    ensures
        find(s, from, to, pat) is None,
    decreases to - from,
{
    if !(from >= to || from + pat.len() > to) {
        assert(!occurs_at(s, from, pat));
        lemma_find_none(s, from + 1, to, pat);
    }
}

pub proof fn lemma_line_end(s: Seq<char>, from: int, to: int)
    requires
        from <= to,
    ensures
        from <= line_end(s, from, to) <= to,
        forall|k: int| from <= k < line_end(s, from, to) ==> s[k] != '\n',
        line_end(s, from, to) < to ==> s[line_end(s, from, to)] == '\n',
    decreases to - from,
{
    if !(from >= to || s[from] == '\n') {
        lemma_line_end(s, from + 1, to);
    }
}

/// A line that holds no line feed up to a line feed, or up to the window's end, ends there.
pub proof fn lemma_line_end_is(s: Seq<char>, from: int, to: int, e: int)
    requires
        from <= e <= to,
        forall|k: int| from <= k < e ==> s[k] != '\n',
        e < to ==> s[e] == '\n',
    ensures
        line_end(s, from, to) == e,
    decreases e - from,
{
    if from < e {
        lemma_line_end_is(s, from + 1, to, e);
    }
}

pub proof fn lemma_line_text_end(s: Seq<char>, from: int, to: int)
    requires
        from <= to,
    ensures
        from <= line_text_end(s, from, to) <= to,
{
    lemma_line_end(s, from, to);
}

pub proof fn lemma_digits_end(s: Seq<char>, from: int, to: int)
    requires
        from <= to,
    ensures
        from <= digits_end(s, from, to) <= to,
        forall|k: int| from <= k < digits_end(s, from, to) ==> is_digit(s[k]),
    decreases to - from,
{
    if !(from >= to || !is_digit(s[from])) {
        lemma_digits_end(s, from + 1, to);
    }
}

/// A run of digits followed by a non-digit, or by the window's end, ends there.
pub proof fn lemma_digits_end_is(s: Seq<char>, from: int, to: int, e: int)
    requires
        from <= e <= to,
        forall|k: int| from <= k < e ==> is_digit(s[k]),
        e < to ==> !is_digit(s[e]),
    ensures
        digits_end(s, from, to) == e,
    decreases e - from,
{
    if from < e {
        lemma_digits_end_is(s, from + 1, to, e);
    }
}

/// Appending digits never makes the value smaller.
pub proof fn lemma_digits_value_grows(d: Seq<char>, n: int)
    requires
        0 <= n <= d.len(),
    ensures
        digits_value(d.subrange(0, n)) <= digits_value(d),
    decreases d.len() - n,
{
    if n < d.len() {
        let longer = d.subrange(0, n + 1);
        assert(longer.drop_last() =~= d.subrange(0, n));
        lemma_digits_value_grows(d, n + 1);
    } else {
        assert(d.subrange(0, n) =~= d);
    }
}

/// The characters of `text`, in order.
pub fn to_chars(text: &str) -> (r: Vec<char>)
    ensures
        r@ == text@,
{
    let mut it = text.chars();
    let mut r: Vec<char> = Vec::new();
    loop
        invariant
            r@ + it.remaining() == text@,
            it.obeys_prophetic_iter_laws(),
            it.decrease() is Some,
        ensures
            r@ == text@,
        decreases it.decrease()->0,
    {
        match it.next() {
            Some(c) => {
                r.push(c);
            },
            None => {
                assert(r@ + it.remaining() =~= r@);
                break;
            },
        }
    }
    r
}

/// Whether `pat` stands in `s` at index `i`.
fn matches_at(s: &Vec<char>, i: usize, pat: &str, plen: usize) -> (r: bool)
    requires
        plen == pat@.len(),
        i + plen <= s@.len(),
    ensures
        r == (s@.subrange(i as int, i + plen) == pat@),
{
    let n = s.len();
    let mut k: usize = 0;
    while k < plen
        invariant
            n == s@.len(),
            k <= plen,
            plen == pat@.len(),
            i + plen <= s@.len(),
            forall|j: int| 0 <= j < k ==> s@[i + j] == pat@[j],
        decreases plen - k,
    {
        if s[i + k] != pat.get_char(k) {
            assert(s@.subrange(i as int, i + plen)[k as int] != pat@[k as int]);
            return false;
        }
        k = k + 1;
    }
    assert(s@.subrange(i as int, i + plen) =~= pat@);
    true
}

/// The first occurrence of the anchor `pat` in `s[from..to]`.
pub fn find_anchor(s: &Vec<char>, from: usize, to: usize, pat: &str) -> (r: Option<usize>)
    requires
        from <= to <= s@.len(),
        pat@.len() > 0,
    ensures
        match r {
            Some(i) => find(s@, from as int, to as int, pat@) == Some(i as int),
            None => find(s@, from as int, to as int, pat@) is None,
        },
{
    let plen = pat.unicode_len();
    let mut i = from;
    while plen <= to - i
        invariant
            from <= i <= to,
            to <= s@.len(),
            plen == pat@.len(),
            plen > 0,
            find(s@, from as int, to as int, pat@) == find(s@, i as int, to as int, pat@),
        decreases to - i,
    {
        if matches_at(s, i, pat, plen) {
            return Some(i);
        }
        i = i + 1;
    }
    None
}

/// The index of the first line feed in `s[from..to]`, or `to`.
pub fn line_end_at(s: &Vec<char>, from: usize, to: usize) -> (r: usize)
    requires
        from <= to <= s@.len(),
    ensures
        r == line_end(s@, from as int, to as int),
{
    let mut i = from;
    while i < to && s[i] != '\n'
        invariant
            from <= i <= to,
            to <= s@.len(),
            line_end(s@, from as int, to as int) == line_end(s@, i as int, to as int),
        decreases to - i,
    {
        i = i + 1;
    }
    i
}

/// The end of the text of the line that starts at `from`, within `to`.
pub fn line_text_end_at(s: &Vec<char>, from: usize, to: usize) -> (r: usize)
    requires
        from <= to <= s@.len(),
    ensures
        r == line_text_end(s@, from as int, to as int),
{
    let e = line_end_at(s, from, to);
    proof {
        lemma_line_end(s@, from as int, to as int);
    }
    if from < e && e < to && s[e - 1] == '\r' {
        e - 1
    } else {
        e
    }
}

/// The end of the run of decimal digits that starts at `from`, within `to`.
pub fn digits_end_at(s: &Vec<char>, from: usize, to: usize) -> (r: usize)
    requires
        from <= to <= s@.len(),
    ensures
        r == digits_end(s@, from as int, to as int),
{
    let mut i = from;
    while i < to && '0' <= s[i] && s[i] <= '9'
        invariant
            from <= i <= to,
            to <= s@.len(),
            digits_end(s@, from as int, to as int) == digits_end(s@, i as int, to as int),
        decreases to - i,
    {
        i = i + 1;
    }
    i
}

/// Continues the number `acc`, written by `prefix`, with the digits of `s[from..to]`;
/// nothing when the whole does not fit in a `u64`.
pub(crate) fn append_digits(s: &Vec<char>, from: usize, to: usize, acc: u64, Ghost(prefix): Ghost<Seq<char>>) -> (r: Option<u64>)
    requires
        from <= to <= s@.len(),
        forall|k: int| from <= k < to ==> is_digit(s@[k]),
        acc == digits_value(prefix),
    ensures
        match r {
            Some(v) => v == digits_value(prefix + s@.subrange(from as int, to as int)),
            None => digits_value(prefix + s@.subrange(from as int, to as int)) > u64::MAX,
        },
{
    let mut acc = acc;
    let mut i = from;
    assert(prefix + s@.subrange(from as int, from as int) =~= prefix);
    while i < to
        invariant
            from <= i <= to,
            to <= s@.len(),
            forall|k: int| from <= k < to ==> is_digit(s@[k]),
            acc == digits_value(prefix + s@.subrange(from as int, i as int)),
        decreases to - i,
    {
        let ghost before = prefix + s@.subrange(from as int, i as int);
        let ghost after = prefix + s@.subrange(from as int, i + 1);
        assert(after.drop_last() =~= before);
        assert(after.last() == s@[i as int]);
        let d = (s[i] as u32 - '0' as u32) as u64;
        let next = match acc.checked_mul(10) {
            Some(m) => m.checked_add(d),
            None => None,
        };
        match next {
            Some(v) => {
                acc = v;
            },
            None => {
                proof {
                    let whole = prefix + s@.subrange(from as int, to as int);
                    assert(whole.subrange(0, after.len() as int) =~= after);
                    lemma_digits_value_grows(whole, after.len() as int);
                }
                return None;
            },
        }
        i = i + 1;
    }
    Some(acc)
}

/// The value of the decimal digits `s[from..to]`; nothing when it does not fit in a `u64`.
pub fn digits_number(s: &Vec<char>, from: usize, to: usize) -> (r: Option<u64>)
    requires
        from <= to <= s@.len(),
        forall|k: int| from <= k < to ==> is_digit(s@[k]),
    ensures
        match r {
            Some(v) => v == digits_value(s@.subrange(from as int, to as int)),
            None => digits_value(s@.subrange(from as int, to as int)) > u64::MAX,
        },
{
    let r = append_digits(s, from, to, 0, Ghost(Seq::empty()));
    assert(Seq::<char>::empty() + s@.subrange(from as int, to as int) =~= s@.subrange(
        from as int,
        to as int,
    ));
    r
}

} // verus!
