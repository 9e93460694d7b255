//! Network ("cell") records scraped from the output of the network-scanning tool.
use crate::security::{classify, security_of, SecurityType};
use crate::text::{
    digits_end, digits_end_at, digits_number, digits_value, find, find_anchor, is_digit, line_end,
    line_end_at, line_text_end, line_text_end_at, occurs_at, to_chars,
};
use vstd::prelude::*;
use vstd::string::*;

verus! {

/// Opens a cell record.
pub const CELL: &'static str = "Cell ";

/// Follows the cell number and precedes the access point's address.
pub const ADDRESS: &'static str = " - Address: ";

pub const FREQUENCY: &'static str = "Frequency:";

pub const QUALITY: &'static str = "Quality=";

pub const ESSID: &'static str = "ESSID:";

/// Opens the security-capability line.
pub const IEEE: &'static str = "IEEE 802.11";

pub const QUOTE: &'static str = "\"";

/// A signal-quality reading, `value` out of `limit`, as the driver reports it.
#[derive(Debug, Clone, Copy, PartialEq, Eq, Structural)]
pub struct Quality {
    pub value: u64,
    pub limit: u64,
}

/// A frequency in GHz, written as `digits / 10^decimals`: `2.437` is 2437 with 3 decimals.
#[derive(Debug, Clone, Copy, PartialEq, Eq, Structural)]
pub struct Frequency {
    pub digits: u64,
    pub decimals: u64,
}

/// One observed access point.
#[derive(Debug, Clone, PartialEq, Eq)]
pub struct WirelessNetwork {
    pub address: String,
    pub quality: Quality,
    pub frequency: Frequency,
    pub essid: String,
    pub security_type: SecurityType,
}

pub struct NetworkView {
    pub address: Seq<char>,
    pub quality: Quality,
    pub frequency: Frequency,
    pub essid: Seq<char>,
    pub security_type: SecurityType,
}

impl View for WirelessNetwork {
    type V = NetworkView;

    open spec fn view(&self) -> NetworkView {
        NetworkView {
            address: self.address@,
            quality: self.quality,
            frequency: self.frequency,
            essid: self.essid@,
            security_type: self.security_type,
        }
    }
}

pub open spec fn networks_view(v: Seq<WirelessNetwork>) -> Seq<NetworkView> {
    v.map_values(|w: WirelessNetwork| w@)
}

/// The text by which a network is told apart: `essid - (address)`.
pub open spec fn id_of(essid: Seq<char>, address: Seq<char>) -> Seq<char> {
    essid + " - ("@ + address + ")"@
}

/// `pat` stands in `s` at `i` and ends within `to`.
pub open spec fn tag_at(s: Seq<char>, i: int, to: int, pat: Seq<char>) -> bool {
    i + pat.len() <= to && occurs_at(s, i, pat)
}

/// The address after the cell number that starts at `from`: the rest of the line
/// after ` - Address: `; with where the record goes on.
pub open spec fn address_at(s: Seq<char>, from: int, to: int) -> Option<(Seq<char>, int)> {
    let d = digits_end(s, from, to);
    if d == from || !tag_at(s, d, to, ADDRESS@) {
        None
    } else {
        let start = d + ADDRESS@.len();
        let end = line_end(s, start, to);
        Some((s.subrange(start, end), end))
    }
}

/// How many of the fraction digits `f` are kept after the whole part `w`:
/// digits are taken one at a time from `m` on, while the number they write
/// together with `w` still fits in a `u64`.
pub open spec fn fraction_kept(w: Seq<char>, f: Seq<char>, m: int) -> int
    decreases f.len() - m,
{
    if 0 <= m < f.len() && digits_value(w + f.subrange(0, m + 1)) <= u64::MAX {
        fraction_kept(w, f, m + 1)
    } else {
        m
    }
}

/// A decimal number at `p`: digits, then optionally a point and more digits.
/// Fraction digits past what a `u64` can hold are dropped, as precision is
/// lost; nothing when no digit stands at `p`, or when the whole part alone
/// does not fit in a `u64`. The number ends after all its digits.
pub open spec fn decimal_at(s: Seq<char>, p: int, to: int) -> Option<(Frequency, int)> {
    let a = digits_end(s, p, to);
    let w = s.subrange(p, a);
    if a == p || digits_value(w) > u64::MAX {
        None
    } else {
        let has_fraction = a < to && s[a] == '.' && digits_end(s, a + 1, to) > a + 1;
        let b = if has_fraction { a + 1 } else { a };
        let c = if has_fraction { digits_end(s, a + 1, to) } else { a };
        let m = fraction_kept(w, s.subrange(b, c), 0);
        let v = digits_value(w + s.subrange(b, b + m));
        Some((Frequency { digits: v as u64, decimals: m as u64 }, c))
    }
}

pub open spec fn frequency_at(s: Seq<char>, from: int, to: int) -> Option<(Frequency, int)> {
    match find(s, from, to, FREQUENCY@) {
        None => None,
        Some(f) => decimal_at(s, f + FREQUENCY@.len(), to),
    }
}

/// `value/limit` after the quality label, both as written.
pub open spec fn quality_at(s: Seq<char>, from: int, to: int) -> Option<(Quality, int)> {
    match find(s, from, to, QUALITY@) {
        None => None,
        Some(q) => {
            let p = q + QUALITY@.len();
            let a = digits_end(s, p, to);
            let b = digits_end(s, a + 1, to);
            if a == p || a >= to || s[a] != '/' || b == a + 1 {
                None
            } else {
                let value = digits_value(s.subrange(p, a));
                let limit = digits_value(s.subrange(a + 1, b));
                if value > u64::MAX || limit > u64::MAX {
                    None
                } else {
                    Some((Quality { value: value as u64, limit: limit as u64 }, b))
                }
            }
        },
    }
}

/// The double-quoted text after the ESSID label.
pub open spec fn essid_at(s: Seq<char>, from: int, to: int) -> Option<(Seq<char>, int)> {
    match find(s, from, to, ESSID@) {
        None => None,
        Some(e) => {
            let p = e + ESSID@.len();
            if p >= to || s[p] != '"' {
                None
            } else {
                match find(s, p + 1, to, QUOTE@) {
                    None => None,
                    Some(k) => Some((s.subrange(p + 1, k), k + 1)),
                }
            }
        },
    }
}

/// The tag of the rest of the line after the IEEE 802.11 label; the line ends
/// at its line feed, without a carriage return that stands just before it.
pub open spec fn security_at(s: Seq<char>, from: int, to: int) -> Option<(SecurityType, int)> {
    match find(s, from, to, IEEE@) {
        None => None,
        Some(i) => {
            let p = i + IEEE@.len();
            let e = line_text_end(s, p, to);
            Some((security_of(s.subrange(p, e)), e))
        },
    }
}

/// The record of the cell whose text, after `Cell `, is `s[from..to]`: its five
/// fields in order, each searched for after the one before.
pub open spec fn cell_at(s: Seq<char>, from: int, to: int) -> Option<NetworkView> {
    match address_at(s, from, to) {
        None => None,
        Some((address, a)) => match frequency_at(s, a, to) {
            None => None,
            Some((frequency, f)) => match quality_at(s, f, to) {
                None => None,
                Some((quality, q)) => match essid_at(s, q, to) {
                    None => None,
                    Some((essid, e)) => match security_at(s, e, to) {
                        None => None,
                        Some((security_type, _)) => Some(
                            NetworkView { address, quality, frequency, essid, security_type },
                        ),
                    },
                },
            },
        },
    }
}

/// The network records of `s` from `pos` on, in order; a cell that lacks a
/// field before the next cell is left out, and the scan goes on after it.
pub open spec fn networks_from(s: Seq<char>, pos: int) -> Seq<NetworkView>
    decreases s.len() - pos,
{
    match find(s, pos, s.len() as int, CELL@) {
        None => seq![],
        Some(c) => {
            let body = c + CELL@.len();
            let end = match find(s, body, s.len() as int, CELL@) {
                Some(k) => k,
                None => s.len() as int,
            };
            // Always true, as `body` lies past an anchor found at or after `pos`;
            // the test makes that plain to the termination check.
            let rest = if pos < body <= s.len() {
                networks_from(s, body)
            } else {
                seq![]
            };
            match cell_at(s, body, end) {
                Some(n) => seq![n] + rest,
                None => rest,
            }
        },
    }
}

/// The address of the cell whose number starts at `from`, and where the record goes on.
pub fn network_address(input: &str, s: &Vec<char>, from: usize, to: usize) -> (r: Option<
    (String, usize),
>)
    requires
        s@ == input@,
        from <= to <= s@.len(),
    ensures
        match r {
            Some((a, e)) => address_at(s@, from as int, to as int) == Some((a@, e as int))
                && from <= e <= to,
            None => address_at(s@, from as int, to as int) is None,
        },
{
    proof {
        reveal_strlit(" - Address: ");
        crate::text::lemma_digits_end(s@, from as int, to as int);
    }
    let d = digits_end_at(s, from, to);
    if d == from || to - d < 12 || find_anchor(s, d, d + 12, ADDRESS) != Some(d) {
        proof {
            if d != from && to - d >= 12 && tag_at(s@, d as int, to as int, ADDRESS@) {
                crate::text::lemma_find_is(s@, d as int, d + 12, ADDRESS@, d as int);
            }
        }
        return None;
    }
    proof {
        crate::text::lemma_find_bounds(s@, d as int, d + 12, ADDRESS@);
    }
    let start = d + 12;
    let end = line_end_at(s, start, to);
    proof {
        crate::text::lemma_line_end(s@, start as int, to as int);
    }
    Some((input.substring_char(start, end).to_owned(), end))
}

/// Continues the number `acc`, written by `w`, with as many of the digits of
/// `s[from..to]` as keep it within a `u64`; the value and how many were taken.
fn append_fitting_digits(
    s: &Vec<char>,
    from: usize,
    to: usize,
    acc: u64,
    Ghost(w): Ghost<Seq<char>>,
) -> (r: (u64, usize))
    requires
        from <= to <= s@.len(),
        forall|k: int| from <= k < to ==> is_digit(s@[k]),
        acc == digits_value(w),
    ensures
        r.1 == fraction_kept(w, s@.subrange(from as int, to as int), 0),
        r.1 <= to - from,
        r.0 == digits_value(w + s@.subrange(from as int, from + r.1)),
{
    let ghost f = s@.subrange(from as int, to as int);
    let mut acc = acc;
    let mut i = from;
    assert(w + s@.subrange(from as int, from as int) =~= w);
    while i < to
        invariant
            from <= i <= to,
            to <= s@.len(),
            f == s@.subrange(from as int, to as int),
            forall|k: int| from <= k < to ==> is_digit(s@[k]),
            acc == digits_value(w + s@.subrange(from as int, i as int)),
            fraction_kept(w, f, 0) == fraction_kept(w, f, i - from),
        decreases to - i,
    {
        let ghost before = w + s@.subrange(from as int, i as int);
        let ghost after = w + s@.subrange(from as int, i + 1);
        assert(after.drop_last() =~= before);
        assert(after.last() == s@[i as int]);
        assert(f.subrange(0, i - from + 1) =~= s@.subrange(from as int, i + 1));
        let d = (s[i] as u32 - '0' as u32) as u64;
        let next = match acc.checked_mul(10) {
            Some(m) => m.checked_add(d),
            None => None,
        };
        match next {
            Some(v) => {
                acc = v;
            },
            None => {
                return (acc, i - from);
            },
        }
        i = i + 1;
    }
    (acc, i - from)
}

/// A decimal number at `p`, and where it ends.
pub fn decimal(s: &Vec<char>, p: usize, to: usize) -> (r: Option<(Frequency, usize)>)
    requires
        p <= to <= s@.len(),
    ensures
        match r {
            Some((f, e)) => decimal_at(s@, p as int, to as int) == Some((f, e as int)) && p <= e
                <= to,
            None => decimal_at(s@, p as int, to as int) is None,
        },
{
    proof {
        crate::text::lemma_digits_end(s@, p as int, to as int);
    }
    let a = digits_end_at(s, p, to);
    if a == p {
        return None;
    }
    let mut b = a;
    let mut c = a;
    if a < to && s[a] == '.' {
        proof {
            crate::text::lemma_digits_end(s@, a + 1, to as int);
        }
        let e = digits_end_at(s, a + 1, to);
        if e > a + 1 {
            b = a + 1;
            c = e;
        }
    }
    match digits_number(s, p, a) {
        None => None,
        Some(whole_part) => {
            let (v, m) = append_fitting_digits(
                s,
                b,
                c,
                whole_part,
                Ghost(s@.subrange(p as int, a as int)),
            );
            Some((Frequency { digits: v, decimals: m as u64 }, c))
        },
    }
}

/// The frequency after the frequency label, and where it ends.
pub fn network_frequency(s: &Vec<char>, from: usize, to: usize) -> (r: Option<(Frequency, usize)>)
    requires
        from <= to <= s@.len(),
    ensures
        match r {
            Some((f, e)) => frequency_at(s@, from as int, to as int) == Some((f, e as int))
                && from <= e <= to,
            None => frequency_at(s@, from as int, to as int) is None,
        },
{
    proof {
        reveal_strlit("Frequency:");
        crate::text::lemma_find_bounds(s@, from as int, to as int, FREQUENCY@);
    }
    match find_anchor(s, from, to, FREQUENCY) {
        None => None,
        Some(f) => decimal(s, f + 10, to),
    }
}

/// The quality pair after the quality label, and where it ends.
pub fn network_quality(s: &Vec<char>, from: usize, to: usize) -> (r: Option<(Quality, usize)>)
    requires
        from <= to <= s@.len(),
    ensures
        match r {
            Some((q, e)) => quality_at(s@, from as int, to as int) == Some((q, e as int))
                && from <= e <= to,
            None => quality_at(s@, from as int, to as int) is None,
        },
{
    proof {
        reveal_strlit("Quality=");
        crate::text::lemma_find_bounds(s@, from as int, to as int, QUALITY@);
    }
    let q = match find_anchor(s, from, to, QUALITY) {
        None => {
            return None;
        },
        Some(q) => q,
    };
    let p = q + 8;
    proof {
        crate::text::lemma_digits_end(s@, p as int, to as int);
    }
    let a = digits_end_at(s, p, to);
    if a == p || a >= to || s[a] != '/' {
        return None;
    }
    proof {
        crate::text::lemma_digits_end(s@, a + 1, to as int);
    }
    let b = digits_end_at(s, a + 1, to);
    if b == a + 1 {
        return None;
    }
    let value = match digits_number(s, p, a) {
        None => {
            return None;
        },
        Some(v) => v,
    };
    let limit = match digits_number(s, a + 1, b) {
        None => {
            return None;
        },
        Some(l) => l,
    };
    Some((Quality { value, limit }, b))
}

/// The quoted network name after the ESSID label, and where the closing quote ends.
pub fn network_essid(input: &str, s: &Vec<char>, from: usize, to: usize) -> (r: Option<
    (String, usize),
>)
    requires
        s@ == input@,
        from <= to <= s@.len(),
    ensures
        match r {
            Some((n, e)) => essid_at(s@, from as int, to as int) == Some((n@, e as int))
                && from <= e <= to,
            None => essid_at(s@, from as int, to as int) is None,
        },
{
    proof {
        reveal_strlit("ESSID:");
        reveal_strlit("\"");
        crate::text::lemma_find_bounds(s@, from as int, to as int, ESSID@);
    }
    let e = match find_anchor(s, from, to, ESSID) {
        None => {
            return None;
        },
        Some(e) => e,
    };
    let p = e + 6;
    if p >= to || s[p] != '"' {
        return None;
    }
    proof {
        crate::text::lemma_find_bounds(s@, p + 1, to as int, QUOTE@);
    }
    match find_anchor(s, p + 1, to, QUOTE) {
        None => None,
        Some(k) => Some((input.substring_char(p + 1, k).to_owned(), k + 1)),
    }
}

/// The security tag of the line after the IEEE 802.11 label, and where that line ends.
pub fn network_security_type(s: &Vec<char>, from: usize, to: usize) -> (r: Option<
    (SecurityType, usize),
>)
    requires
        from <= to <= s@.len(),
    ensures
        match r {
            Some((t, e)) => security_at(s@, from as int, to as int) == Some((t, e as int))
                && from <= e <= to,
            None => security_at(s@, from as int, to as int) is None,
        },
{
    proof {
        reveal_strlit("IEEE 802.11");
        crate::text::lemma_find_bounds(s@, from as int, to as int, IEEE@);
    }
    match find_anchor(s, from, to, IEEE) {
        None => None,
        Some(i) => {
            let p = i + 11;
            proof {
                crate::text::lemma_line_text_end(s@, p as int, to as int);
            }
            let e = line_text_end_at(s, p, to);
            Some((classify(s, p, e), e))
        },
    }
}

/// The record of the cell whose text, after `Cell `, is `s[from..to]`.
pub fn cell(input: &str, s: &Vec<char>, from: usize, to: usize) -> (r: Option<WirelessNetwork>)
    requires
        s@ == input@,
        from <= to <= s@.len(),
    ensures
        match r {
            Some(w) => cell_at(s@, from as int, to as int) == Some(w@),
            None => cell_at(s@, from as int, to as int) is None,
        },
{
    let (address, a) = match network_address(input, s, from, to) {
        None => {
            return None;
        },
        Some(x) => x,
    };
    let (frequency, f) = match network_frequency(s, a, to) {
        None => {
            return None;
        },
        Some(x) => x,
    };
    let (quality, q) = match network_quality(s, f, to) {
        None => {
            return None;
        },
        Some(x) => x,
    };
    let (essid, e) = match network_essid(input, s, q, to) {
        None => {
            return None;
        },
        Some(x) => x,
    };
    let (security_type, _) = match network_security_type(s, e, to) {
        None => {
            return None;
        },
        Some(x) => x,
    };
    Some(WirelessNetwork { address, quality, frequency, essid, security_type })
}

/// Every well-formed cell record of the scan output `input`, in order; a cell
/// that lacks a field is left out and does not stop the scan.
pub fn parse_nw(input: &str) -> (r: Vec<WirelessNetwork>)
    ensures
        networks_view(r@) == networks_from(input@, 0),
{
    proof {
        reveal_strlit("Cell ");
    }
    let s = to_chars(input);
    let n = s.len();
    let mut r: Vec<WirelessNetwork> = Vec::new();
    let mut pos: usize = 0;
    loop
        invariant
            s@ == input@,
            n == s@.len(),
            pos <= n,
            CELL@.len() == 5,
            networks_view(r@) + networks_from(s@, pos as int) == networks_from(s@, 0),
        decreases n - pos,
    {
        proof {
            crate::text::lemma_find_bounds(s@, pos as int, n as int, CELL@);
        }
        let c = match find_anchor(&s, pos, n, CELL) {
            None => {
                assert(networks_view(r@) + networks_from(s@, pos as int) =~= networks_view(r@));
                return r;
            },
            Some(c) => c,
        };
        let body = c + 5;
        proof {
            crate::text::lemma_find_bounds(s@, body as int, n as int, CELL@);
        }
        let end = match find_anchor(&s, body, n, CELL) {
            Some(k) => k,
            None => n,
        };
        let ghost before = r@;
        match cell(input, &s, body, end) {
            Some(w) => {
                r.push(w);
                assert(networks_view(r@) =~= networks_view(before) + seq![w@]);
            },
            None => {},
        }
        assert(networks_view(r@) + networks_from(s@, body as int) =~= networks_view(before)
            + networks_from(s@, pos as int));
        pos = body;
    }
}

impl WirelessNetwork {
    /// The text by which this network is told apart from the others: `essid - (address)`.
    pub fn id(&self) -> (r: String)
        ensures
            r@ == id_of(self.essid@, self.address@),
    {
        let mut r = self.essid.clone();
        r.append(" - (");
        r.append(self.address.as_str());
        r.append(")");
        r
    }
}

/// Parsing keeps no state of its own: the same text always gives the same
/// interface records and the same network records.
pub proof fn parsing_depends_on_text_alone(a: Seq<char>, b: Seq<char>)
    requires
        a == b,
    ensures
        crate::interface::interfaces_from(a, 0) == crate::interface::interfaces_from(b, 0),
        networks_from(a, 0) == networks_from(b, 0),
{
}

pub open spec fn all_digits(t: Seq<char>) -> bool {
    forall|k: int| 0 <= k < t.len() ==> is_digit(t[k])
}

/// A quality reading `Quality=value/limit` is taken as written: both numbers
/// are kept as they stand in the text, with nothing divided or scaled.
pub proof fn quality_as_written(lead: Seq<char>, value: Seq<char>, limit: Seq<char>, tail: Seq<char>)
    requires
        !crate::text::contains(lead, QUALITY@),
        value.len() > 0,
        limit.len() > 0,
        all_digits(value),
        all_digits(limit),
        digits_value(value) <= u64::MAX,
        digits_value(limit) <= u64::MAX,
        tail.len() == 0 || !is_digit(tail[0]),
    ensures
        ({
            let s = lead + QUALITY@ + value + seq!['/'] + limit + tail;
            quality_at(s, 0, s.len() as int) == Some(
                (
                    Quality { value: digits_value(value) as u64, limit: digits_value(limit) as u64 },
                    s.len() - tail.len(),
                ),
            )
        }),
{
    reveal_strlit("Quality=");
    let s = lead + QUALITY@ + value + seq!['/'] + limit + tail;
    let len = s.len() as int;
    let q = lead.len() as int;
    let p = q + 8;
    let a = p + value.len();
    let b = a + 1 + limit.len();
    assert(s.subrange(0, q) =~= lead);
    assert(s.subrange(q, p) =~= QUALITY@);
    assert(s.subrange(p, a) =~= value);
    assert(s[a] == '/');
    assert(s.subrange(a + 1, b) =~= limit);
    assert(s.subrange(b, len) =~= tail);
    assert(forall|j: int| 0 <= j < 7 ==> #[trigger] QUALITY@[j] != QUALITY@[7]);
    crate::text::lemma_absent_in_part(s, 0, lead, QUALITY@);
    crate::text::lemma_find_is(s, 0, len, QUALITY@, q);
    assert forall|k: int| p <= k < a implies is_digit(s[k]) by {
        assert(s.subrange(p, a)[k - p] == s[k]);
    }
    crate::text::lemma_digits_end_is(s, p, len, a);
    assert forall|k: int| a + 1 <= k < b implies is_digit(s[k]) by {
        assert(s.subrange(a + 1, b)[k - a - 1] == s[k]);
    }
    if b < len {
        assert(s.subrange(b, len)[0] == s[b]);
    }
    crate::text::lemma_digits_end_is(s, a + 1, len, b);
}

/// The security line of a cell is classified as a whole: after the first
/// IEEE 802.11 label, the rest of its line gives the tag, so a line that names
/// WPA2, such as `i/WPA2 Version 1`, gives WPA2.
pub proof fn security_line_classified(lead: Seq<char>, line: Seq<char>, rest: Seq<char>)
    requires
        !crate::text::contains(lead, IEEE@),
        forall|k: int| 0 <= k < line.len() ==> line[k] != '\n',
        line.len() == 0 || line.last() != '\r',
        rest.len() == 0 || rest[0] == '\n',
    ensures
        ({
            let s = lead + IEEE@ + line + rest;
            security_at(s, 0, s.len() as int) == Some(
                (security_of(line), (lead.len() + IEEE@.len() + line.len()) as int),
            )
        }),
        crate::text::contains(line, "WPA2"@) ==> security_of(line) == SecurityType::Wpa2,
{
    reveal_strlit("IEEE 802.11");
    let s = lead + IEEE@ + line + rest;
    let len = s.len() as int;
    let i = lead.len() as int;
    let p = i + 11;
    let e = p + line.len();
    assert(s.subrange(0, i) =~= lead);
    assert(s.subrange(i, p) =~= IEEE@);
    assert(s.subrange(p, e) =~= line);
    assert(s.subrange(e, len) =~= rest);
    assert(forall|j: int| 0 < j < 11 ==> #[trigger] IEEE@[j] != IEEE@[0]);
    crate::text::lemma_absent_before_anchor(s, 0, lead, IEEE@);
    crate::text::lemma_find_is(s, 0, len, IEEE@, i);
    assert forall|k: int| p <= k < e implies s[k] != '\n' by {
        assert(s.subrange(p, e)[k - p] == s[k]);
    }
    if e < len {
        assert(s.subrange(e, len)[0] == s[e]);
    }
    if line.len() > 0 {
        assert(s.subrange(p, e)[line.len() - 1] == s[e - 1]);
    }
    crate::text::lemma_line_end_is(s, p, len, e);
    crate::security::security_type_priority(line);
}

} // verus!
