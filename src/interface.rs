//! Interface records scraped from the output of the interface-listing tool.
use crate::text::{
    contains, find, find_anchor, lemma_absent_in_part, lemma_not_at_line_feed, line_end,
    line_end_at, occurs_at, to_chars,
};
use vstd::prelude::*;
use vstd::string::*;

verus! {

/// Marks the line that names an interface.
pub const INTERFACE: &'static str = "Interface ";

/// Marks the line that names the network an interface is associated with.
pub const SSID: &'static str = "ssid ";

/// One radio device.
#[derive(Debug, Clone, PartialEq, Eq)]
pub struct WirelessInterface {
    pub name: String,
    pub connected_ssid: Option<String>,
}

pub struct InterfaceView {
    pub name: Seq<char>,
    pub connected_ssid: Option<Seq<char>>,
}

impl View for WirelessInterface {
    type V = InterfaceView;

    open spec fn view(&self) -> InterfaceView {
        InterfaceView {
            name: self.name@,
            connected_ssid: match self.connected_ssid {
                Some(c) => Some(c@),
                None => None,
            },
        }
    }
}

pub open spec fn interfaces_view(v: Seq<WirelessInterface>) -> Seq<InterfaceView> {
    v.map_values(|w: WirelessInterface| w@)
}

/// The first interface record that starts at or after `pos`, with the position
/// where the scan goes on: the name is the rest of the anchor's line; the
/// associated network is the rest of the first `ssid ` line that starts before
/// the next interface anchor, if there is one.
pub open spec fn interface_at(s: Seq<char>, pos: int) -> Option<(InterfaceView, int)> {
    match find(s, pos, s.len() as int, INTERFACE@) {
        None => None,
        Some(i) => {
            let name_start = i + INTERFACE@.len();
            let name_end = line_end(s, name_start, s.len() as int);
            let name = s.subrange(name_start, name_end);
            let bound = match find(s, name_end, s.len() as int, INTERFACE@) {
                Some(k) => k,
                None => s.len() as int,
            };
            match find(s, name_end, bound, SSID@) {
                None => Some((InterfaceView { name, connected_ssid: None }, name_end)),
                Some(j) => {
                    let ssid_start = j + SSID@.len();
                    let ssid_end = line_end(s, ssid_start, s.len() as int);
                    Some(
                        (
                            InterfaceView {
                                name,
                                connected_ssid: Some(s.subrange(ssid_start, ssid_end)),
                            },
                            ssid_end,
                        ),
                    )
                },
            }
        },
    }
}

/// The interface records of `s` from `pos` on, in the order of their anchors.
pub open spec fn interfaces_from(s: Seq<char>, pos: int) -> Seq<InterfaceView>
    decreases s.len() - pos,
{
    match interface_at(s, pos) {
        None => seq![],
        // The scan only moves forward (`lemma_interface_at_bounds`); the test
        // makes that plain to the termination check.
        Some((rec, next)) => if pos < next <= s.len() {
            seq![rec] + interfaces_from(s, next)
        } else {
            seq![rec]
        },
    }
}

pub proof fn lemma_interface_at_bounds(s: Seq<char>, pos: int)
    requires
        0 <= pos <= s.len(),
    ensures
        interface_at(s, pos) matches Some((rec, next)) ==> pos < next <= s.len(),
{
    reveal_strlit("Interface ");
    reveal_strlit("ssid ");
    crate::text::lemma_find_bounds(s, pos, s.len() as int, INTERFACE@);
    if let Some(i) = find(s, pos, s.len() as int, INTERFACE@) {
        let name_start = i + INTERFACE@.len();
        crate::text::lemma_line_end(s, name_start, s.len() as int);
        let name_end = line_end(s, name_start, s.len() as int);
        crate::text::lemma_find_bounds(s, name_end, s.len() as int, INTERFACE@);
        let bound = match find(s, name_end, s.len() as int, INTERFACE@) {
            Some(k) => k,
            None => s.len() as int,
        };
        crate::text::lemma_find_bounds(s, name_end, bound, SSID@);
        if let Some(j) = find(s, name_end, bound, SSID@) {
            crate::text::lemma_line_end(s, j + SSID@.len(), s.len() as int);
        }
    }
}

/// The first interface record at or after `pos`, and where the scan goes on.
pub fn interface(input: &str, s: &Vec<char>, pos: usize) -> (r: Option<(WirelessInterface, usize)>)
    requires
        s@ == input@,
        pos <= s@.len(),
    ensures
        match r {
            Some((w, next)) => interface_at(s@, pos as int) == Some((w@, next as int)),
            None => interface_at(s@, pos as int) is None,
        },
{
    proof {
        reveal_strlit("Interface ");
        reveal_strlit("ssid ");
    }
    let n = s.len();
    let i = match find_anchor(s, pos, n, INTERFACE) {
        Some(i) => i,
        None => {
            return None;
        },
    };
    proof {
        crate::text::lemma_find_bounds(s@, pos as int, n as int, INTERFACE@);
    }
    let name_start = i + 10;
    let name_end = line_end_at(s, name_start, n);
    proof {
        crate::text::lemma_line_end(s@, name_start as int, n as int);
    }
    let name = input.substring_char(name_start, name_end).to_owned();
    let bound = match find_anchor(s, name_end, n, INTERFACE) {
        Some(k) => k,
        None => n,
    };
    proof {
        crate::text::lemma_find_bounds(s@, name_end as int, n as int, INTERFACE@);
    }
    match find_anchor(s, name_end, bound, SSID) {
        None => Some((WirelessInterface { name, connected_ssid: None }, name_end)),
        Some(j) => {
            proof {
                crate::text::lemma_find_bounds(s@, name_end as int, bound as int, SSID@);
            }
            let ssid_start = j + 5;
            let ssid_end = line_end_at(s, ssid_start, n);
            proof {
                crate::text::lemma_line_end(s@, ssid_start as int, n as int);
            }
            let ssid = input.substring_char(ssid_start, ssid_end).to_owned();
            Some((WirelessInterface { name, connected_ssid: Some(ssid) }, ssid_end))
        },
    }
}

/// Every interface record of the listing `input`, in order; text between
/// records that holds no anchor is skipped.
pub fn parse_iw(input: &str) -> (r: Vec<WirelessInterface>)
    ensures
        interfaces_view(r@) == interfaces_from(input@, 0),
{
    let s = to_chars(input);
    let n = s.len();
    let mut r: Vec<WirelessInterface> = Vec::new();
    let mut pos: usize = 0;
    loop
        invariant
            s@ == input@,
            n == s@.len(),
            pos <= n,
            interfaces_view(r@) + interfaces_from(s@, pos as int) == interfaces_from(s@, 0),
        decreases n - pos,
    {
        proof {
            lemma_interface_at_bounds(s@, pos as int);
        }
        match interface(input, &s, pos) {
            None => {
                assert(interfaces_view(r@) + interfaces_from(s@, pos as int) =~= interfaces_view(
                    r@,
                ));
                return r;
            },
            Some((w, next)) => {
                let ghost before = r@;
                r.push(w);
                assert(interfaces_view(r@) =~= interfaces_view(before) + seq![w@]);
                assert(interfaces_view(r@) + interfaces_from(s@, next as int) =~= interfaces_view(
                    before,
                ) + interfaces_from(s@, pos as int));
                pos = next;
            },
        }
    }
}

/// The network that the interface described by `output` is associated with:
/// the first interface record's; nothing when `output` holds no interface record.
pub fn connected_ssid(output: &str) -> (r: Option<Option<String>>)
    ensures
        r is None <==> interfaces_from(output@, 0).len() == 0,
        r matches Some(c) ==> interfaces_from(output@, 0)[0].connected_ssid == (match c {
            Some(x) => Some(x@),
            None => None,
        }),
{
    let s = to_chars(output);
    proof {
        lemma_interface_at_bounds(s@, 0);
    }
    match interface(output, &s, 0) {
        None => None,
        Some((w, _)) => Some(w.connected_ssid),
    }
}

pub open spec fn one_line(t: Seq<char>) -> bool {
    forall|k: int| 0 <= k < t.len() ==> t[k] != '\n'
}

/// The two anchors begin with a letter and no other character of theirs is the
/// space that ends them.
proof fn lemma_anchor_shapes()
    ensures
        INTERFACE@.len() == 10,
        SSID@.len() == 5,
        INTERFACE@[0] == 'I',
        SSID@[0] == 's',
        SSID@[4] == ' ',
        forall|j: int| 0 <= j < 9 ==> #[trigger] INTERFACE@[j] != INTERFACE@[9],
        forall|j: int| 0 <= j < 4 ==> #[trigger] SSID@[j] != SSID@[4],
{
    reveal_strlit("Interface ");
    reveal_strlit("ssid ");
}

proof fn lemma_no_more_interfaces(s: Seq<char>, from: int)
    requires
        0 <= from <= s.len(),
        forall|k: int| from <= k && occurs_at(s, k, INTERFACE@) ==> false,
    ensures
        interfaces_from(s, from) == Seq::<InterfaceView>::empty(),
{
    reveal_strlit("Interface ");
    crate::text::lemma_find_none(s, from, s.len() as int, INTERFACE@);
}

/// A text in which the interface anchor never stands holds no interface record.
pub proof fn no_anchor_no_interfaces(s: Seq<char>)
    requires
        forall|k: int| !occurs_at(s, k, INTERFACE@),
    ensures
        interfaces_from(s, 0) == Seq::<InterfaceView>::empty(),
{
    lemma_no_more_interfaces(s, 0);
}

/// A single well-formed interface block, `Interface name` and then, before
/// any other interface anchor, an `ssid` line, gives exactly one record: that
/// name, associated with that network.
pub proof fn single_interface_block(
    lead: Seq<char>,
    name: Seq<char>,
    middle: Seq<char>,
    ssid: Seq<char>,
    tail: Seq<char>,
)
    requires
        !contains(lead, INTERFACE@),
        !contains(middle + SSID@ + ssid + seq!['\n'] + tail, INTERFACE@),
        !contains(middle, SSID@),
        one_line(name),
        one_line(ssid),
    ensures
        interfaces_from(
            lead + INTERFACE@ + name + seq!['\n'] + middle + SSID@ + ssid + seq!['\n'] + tail,
            0,
        ) == seq![InterfaceView { name, connected_ssid: Some(ssid) }],
{
    lemma_anchor_shapes();
    let rest = middle + SSID@ + ssid + seq!['\n'] + tail;
    let s = lead + INTERFACE@ + name + seq!['\n'] + middle + SSID@ + ssid + seq!['\n'] + tail;
    let len = s.len() as int;
    let i = lead.len() as int;
    let ns = i + 10;
    let nl = ns + name.len();
    let ms = nl + 1;
    let j = ms + middle.len();
    let ss = j + 5;
    let se = ss + ssid.len();
    assert(s.subrange(0, i) =~= lead);
    assert(s.subrange(i, ns) =~= INTERFACE@);
    assert(s.subrange(ns, nl) =~= name);
    assert(s[nl] == '\n');
    assert(s.subrange(ms, len) =~= rest);
    assert(s.subrange(ms, j) =~= middle);
    assert(s.subrange(j, ss) =~= SSID@);
    assert(s.subrange(ss, se) =~= ssid);
    assert(s[se] == '\n');
    lemma_absent_in_part(s, 0, lead, INTERFACE@);
    crate::text::lemma_find_is(s, 0, len, INTERFACE@, i);
    assert forall|k: int| ns <= k < nl implies s[k] != '\n' by {
        assert(s.subrange(ns, nl)[k - ns] == s[k]);
    }
    crate::text::lemma_line_end_is(s, ns, len, nl);
    lemma_absent_in_part(s, ms, rest, INTERFACE@);
    lemma_not_at_line_feed(s, nl, INTERFACE@);
    crate::text::lemma_find_none(s, nl, len, INTERFACE@);
    lemma_absent_in_part(s, ms, middle, SSID@);
    lemma_not_at_line_feed(s, nl, SSID@);
    crate::text::lemma_find_is(s, nl, len, SSID@, j);
    assert forall|k: int| ss <= k < se implies s[k] != '\n' by {
        assert(s.subrange(ss, se)[k - ss] == s[k]);
    }
    crate::text::lemma_line_end_is(s, ss, len, se);
    assert(interface_at(s, 0) == Some(
        (InterfaceView { name, connected_ssid: Some(ssid) }, se),
    ));
    lemma_no_more_interfaces(s, se);
    assert(interfaces_from(s, 0) =~= seq![InterfaceView { name, connected_ssid: Some(ssid) }]);
}

/// Two anchor lines, at `i1` and `i2`, with no anchor before, between or after
/// them, give two records named by those lines, in that order.
proof fn lemma_two_records(s: Seq<char>, i1: int, nl1: int, i2: int, nl2: int)
    requires
        0 <= i1,
        i1 + 10 <= nl1 < i2,
        i2 + 10 <= nl2 < s.len(),
        occurs_at(s, i1, INTERFACE@),
        occurs_at(s, i2, INTERFACE@),
        s[nl1] == '\n',
        s[nl2] == '\n',
        i2 == nl1 + 1 || s[i2 - 1] == '\n',
        forall|k: int| i1 + 10 <= k < nl1 ==> s[k] != '\n',
        forall|k: int| i2 + 10 <= k < nl2 ==> s[k] != '\n',
        forall|k: int| 0 <= k < i1 ==> !occurs_at(s, k, INTERFACE@),
        forall|k: int| nl1 <= k < i2 ==> !occurs_at(s, k, INTERFACE@),
        forall|k: int| nl2 <= k ==> !occurs_at(s, k, INTERFACE@),
    ensures
        interfaces_from(s, 0).len() == 2,
        interfaces_from(s, 0)[0].name == s.subrange(i1 + 10, nl1),
        interfaces_from(s, 0)[1].name == s.subrange(i2 + 10, nl2),
{
    lemma_anchor_shapes();
    let len = s.len() as int;
    crate::text::lemma_find_is(s, 0, len, INTERFACE@, i1);
    crate::text::lemma_line_end_is(s, i1 + 10, len, nl1);
    crate::text::lemma_find_is(s, nl1, len, INTERFACE@, i2);
    lemma_interface_at_bounds(s, 0);
    let (r1, next1) = interface_at(s, 0)->0;
    assert(nl1 <= next1 <= i2) by {
        crate::text::lemma_find_bounds(s, nl1, i2, SSID@);
        if let Some(j) = find(s, nl1, i2, SSID@) {
            assert(s.subrange(j, j + 5)[4] == s[j + 4]);
            crate::text::lemma_line_end(s, j + 5, len);
        }
    }
    crate::text::lemma_find_is(s, next1, len, INTERFACE@, i2);
    crate::text::lemma_line_end_is(s, i2 + 10, len, nl2);
    lemma_interface_at_bounds(s, next1);
    let (r2, next2) = interface_at(s, next1)->0;
    assert(next2 >= nl2) by {
        crate::text::lemma_find_bounds(s, nl2, len, INTERFACE@);
        let bound = match find(s, nl2, len, INTERFACE@) {
            Some(k) => k,
            None => len,
        };
        crate::text::lemma_find_bounds(s, nl2, bound, SSID@);
        if let Some(j) = find(s, nl2, bound, SSID@) {
            crate::text::lemma_line_end(s, j + 5, len);
        }
    }
    lemma_no_more_interfaces(s, next2);
    assert(interfaces_from(s, next1) =~= seq![r2]);
    assert(interfaces_from(s, 0) =~= seq![r1, r2]);
}

/// Two interface blocks one after the other give two records, named in the
/// order in which the blocks stand, whether or not either has an `ssid` line.
/// The text between the two anchor lines, when there is any, ends with a line
/// feed, so that no `ssid` line runs into the second anchor.
pub proof fn two_interface_blocks(
    lead: Seq<char>,
    first: Seq<char>,
    between: Seq<char>,
    second: Seq<char>,
    tail: Seq<char>,
)
    requires
        !contains(lead, INTERFACE@),
        !contains(between, INTERFACE@),
        !contains(tail, INTERFACE@),
        one_line(first),
        one_line(second),
        between.len() == 0 || between.last() == '\n',
    ensures
        ({
            let r = interfaces_from(
                lead + INTERFACE@ + first + seq!['\n'] + between + INTERFACE@ + second + seq![
                    '\n',
                ] + tail,
                0,
            );
            r.len() == 2 && r[0].name == first && r[1].name == second
        }),
{
    lemma_anchor_shapes();
    let s = lead + INTERFACE@ + first + seq!['\n'] + between + INTERFACE@ + second + seq!['\n']
        + tail;
    let len = s.len() as int;
    let i1 = lead.len() as int;
    let nl1 = i1 + 10 + first.len();
    let bs = nl1 + 1;
    let i2 = bs + between.len();
    let nl2 = i2 + 10 + second.len();
    let ts = nl2 + 1;
    assert(s.subrange(0, i1) =~= lead);
    assert(s.subrange(i1, i1 + 10) =~= INTERFACE@);
    assert(s.subrange(i1 + 10, nl1) =~= first);
    assert(s[nl1] == '\n');
    assert(s.subrange(bs, i2) =~= between);
    assert(s.subrange(i2, i2 + 10) =~= INTERFACE@);
    assert(s.subrange(i2 + 10, nl2) =~= second);
    assert(s[nl2] == '\n');
    assert(s.subrange(ts, len) =~= tail);
    assert(i2 == nl1 + 1 || s[i2 - 1] == '\n') by {
        if between.len() > 0 {
            assert(s.subrange(bs, i2)[between.len() - 1] == s[i2 - 1]);
        }
    }
    assert forall|k: int| i1 + 10 <= k < nl1 implies s[k] != '\n' by {
        assert(s.subrange(i1 + 10, nl1)[k - i1 - 10] == s[k]);
    }
    assert forall|k: int| i2 + 10 <= k < nl2 implies s[k] != '\n' by {
        assert(s.subrange(i2 + 10, nl2)[k - i2 - 10] == s[k]);
    }
    lemma_absent_in_part(s, 0, lead, INTERFACE@);
    lemma_absent_in_part(s, bs, between, INTERFACE@);
    lemma_absent_in_part(s, ts, tail, INTERFACE@);
    lemma_not_at_line_feed(s, nl1, INTERFACE@);
    lemma_not_at_line_feed(s, nl2, INTERFACE@);
    lemma_two_records(s, i1, nl1, i2, nl2);
}

} // verus!
