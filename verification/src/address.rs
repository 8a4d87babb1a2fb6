//! IP addresses and socket endpoints, as plain values, and the text form of
//! an IP address.

use crate::text::{append_numeral_list, numeral_list};
use vstd::prelude::*;
use vstd::string::*;

verus! {

/// An IP address of either family, held by its numeric parts.
#[derive(Clone, Copy, Debug, PartialEq, Eq, Hash, Structural)]
pub enum IpAddress {
    /// An IPv4 address: its four octets, the first one first.
    V4(u8, u8, u8, u8),
    /// An IPv6 address: its eight 16-bit segments, the first one first.
    V6(u16, u16, u16, u16, u16, u16, u16, u16),
}

/// A socket endpoint: one IP address and one port on it.
#[derive(Clone, Copy, Debug, PartialEq, Eq, Hash, Structural)]
pub struct SocketEndpoint {
    pub ip_addr: IpAddress,
    pub port: u16,
}

impl SocketEndpoint {
    /// The endpoint at `port` of `ip_addr`.
    pub fn new(ip_addr: IpAddress, port: u16) -> (endpoint: SocketEndpoint)
        ensures
            endpoint == (SocketEndpoint { ip_addr, port }),
    {
        SocketEndpoint { ip_addr, port }
    }

    /// The address of the endpoint.
    pub fn ip(&self) -> (ip_addr: IpAddress)
        ensures
            ip_addr == self.ip_addr,
    {
        self.ip_addr
    }

    /// The port of the endpoint.
    pub fn port(&self) -> (port: u16)
        ensures
            port == self.port,
    {
        self.port
    }
}

/// The dotted form of an IPv4 address: its octets in decimal, with a dot
/// between each two.
pub open spec fn ipv4_text(octets: Seq<u16>) -> Seq<char> {
    numeral_list(octets, 10, "."@)
}

/// Whether the `len` segments from `start` on are all zero.
pub open spec fn is_zero_run(segments: Seq<u16>, start: int, len: int) -> bool {
    &&& 0 <= start
    &&& 0 <= len
    &&& start + len <= segments.len()
    &&& forall|k: int| start <= k < start + len ==> segments[k] == 0
}

/// Whether the `len` segments from `start` on are the longest run of zero
/// segments, and the first one of that length.
pub open spec fn is_longest_zero_run(segments: Seq<u16>, start: int, len: int) -> bool {
    &&& is_zero_run(segments, start, len)
    &&& forall|s: int, l: int| #[trigger] is_zero_run(segments, s, l) ==> l <= len
    &&& forall|s: int| s < start ==> !#[trigger] is_zero_run(segments, s, len)
}

/// Start and length of the first longest run of zero segments.
pub open spec fn longest_zero_run(segments: Seq<u16>) -> (int, int) {
    choose|start: int, len: int| is_longest_zero_run(segments, start, len)
}

/// Whether the segments are those of an IPv4 address mapped into IPv6: five
/// zero segments, then one of all ones.
pub open spec fn is_v4_mapped(segments: Seq<u16>) -> bool {
    &&& segments.len() == 8
    &&& is_zero_run(segments, 0, 5)
    &&& segments[5] == 0xffff
}

/// The text form of an IPv6 address. Its segments stand in hexadecimal with
/// a colon between each two, and the first longest run of two or more zero
/// segments is left out, with `::` in its place. A mapped IPv4 address stands
/// in dotted form behind `::ffff:`.
pub open spec fn ipv6_text(segments: Seq<u16>) -> Seq<char>
    recommends
        segments.len() == 8,
{
    if is_v4_mapped(segments) {
        "::ffff:"@ + ipv4_text(
            seq![segments[6] / 256, segments[6] % 256, segments[7] / 256, segments[7] % 256],
        )
    } else {
        let (start, len) = longest_zero_run(segments);
        if len >= 2 {
            numeral_list(segments.take(start), 16, ":"@) + "::"@ + numeral_list(
                segments.skip(start + len),
                16,
                ":"@,
            )
        } else {
            numeral_list(segments, 16, ":"@)
        }
    }
}

/// Every sequence of segments has a first longest run of zero segments.
pub proof fn lemma_longest_zero_run(segments: Seq<u16>)
    ensures
        is_longest_zero_run(
            segments,
            longest_zero_run(segments).0,
            longest_zero_run(segments).1,
        ),
    decreases segments.len(),
{
    let n = segments.len() as int;
    if n == 0 {
        assert(is_longest_zero_run(segments, 0, 0));
    } else {
        // A run of `segments` is a run of all but the last segment, or it
        // ends with the last segment. So the run that is sought is the one
        // of the segments before the last, unless the zero segments at the
        // end are more.
        let front = segments.drop_last();
        lemma_longest_zero_run(front);
        lemma_trailing_zeros(segments);
        let (start, len) = longest_zero_run(front);
        let at_end = trailing_zeros(segments);
        assert forall|s: int, l: int| #[trigger]
            is_zero_run(segments, s, l) && s + l < n implies is_zero_run(front, s, l) by {
            assert forall|k: int| s <= k < s + l implies front[k] == 0 by {
                assert(segments[k] == 0);
            }
        }
        assert(is_zero_run(segments, start, len)) by {
            assert forall|k: int| start <= k < start + len implies segments[k] == 0 by {
                assert(front[k] == 0);
            }
        }
        if at_end > len {
            assert(is_longest_zero_run(segments, n - at_end, at_end));
        } else {
            assert(is_zero_run(front, 0, 0));
            assert(is_longest_zero_run(segments, start, len));
        }
    }
}

/// The number of zero segments at the end of `segments`.
spec fn trailing_zeros(segments: Seq<u16>) -> int
    decreases segments.len(),
{
    if segments.len() > 0 && segments.last() == 0 {
        trailing_zeros(segments.drop_last()) + 1
    } else {
        0
    }
}

/// The zero segments at the end are a run, and the longest one that ends
/// there.
proof fn lemma_trailing_zeros(segments: Seq<u16>)
    ensures
        is_zero_run(
            segments,
            segments.len() - trailing_zeros(segments),
            trailing_zeros(segments),
        ),
        forall|s: int, l: int|
            #[trigger] is_zero_run(segments, s, l) && s + l == segments.len() ==> l
                <= trailing_zeros(segments),
    decreases segments.len(),
{
    let n = segments.len() as int;
    if n > 0 && segments.last() == 0 {
        let front = segments.drop_last();
        lemma_trailing_zeros(front);
        assert forall|k: int| n - trailing_zeros(segments) <= k < n implies segments[k] == 0 by {
            if k < n - 1 {
                assert(front[k] == 0);
            }
        }
        assert forall|s: int, l: int|
            #[trigger] is_zero_run(segments, s, l) && s + l == n implies l <= trailing_zeros(
            segments,
        ) by {
            if l > 0 {
                assert forall|k: int| s <= k < s + (l - 1) implies front[k] == 0 by {
                    assert(segments[k] == 0);
                }
                assert(is_zero_run(front, s, l - 1));
            }
        }
    }
}

/// Finds the first longest run of zero segments.
fn find_longest_zero_run(segments: &Vec<u16>) -> (run: (usize, usize))
    ensures
        (run.0 as int, run.1 as int) == longest_zero_run(segments@),
        is_longest_zero_run(segments@, run.0 as int, run.1 as int),
{
    let mut best_start: usize = 0;
    let mut best_len: usize = 0;
    let mut start: usize = 0;
    while start < segments.len()
        invariant
            start <= segments.len(),
            best_start <= start,
            is_zero_run(segments@, best_start as int, best_len as int),
            forall|s: int, l: int|
                s < start && #[trigger] is_zero_run(segments@, s, l) ==> l <= best_len,
            forall|s: int, l: int|
                s < best_start && #[trigger] is_zero_run(segments@, s, l) ==> l < best_len,
        decreases segments.len() - start,
    {
        let mut len: usize = 0;
        while start + len < segments.len() && segments[start + len] == 0
            invariant
                start + len <= segments.len(),
                is_zero_run(segments@, start as int, len as int),
            decreases segments.len() - start - len,
        {
            len += 1;
        }
        proof {
            // The run found ends at a segment that is not zero, or at the
            // end: no run that starts within it reaches beyond it.
            assert forall|s: int, l: int|
                start <= s <= start + len && #[trigger] is_zero_run(segments@, s, l) implies s + l
                <= start + len by {
                if s + l > start + len {
                    assert(segments[start + len] == 0);
                }
            }
        }
        if len > best_len {
            best_start = start;
            best_len = len;
        }
        start = start + len;
        if start < segments.len() {
            start = start + 1;
        }
    }
    proof {
        lemma_longest_zero_run(segments@);
    }
    (best_start, best_len)
}

impl IpAddress {
    /// The text form of the address.
    pub open spec fn text(self) -> Seq<char> {
        match self {
            IpAddress::V4(a, b, c, d) => ipv4_text(seq![a as u16, b as u16, c as u16, d as u16]),
            IpAddress::V6(a, b, c, d, e, f, g, h) => ipv6_text(seq![a, b, c, d, e, f, g, h]),
        }
    }

    /// Appends the text form of the address to `text`.
    pub fn append_to(&self, text: &mut String)
        ensures
            final(text)@ == old(text)@ + self.text(),
    {
        match *self {
            IpAddress::V4(a, b, c, d) => {
                let octets: Vec<u16> = vec![a as u16, b as u16, c as u16, d as u16];
                assert(octets@.subrange(0, 4) =~= octets@);
                append_numeral_list(text, &octets, 0, 4, 10, ".");
            },
            IpAddress::V6(a, b, c, d, e, f, g, h) => {
                let segments: Vec<u16> = vec![a, b, c, d, e, f, g, h];
                if a == 0 && b == 0 && c == 0 && d == 0 && e == 0 && f == 0xffff {
                    let octets: Vec<u16> = vec![g / 256, g % 256, h / 256, h % 256];
                    assert(octets@.subrange(0, 4) =~= octets@);
                    text.append("::ffff:");
                    append_numeral_list(text, &octets, 0, 4, 10, ".");
                } else {
                    assert(!is_v4_mapped(segments@)) by {
                        if is_zero_run(segments@, 0, 5) {
                            assert(segments[0] == 0 && segments[1] == 0 && segments[2] == 0
                                && segments[3] == 0 && segments[4] == 0);
                        }
                    }
                    let (start, len) = find_longest_zero_run(&segments);
                    if len >= 2 {
                        append_numeral_list(text, &segments, 0, start, 16, ":");
                        text.append("::");
                        append_numeral_list(text, &segments, start + len, 8, 16, ":");
                    } else {
                        assert(segments@.subrange(0, 8) =~= segments@);
                        append_numeral_list(text, &segments, 0, 8, 16, ":");
                    }
                }
            },
        }
    }

    /// The text form of the address, as a string.
    pub fn to_text(&self) -> (text: String)
        ensures
            text@ == self.text(),
    {
        let mut text = String::new();
        self.append_to(&mut text);
        text
    }
}

} // verus!
