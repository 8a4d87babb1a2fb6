//! Port lists and their normal form.
//!
//! A port list is in normal form when its ports stand in strictly ascending
//! order. Every list has exactly one normal form with the same ports, so two
//! lists name the same set of ports exactly when their normal forms are equal.

use vstd::prelude::*;

verus! {

/// Whether the ports of `s` stand in strictly ascending order, which also
/// means that none of them occurs twice.
pub open spec fn is_ascending(s: Seq<u16>) -> bool {
    forall|i: int, j: int| 0 <= i < j < s.len() ==> s[i] < s[j]
}

/// The ascending list of the ports in `ports`.
pub open spec fn ascending_list(ports: Set<u16>) -> Seq<u16> {
    choose|s: Seq<u16>| is_ascending(s) && s.to_set() == ports
}

/// The normal form of `raw`: its ports in ascending order, each one once.
pub open spec fn normalized(raw: Seq<u16>) -> Seq<u16> {
    ascending_list(raw.to_set())
}

/// Brings a port list into normal form: the result holds the ports of `raw`
/// in ascending order, each one once.
pub fn normalize(raw: &Vec<u16>) -> (out: Vec<u16>)
    ensures
        out@ == normalized(raw@),
        is_ascending(out@),
        out@.no_duplicates(),
        out@.to_set() == raw@.to_set(),
{
    let out = normalize_range(raw, 0, raw.len());
    proof {
        assert(raw@.subrange(0, raw.len() as int) =~= raw@);
        lemma_normalized_is(raw@, out@);
        lemma_ascending_no_duplicates(out@);
    }
    out
}

/// The normal form of the ports `raw[lo..hi]`, by merging the normal forms
/// of the two halves.
fn normalize_range(raw: &Vec<u16>, lo: usize, hi: usize) -> (out: Vec<u16>)
    requires
        lo <= hi <= raw.len(),
    ensures
        is_ascending(out@),
        out@.to_set() == raw@.subrange(lo as int, hi as int).to_set(),
    decreases hi - lo,
{
    let ghost part = raw@.subrange(lo as int, hi as int);
    if hi - lo < 2 {
        let mut out: Vec<u16> = Vec::new();
        if lo < hi {
            out.push(raw[lo]);
        }
        assert(out@ =~= part);
        out
    } else {
        let mid: usize = lo + (hi - lo) / 2;
        let left = normalize_range(raw, lo, mid);
        let right = normalize_range(raw, mid, hi);
        proof {
            let l = raw@.subrange(lo as int, mid as int);
            let r = raw@.subrange(mid as int, hi as int);
            assert(part =~= l + r);
            lemma_concat_ports(l, r);
        }
        merge(&left, &right)
    }
}

/// Merges two ascending lists into the ascending list of the ports of both.
fn merge(a: &Vec<u16>, b: &Vec<u16>) -> (out: Vec<u16>)
    requires
        is_ascending(a@),
        is_ascending(b@),
    ensures
        is_ascending(out@),
        out@.to_set() == a@.to_set().union(b@.to_set()),
{
    let mut out: Vec<u16> = Vec::new();
    let mut i: usize = 0;
    let mut j: usize = 0;
    while i < a.len() || j < b.len()
        invariant
            i <= a.len(),
            j <= b.len(),
            is_ascending(a@),
            is_ascending(b@),
            is_ascending(out@),
            forall|k: int| 0 <= k < out.len() && i < a.len() ==> out[k] < a[i as int],
            forall|k: int| 0 <= k < out.len() && j < b.len() ==> out[k] < b[j as int],
            out@.to_set() == a@.take(i as int).to_set().union(b@.take(j as int).to_set()),
        decreases a.len() - i + b.len() - j,
    {
        let ghost before = out@;
        let from_a: bool = j == b.len() || (i < a.len() && a[i] <= b[j]);
        let from_b: bool = i == a.len() || (j < b.len() && b[j] <= a[i]);
        let port: u16 = if from_a { a[i] } else { b[j] };
        out.push(port);
        proof {
            before.lemma_push_to_set_commute(port);
            if from_a {
                lemma_take_next_ports(a@, i as int);
            }
            if from_b {
                lemma_take_next_ports(b@, j as int);
            }
        }
        if from_a {
            i += 1;
        }
        if from_b {
            j += 1;
        }
        assert(out@.to_set() =~= a@.take(i as int).to_set().union(b@.take(j as int).to_set()));
    }
    proof {
        assert(a@.take(i as int) =~= a@);
        assert(b@.take(j as int) =~= b@);
    }
    out
}

/// Every port list has a normal form: `normalized(raw)` is ascending and
/// holds exactly the ports of `raw`.
pub proof fn lemma_normalized(raw: Seq<u16>)
    ensures
        is_ascending(normalized(raw)),
        normalized(raw).to_set() == raw.to_set(),
    decreases raw.len(),
{
    if raw.len() == 0 {
        assert(is_ascending(raw));
    } else {
        // The normal form of all but the last port, with the last port put
        // at its place, is a normal form of the whole list.
        let front = raw.drop_last();
        lemma_normalized(front);
        lemma_with_port(normalized(front), raw.last());
        front.lemma_push_to_set_commute(raw.last());
        assert(raw =~= front.push(raw.last()));
        let whole = with_port(normalized(front), raw.last());
        assert(is_ascending(whole) && whole.to_set() == raw.to_set());
    }
}

/// The normal form is the only ascending list with the ports of `raw`.
pub proof fn lemma_normalized_is(raw: Seq<u16>, s: Seq<u16>)
    requires
        is_ascending(s),
        s.to_set() == raw.to_set(),
    ensures
        s == normalized(raw),
{
    lemma_normalized(raw);
    lemma_ascending_unique(s, normalized(raw));
}

/// An ascending list is determined by the ports it holds.
pub proof fn lemma_ascending_unique(a: Seq<u16>, b: Seq<u16>)
    requires
        is_ascending(a),
        is_ascending(b),
        a.to_set() == b.to_set(),
    ensures
        a == b,
    decreases a.len(),
{
    if a.len() == 0 || b.len() == 0 {
        // A list with a port in it cannot have the ports of an empty one.
        if a.len() > 0 {
            assert(a.to_set().contains(a[0]));
        }
        if b.len() > 0 {
            assert(b.to_set().contains(b[0]));
        }
        assert(a =~= b);
    } else {
        // The last port of either list is the greatest port of both, and
        // what stands before it are the other ports, in ascending order.
        lemma_ascending_front(a);
        lemma_ascending_front(b);
        assert(a.to_set().contains(a.last()));
        assert(b.to_set().contains(b.last()));
        assert(a.last() == b.last());
        lemma_ascending_unique(a.drop_last(), b.drop_last());
        assert(a =~= a.drop_last().push(a.last()));
        assert(b =~= b.drop_last().push(b.last()));
    }
}

/// No port occurs twice in an ascending list.
pub proof fn lemma_ascending_no_duplicates(s: Seq<u16>)
    requires
        is_ascending(s),
    ensures
        s.no_duplicates(),
{
    assert forall|i: int, j: int| 0 <= i < s.len() && 0 <= j < s.len() && i != j implies s[i]
        != s[j] by {
        assert(i < j || j < i);
    }
}

/// Order and repeats do not matter: lists with the same ports have the same
/// normal form.
pub proof fn lemma_normalized_same_ports(a: Seq<u16>, b: Seq<u16>)
    requires
        a.to_set() == b.to_set(),
    ensures
        normalized(a) == normalized(b),
{
}

/// Lists that are permutations of each other have the same normal form.
pub proof fn lemma_normalized_permutation(a: Seq<u16>, b: Seq<u16>)
    requires
        a.to_multiset() == b.to_multiset(),
    ensures
        normalized(a) == normalized(b),
{
    assert forall|p: u16| a.contains(p) <==> b.contains(p) by {
        vstd::seq_lib::to_multiset_contains(a, p);
        vstd::seq_lib::to_multiset_contains(b, p);
    }
    assert(a.to_set() =~= b.to_set());
}

/// Normalizing is idempotent: an ascending list is its own normal form.
pub proof fn lemma_normalized_of_ascending(s: Seq<u16>)
    requires
        is_ascending(s),
    ensures
        normalized(s) == s,
{
    lemma_normalized_is(s, s);
}

/// In an ascending list the last port is the greatest, and the ports before
/// it are an ascending list of all the others.
proof fn lemma_ascending_front(s: Seq<u16>)
    requires
        is_ascending(s),
        s.len() > 0,
    ensures
        is_ascending(s.drop_last()),
        s.drop_last().to_set() == s.to_set().remove(s.last()),
        forall|p: u16| s.to_set().contains(p) ==> p <= s.last(),
{
    let front = s.drop_last();
    assert(s =~= front.push(s.last()));
    assert forall|p: u16| front.contains(p) <==> s.contains(p) && p != s.last() by {
        vstd::seq_lib::lemma_seq_contains_after_push(front, s.last(), p);
        if front.contains(p) {
            let i = front.lemma_contains_to_index(p);
            assert(s[i] < s[s.len() - 1]);
        }
    }
    assert(front.to_set() =~= s.to_set().remove(s.last()));
}

/// An ascending list stays ascending when a port greater than all of its
/// ports is put behind it.
proof fn lemma_ascending_push(s: Seq<u16>, p: u16)
    requires
        is_ascending(s),
        forall|q: u16| s.to_set().contains(q) ==> q < p,
    ensures
        is_ascending(s.push(p)),
{
    assert forall|i: int, j: int| 0 <= i < j < s.push(p).len() implies s.push(p)[i] < s.push(
        p,
    )[j] by {
        assert(s.to_set().contains(s[i]));
    }
}

/// `s` with the port `p` put at its place.
spec fn with_port(s: Seq<u16>, p: u16) -> Seq<u16>
    decreases s.len(),
{
    if s.len() == 0 || s.last() < p {
        s.push(p)
    } else if s.last() == p {
        s
    } else {
        with_port(s.drop_last(), p).push(s.last())
    }
}

proof fn lemma_with_port(s: Seq<u16>, p: u16)
    requires
        is_ascending(s),
    ensures
        is_ascending(with_port(s, p)),
        with_port(s, p).to_set() == s.to_set().insert(p),
    decreases s.len(),
{
    if s.len() == 0 {
        lemma_ascending_push(s, p);
        s.lemma_push_to_set_commute(p);
    } else {
        lemma_ascending_front(s);
        if s.last() < p {
            lemma_ascending_push(s, p);
            s.lemma_push_to_set_commute(p);
        } else if s.last() == p {
            assert(s.to_set().contains(s.last()));
            assert(s.to_set().insert(p) =~= s.to_set());
        } else {
            let front = with_port(s.drop_last(), p);
            lemma_with_port(s.drop_last(), p);
            lemma_ascending_push(front, s.last());
            front.lemma_push_to_set_commute(s.last());
            assert(s.to_set().contains(s.last()));
            assert(front.push(s.last()).to_set() =~= s.to_set().insert(p));
        }
    }
}

/// The first `n + 1` ports of `s` are its first `n` ports and the next one.
proof fn lemma_take_next_ports(s: Seq<u16>, n: int)
    requires
        0 <= n < s.len(),
    ensures
        s.take(n + 1).to_set() == s.take(n).to_set().insert(s[n]),
{
    assert(s.take(n + 1) =~= s.take(n).push(s[n]));
    s.take(n).lemma_push_to_set_commute(s[n]);
}

/// The ports of two lists put together are the ports of either.
proof fn lemma_concat_ports(a: Seq<u16>, b: Seq<u16>)
    ensures
        (a + b).to_set() == a.to_set().union(b.to_set()),
{
    assert forall|p: u16| (a + b).contains(p) <==> a.contains(p) || b.contains(p) by {
        vstd::seq_lib::lemma_seq_concat_contains_all_elements(a, b, p);
    }
    assert((a + b).to_set() =~= a.to_set().union(b.to_set()));
}

} // verus!
