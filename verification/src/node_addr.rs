//! The node address itself.

use crate::address::{IpAddress, SocketEndpoint};
use crate::ports::{
    is_ascending, lemma_ascending_no_duplicates, lemma_ascending_unique, lemma_normalized,
    lemma_normalized_of_ascending, lemma_normalized_permutation, lemma_normalized_same_ports,
    normalize, normalized,
};
use crate::text::{append_numeral_list, numeral_list};
use vstd::prelude::*;
use vstd::std_specs::cmp::PartialEqSpecImpl;
use vstd::std_specs::convert::FromSpecImpl;
use vstd::string::*;

verus! {

/// One IP address and the ports on which a node is reached at it. The ports
/// are kept in normal form: ascending, each one once.
#[derive(Hash)]
pub struct NodeAddr {
    ip_addr: IpAddress,
    ports: Vec<u16>,
}

/// What a node address holds.
pub struct NodeAddrView {
    pub ip_addr: IpAddress,
    pub ports: Seq<u16>,
}

impl NodeAddrView {
    /// The node address made of `ip_addr` and the ports of `raw`, whatever
    /// their order and however often each occurs.
    pub open spec fn new(ip_addr: IpAddress, raw: Seq<u16>) -> NodeAddrView {
        NodeAddrView { ip_addr, ports: normalized(raw) }
    }

    /// Whether the ports are in normal form, as they are in every
    /// `NodeAddr`.
    pub open spec fn is_normal(self) -> bool {
        is_ascending(self.ports)
    }

    /// One socket endpoint for each port, in the order of the ports.
    pub open spec fn endpoints(self) -> Seq<SocketEndpoint> {
        Seq::new(
            self.ports.len(),
            |i: int| SocketEndpoint { ip_addr: self.ip_addr, port: self.ports[i] },
        )
    }

    /// The ports of a sequence of endpoints, in their order.
    pub open spec fn ports_of(endpoints: Seq<SocketEndpoint>) -> Seq<u16> {
        endpoints.map_values(|endpoint: SocketEndpoint| endpoint.port)
    }

    /// The text form: the address, a colon, and the ports in decimal between
    /// square brackets, with a comma and a blank between each two.
    pub open spec fn text(self) -> Seq<char> {
        self.ip_addr.text() + ":["@ + numeral_list(self.ports, 10, ", "@) + "]"@
    }
}

impl View for NodeAddr {
    type V = NodeAddrView;

    closed spec fn view(&self) -> NodeAddrView {
        NodeAddrView { ip_addr: self.ip_addr, ports: self.ports@ }
    }
}

impl NodeAddr {
    #[verifier::type_invariant]
    spec fn ports_are_normal(self) -> bool {
        is_ascending(self.ports@)
    }

    /// Makes a node address of `ip_addr` and the ports in `ports`, which may
    /// come in any order and hold repeats.
    pub fn new(ip_addr: &IpAddress, ports: &Vec<u16>) -> (node_addr: NodeAddr)
        ensures
            node_addr@ == NodeAddrView::new(*ip_addr, ports@),
            node_addr@.ip_addr == *ip_addr,
            is_ascending(node_addr@.ports),
            node_addr@.ports.no_duplicates(),
            node_addr@.ports.to_set() == ports@.to_set(),
    {
        NodeAddr { ip_addr: *ip_addr, ports: normalize(ports) }
    }

    /// The IP address.
    pub fn ip_addr(&self) -> (ip_addr: IpAddress)
        ensures
            ip_addr == self@.ip_addr,
    {
        self.ip_addr
    }

    /// A copy of the ports: ascending, each one once.
    pub fn ports(&self) -> (ports: Vec<u16>)
        ensures
            ports@ == self@.ports,
            is_ascending(ports@),
            ports@.no_duplicates(),
    {
        proof {
            use_type_invariant(self);
            lemma_ascending_no_duplicates(self.ports@);
        }
        self.ports.clone()
    }

    /// The text form of the node address, such as `2.5.8.1:[6, 9]`. It is
    /// meant for diagnostics.
    pub fn debug_string(&self) -> (text: String)
        ensures
            text@ == self@.text(),
    {
        let mut text = String::new();
        self.ip_addr.append_to(&mut text);
        text.append(":[");
        assert(self.ports@.subrange(0, self.ports.len() as int) =~= self.ports@);
        append_numeral_list(&mut text, &self.ports, 0, self.ports.len(), 10, ", ");
        text.append("]");
        text
    }
}

impl Clone for NodeAddr {
    /// An independent copy that holds the same address and the same ports.
    fn clone(&self) -> (copy: NodeAddr)
        ensures
            copy@ == self@,
    {
        let copy = NodeAddr::new(&self.ip_addr(), &self.ports());
        proof {
            use_type_invariant(self);
            lemma_normalized_of_ascending(self.ports@);
        }
        copy
    }
}

impl PartialEq for NodeAddr {
    /// Two node addresses are equal when they have the same IP address and
    /// the same ports.
    fn eq(&self, other: &NodeAddr) -> (equal: bool) {
        let equal = self.ip_addr == other.ip_addr && self.ports == other.ports;
        proof {
            assert(vstd::std_specs::cmp::PartialEqSpec::eq_spec(&self.ports, &other.ports)
                <==> self.ports@ =~= other.ports@);
        }
        equal
    }
}

impl PartialEqSpecImpl for NodeAddr {
    open spec fn obeys_eq_spec() -> bool {
        true
    }

    open spec fn eq_spec(&self, other: &NodeAddr) -> bool {
        self@ == other@
    }
}

impl Eq for NodeAddr {}

impl<'a> From<&'a SocketEndpoint> for NodeAddr {
    /// The node address with the address of `endpoint` and its one port.
    fn from(endpoint: &'a SocketEndpoint) -> (node_addr: NodeAddr)
        ensures
            node_addr@ == NodeAddrView::new(endpoint.ip_addr, seq![endpoint.port]),
            node_addr@.ip_addr == endpoint.ip_addr,
            node_addr@.ports == seq![endpoint.port],
    {
        let mut ports: Vec<u16> = Vec::new();
        ports.push(endpoint.port());
        let node_addr = NodeAddr::new(&endpoint.ip(), &ports);
        proof {
            lemma_normalized_of_ascending(ports@);
        }
        node_addr
    }
}

impl<'a> FromSpecImpl<&'a SocketEndpoint> for NodeAddr {
    /// The conversion is stated over views, at `from` itself.
    open spec fn obeys_from_spec() -> bool {
        false
    }

    open spec fn from_spec(endpoint: &'a SocketEndpoint) -> NodeAddr {
        arbitrary()
    }
}

impl FromSpecImpl<NodeAddr> for Vec<SocketEndpoint> {
    /// The conversion is stated over views, at `from` itself.
    open spec fn obeys_from_spec() -> bool {
        false
    }

    open spec fn from_spec(node_addr: NodeAddr) -> Vec<SocketEndpoint> {
        arbitrary()
    }
}

impl From<NodeAddr> for Vec<SocketEndpoint> {
    /// One socket endpoint for each port of `node_addr`, in ascending order
    /// of the ports, all at its IP address.
    fn from(node_addr: NodeAddr) -> (endpoints: Vec<SocketEndpoint>)
        ensures
            endpoints@ == node_addr@.endpoints(),
            endpoints@.len() == node_addr@.ports.len(),
            forall|i: int|
                0 <= i < endpoints@.len() ==> (#[trigger] endpoints@[i]).ip_addr
                    == node_addr@.ip_addr && endpoints@[i].port == node_addr@.ports[i],
            forall|i: int, j: int|
                0 <= i < j < endpoints@.len() ==> endpoints@[i].port < endpoints@[j].port,
    {
        let ip_addr = node_addr.ip_addr();
        let ports = node_addr.ports();
        let mut endpoints: Vec<SocketEndpoint> = Vec::new();
        let mut i: usize = 0;
        while i < ports.len()
            invariant
                i <= ports.len(),
                ports@ == node_addr@.ports,
                ip_addr == node_addr@.ip_addr,
                endpoints@ == node_addr@.endpoints().take(i as int),
            decreases ports.len() - i,
        {
            endpoints.push(SocketEndpoint::new(ip_addr, ports[i]));
            i += 1;
        }
        endpoints
    }
}

impl NodeAddrView {
    /// Whatever the raw port list, the node address made of it has its ports
    /// in ascending order, none of them twice, and they are the ports of the
    /// raw list.
    pub proof fn lemma_new_is_normal(ip_addr: IpAddress, raw: Seq<u16>)
        ensures
            Self::new(ip_addr, raw).is_normal(),
            Self::new(ip_addr, raw).ports.no_duplicates(),
            Self::new(ip_addr, raw).ports.to_set() == raw.to_set(),
            Self::new(ip_addr, raw).ip_addr == ip_addr,
    {
        lemma_normalized(raw);
        lemma_ascending_no_duplicates(normalized(raw));
    }

    /// Order and repeats in the raw port list do not matter: two lists with
    /// the same ports give the same node address.
    pub proof fn lemma_new_same_ports(ip_addr: IpAddress, a: Seq<u16>, b: Seq<u16>)
        requires
            a.to_set() == b.to_set(),
        ensures
            Self::new(ip_addr, a) == Self::new(ip_addr, b),
    {
        lemma_normalized_same_ports(a, b);
    }

    /// Port lists that are permutations of each other give the same node
    /// address.
    pub proof fn lemma_new_permutation(ip_addr: IpAddress, a: Seq<u16>, b: Seq<u16>)
        requires
            a.to_multiset() == b.to_multiset(),
        ensures
            Self::new(ip_addr, a) == Self::new(ip_addr, b),
    {
        lemma_normalized_permutation(a, b);
    }

    /// Making a node address anew of the parts of one changes nothing, which
    /// is why a copy made that way equals the value it was made from.
    pub proof fn lemma_new_of_normal(self)
        requires
            self.is_normal(),
        ensures
            Self::new(self.ip_addr, self.ports) == self,
    {
        lemma_normalized_of_ascending(self.ports);
    }

    /// Two node addresses are equal exactly when they have the same IP
    /// address and the same set of ports.
    pub proof fn lemma_equal_by_port_set(self, other: NodeAddrView)
        requires
            self.is_normal(),
            other.is_normal(),
        ensures
            self == other <==> self.ip_addr == other.ip_addr && self.ports.to_set()
                == other.ports.to_set(),
    {
        if self.ip_addr == other.ip_addr && self.ports.to_set() == other.ports.to_set() {
            lemma_ascending_unique(self.ports, other.ports);
        }
    }

    /// From a node address to its endpoints and back: the endpoints all
    /// share its IP address, and the node address made of that address and
    /// of their ports is the same again. Where there is an endpoint at all,
    /// the address can be taken from the first one.
    pub proof fn lemma_endpoints_round_trip(self)
        requires
            self.is_normal(),
        ensures
            self.endpoints().len() == self.ports.len(),
            forall|i: int|
                0 <= i < self.endpoints().len() ==> (#[trigger] self.endpoints()[i]).ip_addr
                    == self.ip_addr,
            Self::new(self.ip_addr, Self::ports_of(self.endpoints())) == self,
            self.ports.len() > 0 ==> Self::new(
                self.endpoints()[0].ip_addr,
                Self::ports_of(self.endpoints()),
            ) == self,
    {
        assert(Self::ports_of(self.endpoints()) =~= self.ports);
        lemma_normalized_of_ascending(self.ports);
    }

    /// The node address made of one endpoint has that endpoint, and no
    /// other.
    pub proof fn lemma_endpoint_round_trip(endpoint: SocketEndpoint)
        ensures
            Self::new(endpoint.ip_addr, seq![endpoint.port]).endpoints() == seq![endpoint],
    {
        lemma_normalized_of_ascending(seq![endpoint.port]);
    }
}

} // verus!
