//! Node addresses: one IP address together with the ports on which a node
//! is reached at it.
//!
//! A [`NodeAddr`] keeps its ports in normal form, ascending and each one
//! once, so that two node addresses are equal exactly when they have the
//! same IP address and the same set of ports, in whatever order and however
//! often the ports were given. It converts from one [`SocketEndpoint`] and
//! into one endpoint for each port.
//!
//! - [`node_addr`] holds the type, its view and the laws that hold of it.
//! - [`ports`] defines the normal form of a port list and computes it.
//! - [`address`] holds IP addresses and socket endpoints as plain values,
//!   and the text form of an IP address.
//! - [`text`] defines the text form of numbers and of lists of numbers.

pub mod address;
pub mod node_addr;
pub mod ports;
pub mod text;

pub use address::{IpAddress, SocketEndpoint};
pub use node_addr::{NodeAddr, NodeAddrView};
