//! The calls into the operating system's interface lists. Nothing in this
//! file is verified: each item states what is relied on about the call it
//! makes, and the rest of the library is proved for whatever the system
//! answers.

use vstd::prelude::*;
use crate::types::{AF_ALG, AF_INET, AF_INET6, AF_NETLINK, AF_PACKET, AF_VSOCK};
use nix::errno::Errno;
use nix::sys::socket::SockaddrStorage;

verus! {

/// `nix::sys::socket::SockaddrStorage`, a socket address of any family.
/// Nothing is known of its contents; the probes below read it.
#[verifier::external_type_specification]
#[verifier::external_body]
pub struct ExSockaddrStorage(SockaddrStorage);

/// `nix::errno::Errno`, the error number of a failed system call.
#[verifier::external_type_specification]
#[verifier::external_body]
pub struct ExErrno(Errno);

/// One item of the system's address list: the interface name, then the
/// address, its mask, its broadcast address and its destination.
pub type OsEntry = (
    String,
    Option<SockaddrStorage>,
    Option<SockaddrStorage>,
    Option<SockaddrStorage>,
    Option<SockaddrStorage>,
);

/// `nix::ifaddrs::getifaddrs`: the system's list of interface addresses as
/// it is at the moment of the call, or the error number of the failure.
/// Nothing is claimed of what the list holds.
#[verifier::external_body]
pub(crate) fn address_list() -> (r: Result<Vec<OsEntry>, Errno>) {
    nix::ifaddrs::getifaddrs().map(
        |found|
            found.map(
                |a| (a.interface_name, a.address, a.netmask, a.broadcast, a.destination),
            ).collect(),
    )
}

/// `nix::net::if_::if_nameindex`: the system's table of interface indexes
/// and names as it is at the moment of the call, or the error number of the
/// failure. Nothing is claimed of what the table holds.
#[verifier::external_body]
pub(crate) fn name_index_list() -> (r: Result<Vec<(u32, String)>, Errno>) {
    nix::net::if_::if_nameindex().map(
        |found| found.iter().map(|i| (i.index(), i.name().to_string_lossy().to_string())).collect(),
    )
}

/// What a socket address holds: for each family that it can be read as,
/// the text that this reading displays as.
pub uninterp spec fn address_readings(addr: SockaddrStorage) -> Map<u8, Seq<char>>;

/// The text of `addr` read as an address of `family`; `None` where it
/// cannot be read so.
pub open spec fn reading(addr: SockaddrStorage, family: u8) -> Option<Seq<char>> {
    if address_readings(addr).contains_key(family) {
        Some(address_readings(addr)[family])
    } else {
        None
    }
}

/// What a text that may be absent says.
pub open spec fn text_of(text: Option<String>) -> Option<Seq<char>> {
    match text {
        Some(t) => Some(t@),
        None => None,
    }
}

/// The number of an `Errno`, which the enum carries as its discriminant.
/// Nothing is claimed of the number.
#[verifier::external_body]
pub(crate) fn errno_code(e: Errno) -> (code: i32) {
    e as i32
}

/// `SockaddrStorage::as_link_addr`, and the text that the link-layer
/// address displays as: the link-layer reading of the address, which
/// depends on the address alone.
#[verifier::external_body]
pub(crate) fn link_text(addr: &SockaddrStorage) -> (r: Option<String>)
    ensures
        r is Some <==> address_readings(*addr).contains_key(AF_PACKET),
        r matches Some(text) ==> text@ == address_readings(*addr)[AF_PACKET],
{
    addr.as_link_addr().map(|a| format!("{}", a))
}

/// `SockaddrStorage::as_netlink_addr`, and the text that the netlink
/// address displays as: the netlink reading of the address, which depends
/// on the address alone.
#[verifier::external_body]
pub(crate) fn netlink_text(addr: &SockaddrStorage) -> (r: Option<String>)
    ensures
        r is Some <==> address_readings(*addr).contains_key(AF_NETLINK),
        r matches Some(text) ==> text@ == address_readings(*addr)[AF_NETLINK],
{
    addr.as_netlink_addr().map(|a| format!("{}", a))
}

/// `SockaddrStorage::as_vsock_addr`, and the text that the address
/// displays as: the reading of the address as one between a virtual
/// machine and its host, which depends on the address alone.
#[verifier::external_body]
pub(crate) fn vsock_text(addr: &SockaddrStorage) -> (r: Option<String>)
    ensures
        r is Some <==> address_readings(*addr).contains_key(AF_VSOCK),
        r matches Some(text) ==> text@ == address_readings(*addr)[AF_VSOCK],
{
    addr.as_vsock_addr().map(|a| format!("{}", a))
}

/// `SockaddrStorage::as_sockaddr_in`, and the text that the IPv4 address
/// of the socket address displays as: the IPv4 reading of the address,
/// which depends on the address alone.
#[verifier::external_body]
pub(crate) fn inet_text(addr: &SockaddrStorage) -> (r: Option<String>)
    ensures
        r is Some <==> address_readings(*addr).contains_key(AF_INET),
        r matches Some(text) ==> text@ == address_readings(*addr)[AF_INET],
{
    addr.as_sockaddr_in().map(|a| format!("{}", a.ip()))
}

/// `SockaddrStorage::as_alg_addr`, and the text that the address displays
/// as: the reading of the address as one of the kernel's crypto sockets,
/// which depends on the address alone.
#[verifier::external_body]
pub(crate) fn alg_text(addr: &SockaddrStorage) -> (r: Option<String>)
    ensures
        r is Some <==> address_readings(*addr).contains_key(AF_ALG),
        r matches Some(text) ==> text@ == address_readings(*addr)[AF_ALG],
{
    addr.as_alg_addr().map(|a| format!("{}", a))
}

/// `SockaddrStorage::as_sockaddr_in6`, and the text that the IPv6 address
/// of the socket address displays as: the IPv6 reading of the address,
/// which depends on the address alone.
#[verifier::external_body]
pub(crate) fn inet6_text(addr: &SockaddrStorage) -> (r: Option<String>)
    ensures
        r is Some <==> address_readings(*addr).contains_key(AF_INET6),
        r matches Some(text) ==> text@ == address_readings(*addr)[AF_INET6],
{
    addr.as_sockaddr_in6().map(|a| format!("{}", a.ip()))
}

} // verus!
