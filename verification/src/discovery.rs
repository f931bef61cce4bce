//! mDNS/DNS-SD naming of the nomad service.
//!
//! A nomad server publishes the service [`SERVICE_TYPE`] with its node id in
//! a TXT record; newcomers browse it to decide whether to join a server or
//! to become one.

use vstd::prelude::*;

use crate::protocol::{hex32, hyphenated, uuid_hyphenated_text, uuid_parse, NodeId};
use crate::text::{push_char, push_str};

verus! {

/// DNS-SD service type reserved for nomad.
pub const SERVICE_TYPE: &'static str = "_nomad._tcp.local.";

/// TXT key carrying the UUID of the server node.
pub const TXT_NODE_ID: &'static str = "node_id";

/// DNS-SD instance name for a node name: dots are not allowed there, each
/// becomes a dash; an empty name gives `nomad`.
pub open spec fn instance_name(name: Seq<char>) -> Seq<char> {
    if name.len() == 0 {
        "nomad"@
    } else {
        name.map_values(|c: char| if c == '.' { '-' } else { c })
    }
}

/// Instance names must not contain dots.
pub fn sanitize_instance(name: &str) -> (r: String)
    ensures
        r@ == instance_name(name@),
{
    let n = name.unicode_len();
    if n == 0 {
        return String::from_str("nomad");
    }
    let mut out = String::new();
    let mut i: usize = 0;
    while i < n
        invariant
            n == name@.len(),
            i <= n,
            out@ == name@.take(i as int).map_values(|c: char| if c == '.' { '-' } else { c }),
        decreases n - i,
    {
        let c = name.get_char(i);
        push_char(&mut out, if c == '.' { '-' } else { c });
        i += 1;
        assert(out@ =~= name@.take(i as int).map_values(|c: char| if c == '.' { '-' } else { c }));
    }
    assert(name@.take(n as int) =~= name@);
    out
}

/// Law: an instance name never contains a dot and is never empty.
pub proof fn lemma_instance_name_clean(name: Seq<char>)
    ensures
        !instance_name(name).contains('.'),
        instance_name(name).len() > 0,
{
    reveal_strlit("nomad");
    if name.len() > 0 {
        assert forall|i: int| 0 <= i < instance_name(name).len() implies instance_name(name)[i] != '.' by {}
    }
}

/// An IP address, by its value.
#[derive(Debug, Clone, Copy, PartialEq, Eq, Structural)]
pub enum IpAddress {
    V4(u32),
    V6(u128),
}

/// A loopback address (`127.0.0.0/8`, `::1`).
pub open spec fn is_loopback(a: IpAddress) -> bool {
    match a {
        IpAddress::V4(x) => x / 0x100_0000 == 127,
        IpAddress::V6(x) => x == 1,
    }
}

/// A routable IPv4 address: IPv4 and not loopback.
pub open spec fn is_routable_v4(a: IpAddress) -> bool {
    a is V4 && !is_loopback(a)
}

/// The address used to reach a server announcing `addrs`: the first
/// routable IPv4 one, else the first one.
pub open spec fn preferred_ip(addrs: Seq<IpAddress>) -> Option<IpAddress> {
    if exists|i: int| 0 <= i < addrs.len() && is_routable_v4(#[trigger] addrs[i]) {
        let i = choose|i: int|
            0 <= i < addrs.len() && is_routable_v4(addrs[i]) && forall|j: int|
                0 <= j < i ==> !is_routable_v4(#[trigger] addrs[j]);
        Some(addrs[i])
    } else if addrs.len() > 0 {
        Some(addrs[0])
    } else {
        None
    }
}

/// Whether `a` is a loopback address.
pub fn loopback(a: IpAddress) -> (r: bool)
    ensures
        r == is_loopback(a),
{
    match a {
        IpAddress::V4(x) => x / 0x100_0000 == 127,
        IpAddress::V6(x) => x == 1,
    }
}

/// The address to use among those a server announces (see
/// [`preferred_ip`]).
pub fn choose_ip(addrs: &[IpAddress]) -> (r: Option<IpAddress>)
    ensures
        r == preferred_ip(addrs@),
{
    let n = addrs.len();
    let mut i: usize = 0;
    while i < n
        invariant
            n == addrs@.len(),
            i <= n,
            forall|j: int| 0 <= j < i ==> !is_routable_v4(#[trigger] addrs@[j]),
        decreases n - i,
    {
        let a = addrs[i];
        let v4 = match a {
            IpAddress::V4(_) => true,
            IpAddress::V6(_) => false,
        };
        if v4 && !loopback(a) {
            let ghost k = choose|k: int|
                0 <= k < addrs@.len() && is_routable_v4(addrs@[k]) && forall|j: int|
                    0 <= j < k ==> !is_routable_v4(#[trigger] addrs@[j]);
            assert(is_routable_v4(addrs@[i as int]));
            proof {
                if k < i {
                    assert(!is_routable_v4(addrs@[k]));
                } else if k > i {
                    assert(!is_routable_v4(addrs@[i as int]));
                }
            }
            return Some(a);
        }
        i += 1;
    }
    if n > 0 {
        Some(addrs[0])
    } else {
        None
    }
}

/// A server found on the LAN.
#[derive(Debug, Clone, Copy, PartialEq, Eq, Structural)]
pub struct DiscoveredServer {
    pub ip: IpAddress,
    pub port: u16,
    pub node_id: Option<NodeId>,
}

/// The server described by a resolved announcement: its port, its
/// addresses and the value of its `node_id` TXT property. `None` when it
/// announces no address; the node id is that of the property when it parses
/// as a UUID.
pub fn resolve_server(port: u16, addrs: &[IpAddress], node_txt: Option<&str>) -> (r: Option<
    DiscoveredServer,
>)
    ensures
        match preferred_ip(addrs@) {
            None => r is None,
            Some(ip) => r matches Some(d) && d.ip == ip && d.port == port && d.node_id == match node_txt {
                Some(t) => match uuid_parse(t@) {
                    Some(x) => Some(NodeId(x)),
                    None => None::<NodeId>,
                },
                None => None::<NodeId>,
            },
        },
        forall|x: u128|
            #![trigger hyphenated(x)]
            addrs@.len() > 0 ==> (node_txt matches Some(t) ==> (hyphenated(x) == t@ ==> (r matches Some(
                d,
            ) && d.node_id == Some(NodeId(x))))),
{
    match choose_ip(addrs) {
        None => None,
        Some(ip) => {
            let node_id = match node_txt {
                Some(t) => NodeId::parse(t),
                None => None,
            };
            Some(DiscoveredServer { ip, port, node_id })
        },
    }
}

/// The host name a server announces: `nomad-` followed by its node id in
/// simple form and `.local.`.
pub open spec fn announce_host_spec(id: NodeId) -> Seq<char> {
    "nomad-"@ + hex32(id.0) + ".local."@
}

/// The host name a server announces.
pub fn announce_host(id: NodeId) -> (r: String)
    ensures
        r@ == announce_host_spec(id),
{
    let mut r = String::new();
    push_str(&mut r, "nomad-");
    push_str(&mut r, id.to_string().as_str());
    push_str(&mut r, ".local.");
    r
}

/// The value of the `node_id` TXT property a server announces: its UUID in
/// hyphenated form.
pub fn txt_node_id(id: NodeId) -> (r: String)
    ensures
        r@ == hyphenated(id.0),
{
    uuid_hyphenated_text(id.0)
}

} // verus!
