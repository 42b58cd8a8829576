//! A peer as a tracker reports it.
use vstd::prelude::*;

use crate::bencode::{BVal, Value, lemma_dict_view, pairs_view};
use crate::error::Error;
use crate::field::{as_text, as_u16, bytes_eq, lookup, opt_text, value_string, value_u16};
use crate::field::opt_field;
use crate::keys::{ip_key, key_ip, key_peer_id, key_port, peer_id_key, port_key};

verus! {

/// Where a peer can be reached.
#[derive(Debug, Clone, PartialEq, Eq)]
pub enum Host {
    /// An IPv4 address, octets in network order.
    Ipv4(u8, u8, u8, u8),
    /// An address as the tracker wrote it: an IPv4 or IPv6 literal, or a
    /// DNS name that the caller resolves.
    Name(String),
}

/// The model of a [`Host`].
pub enum HostModel {
    Ipv4(u8, u8, u8, u8),
    Name(Seq<char>),
}

impl View for Host {
    type V = HostModel;

    open spec fn view(&self) -> HostModel {
        match self {
            Host::Ipv4(a, b, c, d) => HostModel::Ipv4(*a, *b, *c, *d),
            Host::Name(n) => HostModel::Name(n@),
        }
    }
}

/// A host and a port.
#[derive(Debug, Clone, PartialEq, Eq)]
pub struct SocketAddress {
    pub host: Host,
    pub port: u16,
}

/// A peer: its optional id and its address.
#[derive(Debug, Clone, PartialEq, Eq)]
pub struct Peer {
    peer_id: Option<String>,
    address: SocketAddress,
}

/// The model of a [`Peer`].
pub struct PeerModel {
    pub peer_id: Option<Seq<char>>,
    pub host: HostModel,
    pub port: u16,
}

impl View for Peer {
    type V = PeerModel;

    closed spec fn view(&self) -> PeerModel {
        PeerModel {
            peer_id: opt_text(self.peer_id),
            host: self.address.host@,
            port: self.address.port,
        }
    }
}

/// The peer in six compact bytes: four IPv4 octets, then the port,
/// big-endian.
pub open spec fn compact_peer(b: Seq<u8>) -> PeerModel {
    PeerModel {
        peer_id: None,
        host: HostModel::Ipv4(b[0], b[1], b[2], b[3]),
        port: (b[4] as int * 256 + b[5] as int) as u16,
    }
}

/// The peers of a compact peer string, one for each six bytes, in order.
pub open spec fn compact_peers(b: Seq<u8>) -> Seq<PeerModel> {
    Seq::new(b.len() / 6, |i: int| compact_peer(b.subrange(6 * i, 6 * i + 6)))
}

/// A key that a peer's dictionary may hold.
pub open spec fn peer_key(k: Seq<u8>) -> bool {
    k == key_peer_id() || k == key_ip() || k == key_port()
}

/// The value under an allowed key has the type that the key calls for.
pub open spec fn peer_pair_ok(k: Seq<u8>, v: BVal) -> bool {
    &&& k == key_peer_id() ==> as_text(v) is Some
    &&& k == key_ip() ==> as_text(v) is Some
    &&& k == key_port() ==> as_u16(v) is Some
}

/// Every key is allowed and every value well-typed.
pub open spec fn peer_fields_ok(ps: Seq<(Seq<u8>, BVal)>) -> bool {
    forall|i: int| 0 <= i < ps.len() ==> peer_key(#[trigger] ps[i].0) && peer_pair_ok(ps[i].0, ps[i].1)
}

/// A dictionary that decodes as a peer.
pub open spec fn peer_decodes(ps: Seq<(Seq<u8>, BVal)>) -> bool {
    peer_fields_ok(ps) && lookup(ps, key_ip()) is Some && lookup(ps, key_port()) is Some
}

/// The peer that a dictionary decodes as; its `ip` is kept as text.
pub open spec fn peer_of(ps: Seq<(Seq<u8>, BVal)>) -> PeerModel {
    PeerModel {
        peer_id: opt_field(lookup(ps, key_peer_id()), |x: BVal| as_text(x)),
        host: HostModel::Name(as_text(lookup(ps, key_ip())->0)->0),
        port: as_u16(lookup(ps, key_port())->0)->0,
    }
}

impl Peer {
    pub fn new(peer_id: Option<String>, address: SocketAddress) -> (r: Self)
        ensures
            r@ == (PeerModel { peer_id: opt_text(peer_id), host: address.host@, port: address.port }),
    {
        Peer { peer_id, address }
    }

    pub fn peer_id(&self) -> (r: Option<&str>)
        ensures
            r is Some == self@.peer_id is Some,
            r is Some ==> r->0@ == self@.peer_id->0,
    {
        match &self.peer_id {
            Some(s) => Some(s.as_str()),
            None => None,
        }
    }

    pub fn address(&self) -> (r: &SocketAddress)
        ensures
            r.host@ == self@.host,
            r.port == self@.port,
    {
        &self.address
    }

    /// The peer of six compact bytes: four IPv4 octets, then a big-endian
    /// port.
    pub fn try_from(bytes: &[u8]) -> (r: Result<Peer, Error>)
        ensures
            r is Ok <==> bytes@.len() == 6,
            r is Ok ==> r->Ok_0@ == compact_peer(bytes@),
            r is Err ==> r->Err_0 == Error::InvalidCompactPeerLength(bytes@.len() as usize),
    {
        if bytes.len() != 6 {
            return Err(Error::InvalidCompactPeerLength(bytes.len()));
        }
        let port: u16 = (bytes[4] as u16) * 256 + bytes[5] as u16;
        Ok(
            Peer {
                peer_id: None,
                address: SocketAddress {
                    host: Host::Ipv4(bytes[0], bytes[1], bytes[2], bytes[3]),
                    port,
                },
            },
        )
    }

    /// Reads a peer from its dictionary, admitting only the keys `peer id`,
    /// `ip` and `port`.
    pub fn from_value(v: &Value) -> (r: Result<Peer, Error>)
        ensures
            r is Ok <==> v@ is Dict && peer_decodes(v@->Dict_0),
            r is Ok ==> r->Ok_0@ == peer_of(v@->Dict_0),
            r matches Err(Error::UnexpectedField(k)) ==> v@ is Dict && !peer_key(k@) && exists|i: int|
                0 <= i < v@->Dict_0.len() && (#[trigger] v@->Dict_0[i]).0 == k@,
            r matches Err(Error::MissingField(n)) ==> v@ is Dict && peer_fields_ok(v@->Dict_0) && (
            (lookup(v@->Dict_0, key_ip()) is None && n@ == "ip"@) || (lookup(v@->Dict_0, key_ip()) is Some
                && lookup(v@->Dict_0, key_port()) is None && n@ == "port"@)),
            r matches Err(Error::MalformedContent(_)) ==> !(v@ is Dict) || !peer_fields_ok(v@->Dict_0),
            r matches Err(e) ==> e is UnexpectedField || e is MissingField || e is MalformedContent,
    {
        let (ks, vs) = match v {
            Value::Dict(ks, vs) => (ks, vs),
            _ => {
                return Err(Error::MalformedContent(String::from_str("expected a dictionary")));
            },
        };
        proof {
            lemma_dict_view(*v);
        }
        let ghost ps = v@->Dict_0;
        let mut peer_id: Option<String> = None;
        let mut ip: Option<String> = None;
        let mut port: Option<u16> = None;
        let mut i: usize = 0;
        while i < ks.len() && i < vs.len()
            invariant
                v@ is Dict,
                ps == v@->Dict_0,
                ps == pairs_view(ks@, vs@),
                i <= ps.len(),
                forall|j: int| 0 <= j < i ==> peer_key(#[trigger] ps[j].0) && peer_pair_ok(ps[j].0, ps[j].1),
                opt_text(peer_id) == opt_field(lookup(ps.subrange(0, i as int), key_peer_id()), |x: BVal| as_text(x)),
                opt_text(ip) == opt_field(lookup(ps.subrange(0, i as int), key_ip()), |x: BVal| as_text(x)),
                port == opt_field(lookup(ps.subrange(0, i as int), key_port()), |x: BVal| as_u16(x)),
            decreases ks@.len() - i,
        {
            let k = &ks[i];
            let x = &vs[i];
            proof {
                assert(ps[i as int] == (k@, x@));
                assert(ps.subrange(0, i + 1).drop_last() =~= ps.subrange(0, i as int));
                assert(ps.subrange(0, i + 1).last() == ps[i as int]);
            }
            if bytes_eq(k.as_slice(), peer_id_key().as_slice()) {
                match value_string(x) {
                    Some(s) => peer_id = Some(s),
                    None => {
                        proof {
                            assert(peer_key(ps[i as int].0) && !peer_pair_ok(ps[i as int].0, ps[i as int].1));
                        }
                        return Err(Error::MalformedContent(String::from_str("peer id is not a string")));
                    },
                }
            } else if bytes_eq(k.as_slice(), ip_key().as_slice()) {
                match value_string(x) {
                    Some(s) => ip = Some(s),
                    None => {
                        proof {
                            assert(peer_key(ps[i as int].0) && !peer_pair_ok(ps[i as int].0, ps[i as int].1));
                        }
                        return Err(Error::MalformedContent(String::from_str("ip is not a string")));
                    },
                }
            } else if bytes_eq(k.as_slice(), port_key().as_slice()) {
                match value_u16(x) {
                    Some(n) => port = Some(n),
                    None => {
                        proof {
                            assert(peer_key(ps[i as int].0) && !peer_pair_ok(ps[i as int].0, ps[i as int].1));
                        }
                        return Err(Error::MalformedContent(String::from_str("port is not a u16")));
                    },
                }
            } else {
                proof {
                    assert(!peer_key(ps[i as int].0));
                }
                return Err(Error::UnexpectedField(k.clone()));
            }
            i += 1;
        }
        proof {
            assert(ps.subrange(0, i as int) =~= ps);
        }
        let ip = match ip {
            Some(s) => s,
            None => {
                return Err(Error::MissingField(String::from_str("ip")));
            },
        };
        let port = match port {
            Some(n) => n,
            None => {
                return Err(Error::MissingField(String::from_str("port")));
            },
        };
        Ok(Peer { peer_id, address: SocketAddress { host: Host::Name(ip), port } })
    }
}

/// Reads a compact peer string: six bytes for each peer, in order.
pub fn compact_peer_list(bytes: &[u8]) -> (r: Result<Vec<Peer>, Error>)
    ensures
        r is Ok <==> bytes@.len() % 6 == 0,
        r is Ok ==> r->Ok_0@.len() == bytes@.len() / 6 && forall|i: int|
            0 <= i < r->Ok_0@.len() ==> (#[trigger] r->Ok_0@[i])@ == compact_peers(bytes@)[i],
        r is Err ==> r->Err_0 == Error::InvalidCompactPeerLength((bytes@.len() % 6) as usize),
{
    if bytes.len() % 6 != 0 {
        return Err(Error::InvalidCompactPeerLength(bytes.len() % 6));
    }
    let mut out: Vec<Peer> = Vec::new();
    let mut i: usize = 0;
    let mut off: usize = 0;
    let len = bytes.len();
    let n = len / 6;
    while i < n
        invariant
            len == bytes@.len(),
            off == 6 * i,
            n == bytes@.len() / 6,
            bytes@.len() % 6 == 0,
            i <= n,
            out@.len() == i,
            forall|j: int| 0 <= j < i ==> (#[trigger] out@[j])@ == compact_peers(bytes@)[j],
        decreases n - i,
    {
        proof {
            assert(off + 6 <= bytes@.len()) by (nonlinear_arith)
                requires
                    i < n,
                    n == bytes@.len() / 6,
                    off == 6 * i,
            ;
        }
        let chunk = vstd::slice::slice_subrange(bytes, off, off + 6);
        match Peer::try_from(chunk) {
            Ok(p) => out.push(p),
            Err(e) => {
                return Err(e);
            },
        }
        i += 1;
        off += 6;
    }
    Ok(out)
}

} // verus!
