//! The peer wire protocol: the opening handshake and the framing of the
//! messages that follow it.
use vstd::prelude::*;

use vstd::slice::{slice_subrange, slice_to_vec};

verus! {

/// The protocol name that a handshake carries.
pub open spec fn protocol_name() -> Seq<u8> {
    seq![66u8, 105, 116, 84, 111, 114, 114, 101, 110, 116, 32, 112, 114, 111, 116, 111, 99, 111, 108]
}

/// The bytes of a handshake: the name's length, the name, eight reserved
/// zero bytes, the info-hash and the peer id.
pub open spec fn handshake_bytes(info_hash: Seq<u8>, peer_id: Seq<u8>) -> Seq<u8> {
    seq![19u8] + protocol_name() + Seq::new(8, |i: int| 0u8) + info_hash + peer_id
}

/// The handshake that opens a connection between two peers.
#[derive(Debug, PartialEq, Eq)]
pub struct Handshake {
    info_hash: Vec<u8>,
    peer_id: Vec<u8>,
}

/// What the reading side takes from a handshake: the protocol name, the
/// reserved bytes and the info-hash.
#[derive(Debug, Clone, PartialEq, Eq)]
pub struct HandshakeHeader {
    pub protocol: Vec<u8>,
    pub reserved: Vec<u8>,
    pub info_hash: Vec<u8>,
}

impl Handshake {
    /// A handshake for the torrent `info_hash` from the peer `peer_id`.
    pub fn new(info_hash: Vec<u8>, peer_id: Vec<u8>) -> (r: Self)
        requires
            info_hash@.len() == 20,
            peer_id@.len() == 20,
        ensures
            r.info_hash_view() == info_hash@,
            r.peer_id_view() == peer_id@,
    {
        Handshake { info_hash, peer_id }
    }

    pub closed spec fn info_hash_view(&self) -> Seq<u8> {
        self.info_hash@
    }

    pub closed spec fn peer_id_view(&self) -> Seq<u8> {
        self.peer_id@
    }

    /// Both fields are twenty bytes long.
    #[verifier::type_invariant]
    spec fn inv(&self) -> bool {
        self.info_hash@.len() == 20 && self.peer_id@.len() == 20
    }

    pub fn info_hash(&self) -> (r: &[u8])
        ensures
            r@ == self.info_hash_view(),
    {
        self.info_hash.as_slice()
    }

    pub fn peer_id(&self) -> (r: &[u8])
        ensures
            r@ == self.peer_id_view(),
    {
        self.peer_id.as_slice()
    }

    /// The bytes of this handshake.
    pub fn encode(&self) -> (r: Vec<u8>)
        ensures
            r@ == handshake_bytes(self.info_hash_view(), self.peer_id_view()),
            r@.len() == 68,
    {
        proof {
            use_type_invariant(self);
        }
        let mut out: Vec<u8> = vec![19u8, 66, 105, 116, 84, 111, 114, 114, 101, 110, 116, 32, 112, 114, 111, 116, 111, 99, 111, 108, 0, 0, 0, 0, 0, 0, 0, 0];
        let ghost head = out@;
        let mut i: usize = 0;
        while i < 20
            invariant
                i <= 20,
                self.info_hash@.len() == 20,
                out@ == head + self.info_hash@.subrange(0, i as int),
            decreases 20 - i,
        {
            out.push(self.info_hash[i]);
            i += 1;
            proof {
                assert(self.info_hash@.subrange(0, i as int) =~= self.info_hash@.subrange(0, i - 1).push(self.info_hash@[i - 1]));
            }
        }
        let ghost mid = out@;
        let mut j: usize = 0;
        while j < 20
            invariant
                j <= 20,
                self.peer_id@.len() == 20,
                out@ == mid + self.peer_id@.subrange(0, j as int),
            decreases 20 - j,
        {
            out.push(self.peer_id[j]);
            j += 1;
            proof {
                assert(self.peer_id@.subrange(0, j as int) =~= self.peer_id@.subrange(0, j - 1).push(self.peer_id@[j - 1]));
            }
        }
        proof {
            assert(self.info_hash@.subrange(0, 20) =~= self.info_hash@);
            assert(self.peer_id@.subrange(0, 20) =~= self.peer_id@);
            assert(out@ =~= handshake_bytes(self.info_hash@, self.peer_id@));
        }
        out
    }

    /// Reads the start of a handshake: the length-prefixed protocol name,
    /// eight reserved bytes and the twenty-byte info-hash. Returns them and
    /// the number of bytes read, or `None` while `bytes` is too short.
    pub fn decode_header(bytes: &[u8]) -> (r: Option<(HandshakeHeader, usize)>)
        ensures
            r is Some <==> bytes@.len() >= 1 && bytes@.len() >= 29 + bytes@[0] as int,
            r matches Some((h, n)) ==> {
                let p = bytes@[0] as int;
                &&& n == 29 + p
                &&& h.protocol@ == bytes@.subrange(1, 1 + p)
                &&& h.reserved@ == bytes@.subrange(1 + p, 9 + p)
                &&& h.info_hash@ == bytes@.subrange(9 + p, 29 + p)
            },
    {
        if bytes.len() < 1 {
            return None;
        }
        let p = bytes[0] as usize;
        if bytes.len() < 29 + p {
            return None;
        }
        let protocol = slice_to_vec(slice_subrange(bytes, 1, 1 + p));
        let reserved = slice_to_vec(slice_subrange(bytes, 1 + p, 9 + p));
        let info_hash = slice_to_vec(slice_subrange(bytes, 9 + p, 29 + p));
        Some((HandshakeHeader { protocol, reserved, info_hash }, 29 + p))
    }
}

/// The kind of a peer wire message, by its one-byte id.
#[derive(Debug, Clone, Copy, PartialEq, Eq, Structural)]
pub enum MessageType {
    Choke,
    Unchoke,
    Interested,
    NotInterested,
    Have,
    Bitfield,
    Request,
    Piece,
    Cancel,
}

/// The id byte of a message type.
pub open spec fn type_id(t: MessageType) -> u8 {
    match t {
        MessageType::Choke => 0,
        MessageType::Unchoke => 1,
        MessageType::Interested => 2,
        MessageType::NotInterested => 3,
        MessageType::Have => 4,
        MessageType::Bitfield => 5,
        MessageType::Request => 6,
        MessageType::Piece => 7,
        MessageType::Cancel => 8,
    }
}

impl MessageType {
    /// The id byte of this type.
    pub fn id(&self) -> (r: u8)
        ensures
            r == type_id(*self),
    {
        match self {
            MessageType::Choke => 0,
            MessageType::Unchoke => 1,
            MessageType::Interested => 2,
            MessageType::NotInterested => 3,
            MessageType::Have => 4,
            MessageType::Bitfield => 5,
            MessageType::Request => 6,
            MessageType::Piece => 7,
            MessageType::Cancel => 8,
        }
    }

    /// The type with id `id`; ids above eight have none.
    pub fn from_id(id: u8) -> (r: Option<MessageType>)
        ensures
            r is Some <==> id <= 8,
            r is Some ==> type_id(r->0) == id,
    {
        match id {
            0 => Some(MessageType::Choke),
            1 => Some(MessageType::Unchoke),
            2 => Some(MessageType::Interested),
            3 => Some(MessageType::NotInterested),
            4 => Some(MessageType::Have),
            5 => Some(MessageType::Bitfield),
            6 => Some(MessageType::Request),
            7 => Some(MessageType::Piece),
            8 => Some(MessageType::Cancel),
            _ => None,
        }
    }
}

/// The four big-endian bytes of `n`.
pub open spec fn be32(n: u32) -> Seq<u8> {
    seq![
        (n / 16777216) as u8,
        (n / 65536 % 256) as u8,
        (n / 256 % 256) as u8,
        (n % 256) as u8,
    ]
}

/// The number that four big-endian bytes hold.
pub open spec fn be32_value(b: Seq<u8>) -> int {
    b[0] as int * 16777216 + b[1] as int * 65536 + b[2] as int * 256 + b[3] as int
}

/// A peer wire message: its length (the id byte and the payload), its type
/// and its payload.
#[derive(Debug, PartialEq, Eq)]
pub struct Message {
    length: u32,
    id: MessageType,
    payload: Vec<u8>,
}

/// What a frame on the wire holds.
#[derive(Debug, PartialEq, Eq)]
pub enum Frame {
    /// A frame with length zero and nothing after it.
    KeepAlive,
    Message(Message),
}

/// The bytes of a keep-alive frame.
pub fn keep_alive() -> (r: Vec<u8>)
    ensures
        r@ == seq![0u8, 0, 0, 0],
{
    let r = vec![0u8, 0, 0, 0];
    proof {
        assert(r@ =~= seq![0u8, 0, 0, 0]);
    }
    r
}

impl Message {
    /// A message of type `id`; its length is one more than the payload's.
    pub fn new(id: MessageType, payload: Vec<u8>) -> (r: Self)
        requires
            payload@.len() < u32::MAX,
        ensures
            r.length() == payload@.len() + 1,
            r.id_view() == id,
            r.payload_view() == payload@,
    {
        Message { length: (payload.len() + 1) as u32, id, payload }
    }

    pub closed spec fn length(&self) -> int {
        self.length as int
    }

    pub closed spec fn id_view(&self) -> MessageType {
        self.id
    }

    pub closed spec fn payload_view(&self) -> Seq<u8> {
        self.payload@
    }

    /// The length counts the id byte and the payload.
    #[verifier::type_invariant]
    spec fn inv(&self) -> bool {
        self.length == self.payload@.len() + 1
    }

    pub fn message_type(&self) -> (r: MessageType)
        ensures
            r == self.id_view(),
    {
        self.id
    }

    pub fn payload(&self) -> (r: &[u8])
        ensures
            r@ == self.payload_view(),
    {
        self.payload.as_slice()
    }

    /// The bytes of this message: the four-byte big-endian length, the id
    /// byte and the payload.
    pub fn encode(&self) -> (r: Vec<u8>)
        ensures
            r@ == be32(self.length() as u32) + seq![type_id(self.id_view())] + self.payload_view(),
            self.length() == self.payload_view().len() + 1,
    {
        proof {
            use_type_invariant(self);
        }
        let n = self.length;
        let mut out: Vec<u8> = Vec::new();
        out.push((n / 16777216) as u8);
        out.push((n / 65536 % 256) as u8);
        out.push((n / 256 % 256) as u8);
        out.push((n % 256) as u8);
        out.push(self.id.id());
        let ghost head = out@;
        let mut i: usize = 0;
        while i < self.payload.len()
            invariant
                i <= self.payload@.len(),
                out@ == head + self.payload@.subrange(0, i as int),
            decreases self.payload@.len() - i,
        {
            out.push(self.payload[i]);
            i += 1;
            proof {
                assert(self.payload@.subrange(0, i as int) =~= self.payload@.subrange(0, i - 1).push(self.payload@[i - 1]));
            }
        }
        proof {
            assert(self.payload@.subrange(0, self.payload@.len() as int) =~= self.payload@);
            assert(out@ =~= be32(self.length as u32) + seq![type_id(self.id)] + self.payload@);
        }
        out
    }

    /// Reads one frame from the start of `bytes`: a keep-alive, or a message
    /// with a known id. Returns the frame and the number of bytes read;
    /// `Ok(None)` while `bytes` is too short; an error for an unknown id.
    pub fn decode_frame(bytes: &[u8]) -> (r: Result<Option<(Frame, usize)>, crate::error::Error>)
        ensures
            bytes@.len() < 4 ==> r == Ok::<Option<(Frame, usize)>, crate::error::Error>(None),
            bytes@.len() >= 4 && be32_value(bytes@) == 0 ==> r matches Ok(Some((Frame::KeepAlive, 4))),
            bytes@.len() >= 4 && be32_value(bytes@) > 0 && bytes@.len() < 4 + be32_value(bytes@)
                ==> r matches Ok(None),
            bytes@.len() >= 4 && be32_value(bytes@) > 0 && bytes@.len() >= 4 + be32_value(bytes@)
                ==> (r is Ok <==> bytes@[4] <= 8),
            bytes@.len() >= 4 && be32_value(bytes@) > 0 && bytes@.len() >= 4 + be32_value(bytes@)
                && bytes@[4] <= 8 ==> (r matches Ok(Some((Frame::Message(_), _)))),
            r matches Ok(Some((Frame::Message(m), n))) ==> {
                &&& bytes@.len() >= 5
                &&& m.length() == be32_value(bytes@)
                &&& n == 4 + m.length()
                &&& type_id(m.id_view()) == bytes@[4]
                &&& m.payload_view() == bytes@.subrange(5, n as int)
                &&& m.length() == m.payload_view().len() + 1
            },
            r matches Err(e) ==> e is MalformedContent,
    {
        if bytes.len() < 4 {
            return Ok(None);
        }
        let len: u32 = (bytes[0] as u32) * 16777216 + (bytes[1] as u32) * 65536 + (bytes[2] as u32)
            * 256 + bytes[3] as u32;
        if len == 0 {
            return Ok(Some((Frame::KeepAlive, 4)));
        }
        let total: usize = len as usize;
        if bytes.len() - 4 < total {
            return Ok(None);
        }
        let id = match MessageType::from_id(bytes[4]) {
            Some(t) => t,
            None => {
                return Err(
                    crate::error::Error::MalformedContent(String::from_str("unknown message id")),
                );
            },
        };
        let payload = slice_to_vec(slice_subrange(bytes, 5, 4 + total));
        Ok(Some((Frame::Message(Message { length: len, id, payload }), 4 + total)))
    }
}

} // verus!
