//! The network endpoint of a node and the frames it exchanges: a 4-byte
//! big-endian length, then that many bytes of message.
use crate::replication::{NodeId, ReplicationMessage};
use vstd::prelude::*;

verus! {

/// A message between two nodes.
pub struct Message {
    pub from: NodeId,
    pub to: NodeId,
    pub payload: ReplicationMessage,
}

/// Where a node listens.
pub struct NetworkLayer {
    node_id: NodeId,
    listen_addr: String,
}

impl NetworkLayer {
    pub closed spec fn node(self) -> Seq<char> {
        self.node_id@
    }

    pub closed spec fn address(self) -> Seq<char> {
        self.listen_addr@
    }

    pub fn new(node_id: NodeId, listen_addr: String) -> (n: Self)
        ensures
            n.node() == node_id@,
            n.address() == listen_addr@,
    {
        NetworkLayer { node_id, listen_addr }
    }

    pub fn node_id(&self) -> (id: &NodeId)
        ensures
            id@ == self.node(),
    {
        &self.node_id
    }

    pub fn listen_addr(&self) -> (addr: &String)
        ensures
            addr@ == self.address(),
    {
        &self.listen_addr
    }
}

/// The four bytes of `n`, most significant first.
pub open spec fn be_bytes(n: u32) -> Seq<u8> {
    seq![
        (n / 0x1000000) as u8,
        ((n / 0x10000) % 0x100) as u8,
        ((n / 0x100) % 0x100) as u8,
        (n % 0x100) as u8,
    ]
}

/// The number that four bytes, most significant first, stand for.
pub open spec fn be_value(b: Seq<u8>) -> nat {
    b[0] as nat * 0x1000000 + b[1] as nat * 0x10000 + b[2] as nat * 0x100 + b[3] as nat
}

/// A frame of `payload`: its length as a 32-bit number, then the payload.
/// A payload of 2^32 bytes or more has its length cut to the low 32 bits.
pub open spec fn frame_of(payload: Seq<u8>) -> Seq<u8> {
    be_bytes(payload.len() as u32) + payload
}

/// Four bytes give back the number they were made from.
pub proof fn lemma_be_round_trip(n: u32)
    ensures
        be_value(be_bytes(n)) == n,
{
    let b0 = n / 0x1000000;
    let b1 = (n / 0x10000) % 0x100;
    let b2 = (n / 0x100) % 0x100;
    let b3 = n % 0x100;
    assert(b0 * 0x1000000 + b1 * 0x10000 + b2 * 0x100 + b3 == n) by (bit_vector)
        requires
            b0 == n / 0x1000000,
            b1 == (n / 0x10000) % 0x100,
            b2 == (n / 0x100) % 0x100,
            b3 == n % 0x100,
    ;
}

/// Frames `payload` for sending.
pub fn encode_frame(payload: &Vec<u8>) -> (frame: Vec<u8>)
    ensures
        frame@ == frame_of(payload@),
{
    let n = payload.len() as u32;
    let mut frame: Vec<u8> = Vec::new();
    frame.push((n / 0x1000000) as u8);
    frame.push(((n / 0x10000) % 0x100) as u8);
    frame.push(((n / 0x100) % 0x100) as u8);
    frame.push((n % 0x100) as u8);
    let mut i: usize = 0;
    while i < payload.len()
        invariant
            i <= payload.len(),
            frame@ == be_bytes(n) + payload@.take(i as int),
        decreases payload.len() - i,
    {
        frame.push(payload[i]);
        i = i + 1;
        proof {
            assert(frame@ =~= be_bytes(n) + payload@.take(i as int));
        }
    }
    proof {
        assert(payload@.take(payload@.len() as int) =~= payload@);
    }
    frame
}

/// The payload length that a frame header announces.
pub fn decode_frame_length(header: &[u8; 4]) -> (len: usize)
    ensures
        len == be_value(header@),
{
    let v: u32 = (header[0] as u32) * 0x1000000 + (header[1] as u32) * 0x10000 + (header[2] as u32)
        * 0x100 + (header[3] as u32);
    v as usize
}

/// The payload of a complete frame: None when `frame` is shorter than its
/// header, or than the length its header announces; bytes after the payload
/// are ignored.
pub fn frame_payload(frame: &Vec<u8>) -> (payload: Option<Vec<u8>>)
    ensures
        match payload {
            Some(p) => frame@.len() >= 4 && 4 + be_value(frame@.take(4)) <= frame@.len() && p@
                == frame@.subrange(4, 4 + be_value(frame@.take(4)) as int),
            None => frame@.len() < 4 || 4 + be_value(frame@.take(4)) > frame@.len(),
        },
{
    if frame.len() < 4 {
        return None;
    }
    let header: [u8; 4] = [frame[0], frame[1], frame[2], frame[3]];
    let len = decode_frame_length(&header);
    proof {
        assert(header@ =~= frame@.take(4));
    }
    if len > frame.len() - 4 {
        return None;
    }
    let mut p: Vec<u8> = Vec::new();
    let mut i: usize = 0;
    while i < len
        invariant
            i <= len,
            4 + len <= frame.len(),
            p@ == frame@.subrange(4, 4 + i),
        decreases len - i,
    {
        p.push(frame[4 + i]);
        i = i + 1;
        proof {
            assert(p@ =~= frame@.subrange(4, 4 + i));
        }
    }
    Some(p)
}

/// A frame read back gives the payload it was made from.
pub proof fn lemma_frame_round_trip(payload: Seq<u8>)
    requires
        payload.len() < 0x1_0000_0000,
    ensures
        frame_of(payload).take(4) == be_bytes(payload.len() as u32),
        be_value(frame_of(payload).take(4)) == payload.len(),
        frame_of(payload).subrange(4, 4 + payload.len() as int) == payload,
{
    let f = frame_of(payload);
    assert(f.take(4) =~= be_bytes(payload.len() as u32));
    lemma_be_round_trip(payload.len() as u32);
    assert(f.subrange(4, 4 + payload.len() as int) =~= payload);
}

} // verus!
