//! The fixed-layout control envelope exchanged between client and server:
//! `u8 request_type; u8 pad[7]; u64 remote_address; u64 message_size;
//! u32 rkey; u32 lkey; u32 iterations; u32 pad`. Both peers write it in
//! the same byte order; it is fixed here as little-endian, the order of the
//! hosts the verbs stack runs on, so that the encoding is a function of the
//! fields alone.
use vstd::prelude::*;

verus! {

/// Size in bytes of an encoded envelope.
pub const ENVELOPE_LEN: usize = 40;

/// The kinds of request an envelope can carry.
#[derive(Clone, Copy, Debug, PartialEq, Eq, Structural)]
pub enum MetaDataRequestTypes {
    Disconnect,
    WriteRequest,
    WriteResponse,
    WriteFinished,
    SendRequest,
    SendResponse,
    SendFinished,
    ReadRequest,
    ReadResponse,
    ReadFinished,
    UnDef,
}

/// The tag byte of each request type.
pub open spec fn request_code(t: MetaDataRequestTypes) -> u8 {
    match t {
        MetaDataRequestTypes::Disconnect => 0,
        MetaDataRequestTypes::WriteRequest => 1,
        MetaDataRequestTypes::WriteResponse => 2,
        MetaDataRequestTypes::WriteFinished => 3,
        MetaDataRequestTypes::SendRequest => 4,
        MetaDataRequestTypes::SendResponse => 5,
        MetaDataRequestTypes::SendFinished => 6,
        MetaDataRequestTypes::ReadRequest => 7,
        MetaDataRequestTypes::ReadResponse => 8,
        MetaDataRequestTypes::ReadFinished => 9,
        MetaDataRequestTypes::UnDef => 128,
    }
}

/// The request type of a tag byte; unknown tags read as `UnDef`.
pub open spec fn request_of_code(c: u8) -> MetaDataRequestTypes {
    if c == 0 {
        MetaDataRequestTypes::Disconnect
    } else if c == 1 {
        MetaDataRequestTypes::WriteRequest
    } else if c == 2 {
        MetaDataRequestTypes::WriteResponse
    } else if c == 3 {
        MetaDataRequestTypes::WriteFinished
    } else if c == 4 {
        MetaDataRequestTypes::SendRequest
    } else if c == 5 {
        MetaDataRequestTypes::SendResponse
    } else if c == 6 {
        MetaDataRequestTypes::SendFinished
    } else if c == 7 {
        MetaDataRequestTypes::ReadRequest
    } else if c == 8 {
        MetaDataRequestTypes::ReadResponse
    } else if c == 9 {
        MetaDataRequestTypes::ReadFinished
    } else {
        MetaDataRequestTypes::UnDef
    }
}

/// A request type survives being written as its tag byte and read back.
pub proof fn lemma_request_code_round_trip(t: MetaDataRequestTypes)
    ensures
        request_of_code(request_code(t)) == t,
{
}

impl MetaDataRequestTypes {
    /// The tag byte of this request type.
    pub fn code(&self) -> (r: u8)
        ensures
            r == request_code(*self),
    {
        match self {
            MetaDataRequestTypes::Disconnect => 0,
            MetaDataRequestTypes::WriteRequest => 1,
            MetaDataRequestTypes::WriteResponse => 2,
            MetaDataRequestTypes::WriteFinished => 3,
            MetaDataRequestTypes::SendRequest => 4,
            MetaDataRequestTypes::SendResponse => 5,
            MetaDataRequestTypes::SendFinished => 6,
            MetaDataRequestTypes::ReadRequest => 7,
            MetaDataRequestTypes::ReadResponse => 8,
            MetaDataRequestTypes::ReadFinished => 9,
            MetaDataRequestTypes::UnDef => 128,
        }
    }
}

/// The control envelope.
#[derive(Clone, Copy, Debug, PartialEq, Eq, Structural)]
pub struct MetaData {
    pub request_type: u8,
    pub remote_address: u64,
    pub message_size: u64,
    pub rkey: u32,
    pub lkey: u32,
    pub iterations: u32,
}

/// Little-endian bytes of a `u32`.
pub open spec fn u32_bytes(x: u32) -> Seq<u8> {
    seq![
        (x & 0xff) as u8,
        ((x >> 8u32) & 0xff) as u8,
        ((x >> 16u32) & 0xff) as u8,
        ((x >> 24u32) & 0xff) as u8,
    ]
}

/// Little-endian bytes of a `u64`.
pub open spec fn u64_bytes(x: u64) -> Seq<u8> {
    seq![
        (x & 0xff) as u8,
        ((x >> 8u64) & 0xff) as u8,
        ((x >> 16u64) & 0xff) as u8,
        ((x >> 24u64) & 0xff) as u8,
        ((x >> 32u64) & 0xff) as u8,
        ((x >> 40u64) & 0xff) as u8,
        ((x >> 48u64) & 0xff) as u8,
        ((x >> 56u64) & 0xff) as u8,
    ]
}

/// The `u32` stored little-endian at `at`.
pub open spec fn u32_at(b: Seq<u8>, at: int) -> u32 {
    (b[at] as u32) | ((b[at + 1] as u32) << 8u32) | ((b[at + 2] as u32) << 16u32) | ((b[at
        + 3] as u32) << 24u32)
}

/// The `u64` stored little-endian at `at`.
pub open spec fn u64_at(b: Seq<u8>, at: int) -> u64 {
    (b[at] as u64) | ((b[at + 1] as u64) << 8u64) | ((b[at + 2] as u64) << 16u64) | ((b[at
        + 3] as u64) << 24u64) | ((b[at + 4] as u64) << 32u64) | ((b[at + 5] as u64) << 40u64)
        | ((b[at + 6] as u64) << 48u64) | ((b[at + 7] as u64) << 56u64)
}

/// The wire form of an envelope.
pub open spec fn envelope_bytes(m: MetaData) -> Seq<u8> {
    seq![m.request_type, 0u8, 0u8, 0u8, 0u8, 0u8, 0u8, 0u8] + u64_bytes(m.remote_address)
        + u64_bytes(m.message_size) + u32_bytes(m.rkey) + u32_bytes(m.lkey) + u32_bytes(
        m.iterations,
    ) + seq![0u8, 0u8, 0u8, 0u8]
}

/// The envelope that 40 bytes hold; padding is not read.
pub open spec fn envelope_of(b: Seq<u8>) -> MetaData {
    MetaData {
        request_type: b[0],
        remote_address: u64_at(b, 8),
        message_size: u64_at(b, 16),
        rkey: u32_at(b, 24),
        lkey: u32_at(b, 28),
        iterations: u32_at(b, 32),
    }
}

pub(crate) proof fn lemma_u64_round_trip(x: u64)
    ensures
        u64_at(u64_bytes(x), 0) == x,
{
    let b = u64_bytes(x);
    let b0 = (x & 0xff) as u8;
    let b1 = ((x >> 8u64) & 0xff) as u8;
    let b2 = ((x >> 16u64) & 0xff) as u8;
    let b3 = ((x >> 24u64) & 0xff) as u8;
    let b4 = ((x >> 32u64) & 0xff) as u8;
    let b5 = ((x >> 40u64) & 0xff) as u8;
    let b6 = ((x >> 48u64) & 0xff) as u8;
    let b7 = ((x >> 56u64) & 0xff) as u8;
    assert(b[0] == b0 && b[1] == b1 && b[2] == b2 && b[3] == b3 && b[4] == b4 && b[5] == b5
        && b[6] == b6 && b[7] == b7);
    assert((b0 as u64) | ((b1 as u64) << 8u64) | ((b2 as u64) << 16u64) | ((b3 as u64) << 24u64)
        | ((b4 as u64) << 32u64) | ((b5 as u64) << 40u64) | ((b6 as u64) << 48u64) | ((b7 as u64)
        << 56u64) == x) by (bit_vector)
        requires
            b0 == (x & 0xff) as u8,
            b1 == ((x >> 8u64) & 0xff) as u8,
            b2 == ((x >> 16u64) & 0xff) as u8,
            b3 == ((x >> 24u64) & 0xff) as u8,
            b4 == ((x >> 32u64) & 0xff) as u8,
            b5 == ((x >> 40u64) & 0xff) as u8,
            b6 == ((x >> 48u64) & 0xff) as u8,
            b7 == ((x >> 56u64) & 0xff) as u8,
    ;
}

pub(crate) proof fn lemma_u64_bytes_of_at(b: Seq<u8>, at: int)
    requires
        0 <= at,
        at + 8 <= b.len(),
    ensures
        u64_bytes(u64_at(b, at)) == b.subrange(at, at + 8),
{
    let c0 = b[at];
    let c1 = b[at + 1];
    let c2 = b[at + 2];
    let c3 = b[at + 3];
    let c4 = b[at + 4];
    let c5 = b[at + 5];
    let c6 = b[at + 6];
    let c7 = b[at + 7];
    let x = u64_at(b, at);
    assert(x == (c0 as u64) | ((c1 as u64) << 8u64) | ((c2 as u64) << 16u64) | ((c3 as u64)
        << 24u64) | ((c4 as u64) << 32u64) | ((c5 as u64) << 40u64) | ((c6 as u64) << 48u64) | ((
    c7 as u64) << 56u64));
    assert((x & 0xff) as u8 == c0 && ((x >> 8u64) & 0xff) as u8 == c1 && ((x >> 16u64) & 0xff) as u8
        == c2 && ((x >> 24u64) & 0xff) as u8 == c3 && ((x >> 32u64) & 0xff) as u8 == c4 && ((x
        >> 40u64) & 0xff) as u8 == c5 && ((x >> 48u64) & 0xff) as u8 == c6 && ((x >> 56u64)
        & 0xff) as u8 == c7) by (bit_vector)
        requires
            x == (c0 as u64) | ((c1 as u64) << 8u64) | ((c2 as u64) << 16u64) | ((c3 as u64)
                << 24u64) | ((c4 as u64) << 32u64) | ((c5 as u64) << 40u64) | ((c6 as u64)
                << 48u64) | ((c7 as u64) << 56u64),
    ;
    assert(u64_bytes(x) =~= b.subrange(at, at + 8));
}

proof fn lemma_u32_round_trip(x: u32)
    ensures
        u32_at(u32_bytes(x), 0) == x,
{
    let b = u32_bytes(x);
    let b0 = (x & 0xff) as u8;
    let b1 = ((x >> 8u32) & 0xff) as u8;
    let b2 = ((x >> 16u32) & 0xff) as u8;
    let b3 = ((x >> 24u32) & 0xff) as u8;
    assert(b[0] == b0 && b[1] == b1 && b[2] == b2 && b[3] == b3);
    assert((b0 as u32) | ((b1 as u32) << 8u32) | ((b2 as u32) << 16u32) | ((b3 as u32) << 24u32)
        == x) by (bit_vector)
        requires
            b0 == (x & 0xff) as u8,
            b1 == ((x >> 8u32) & 0xff) as u8,
            b2 == ((x >> 16u32) & 0xff) as u8,
            b3 == ((x >> 24u32) & 0xff) as u8,
    ;
}

pub(crate) proof fn lemma_shifted_u64(b: Seq<u8>, c: Seq<u8>, at: int)
    requires
        0 <= at,
        at + 8 <= b.len(),
        c.len() == 8,
        forall|k: int| 0 <= k < 8 ==> b[at + k] == c[k],
    ensures
        u64_at(b, at) == u64_at(c, 0),
{
    assert(b[at] == c[0] && b[at + 1] == c[1] && b[at + 2] == c[2] && b[at + 3] == c[3]);
    assert(b[at + 4] == c[4] && b[at + 5] == c[5] && b[at + 6] == c[6] && b[at + 7] == c[7]);
}

proof fn lemma_shifted_u32(b: Seq<u8>, c: Seq<u8>, at: int)
    requires
        0 <= at,
        at + 4 <= b.len(),
        c.len() == 4,
        forall|k: int| 0 <= k < 4 ==> b[at + k] == c[k],
    ensures
        u32_at(b, at) == u32_at(c, 0),
{
    assert(b[at] == c[0] && b[at + 1] == c[1] && b[at + 2] == c[2] && b[at + 3] == c[3]);
}

/// Decoding the encoding of an envelope gives the envelope back.
pub proof fn lemma_envelope_round_trip(m: MetaData)
    ensures
        envelope_bytes(m).len() == ENVELOPE_LEN,
        envelope_of(envelope_bytes(m)) == m,
{
    let b = envelope_bytes(m);
    assert(b.len() == 40);
    lemma_u64_round_trip(m.remote_address);
    lemma_u64_round_trip(m.message_size);
    lemma_u32_round_trip(m.rkey);
    lemma_u32_round_trip(m.lkey);
    lemma_u32_round_trip(m.iterations);
    lemma_shifted_u64(b, u64_bytes(m.remote_address), 8);
    lemma_shifted_u64(b, u64_bytes(m.message_size), 16);
    lemma_shifted_u32(b, u32_bytes(m.rkey), 24);
    lemma_shifted_u32(b, u32_bytes(m.lkey), 28);
    lemma_shifted_u32(b, u32_bytes(m.iterations), 32);
}

fn push_u64(out: &mut Vec<u8>, x: u64)
    ensures
        final(out)@ == old(out)@ + u64_bytes(x),
{
    let ghost start = out@;
    out.push((x & 0xff) as u8);
    out.push(((x >> 8u64) & 0xff) as u8);
    out.push(((x >> 16u64) & 0xff) as u8);
    out.push(((x >> 24u64) & 0xff) as u8);
    out.push(((x >> 32u64) & 0xff) as u8);
    out.push(((x >> 40u64) & 0xff) as u8);
    out.push(((x >> 48u64) & 0xff) as u8);
    out.push(((x >> 56u64) & 0xff) as u8);
    assert(out@ =~= start + u64_bytes(x));
}

fn push_u32(out: &mut Vec<u8>, x: u32)
    ensures
        final(out)@ == old(out)@ + u32_bytes(x),
{
    let ghost start = out@;
    out.push((x & 0xff) as u8);
    out.push(((x >> 8u32) & 0xff) as u8);
    out.push(((x >> 16u32) & 0xff) as u8);
    out.push(((x >> 24u32) & 0xff) as u8);
    assert(out@ =~= start + u32_bytes(x));
}

pub(crate) fn read_u64(b: &[u8], at: usize) -> (r: u64)
    requires
        at + 8 <= b@.len(),
    ensures
        r == u64_at(b@, at as int),
{
    (b[at] as u64) | ((b[at + 1] as u64) << 8u64) | ((b[at + 2] as u64) << 16u64) | ((b[at
        + 3] as u64) << 24u64) | ((b[at + 4] as u64) << 32u64) | ((b[at + 5] as u64) << 40u64)
        | ((b[at + 6] as u64) << 48u64) | ((b[at + 7] as u64) << 56u64)
}

fn read_u32(b: &[u8], at: usize) -> (r: u32)
    requires
        at + 4 <= b@.len(),
    ensures
        r == u32_at(b@, at as int),
{
    (b[at] as u32) | ((b[at + 1] as u32) << 8u32) | ((b[at + 2] as u32) << 16u32) | ((b[at
        + 3] as u32) << 24u32)
}

impl Default for MetaData {
    fn default() -> (r: MetaData)
        ensures
            r == (MetaData {
                request_type: 0,
                remote_address: 0,
                message_size: 0,
                rkey: 0,
                lkey: 0,
                iterations: 0,
            }),
    {
        MetaData {
            request_type: 0,
            remote_address: 0,
            message_size: 0,
            rkey: 0,
            lkey: 0,
            iterations: 0,
        }
    }
}

impl MetaData {
    /// Size in bytes of the encoded envelope.
    pub const LEN: usize = 40;

    /// The request type that the tag byte names.
    pub fn get_request_type(&self) -> (r: MetaDataRequestTypes)
        ensures
            r == request_of_code(self.request_type),
    {
        match self.request_type {
            0 => MetaDataRequestTypes::Disconnect,
            1 => MetaDataRequestTypes::WriteRequest,
            2 => MetaDataRequestTypes::WriteResponse,
            3 => MetaDataRequestTypes::WriteFinished,
            4 => MetaDataRequestTypes::SendRequest,
            5 => MetaDataRequestTypes::SendResponse,
            6 => MetaDataRequestTypes::SendFinished,
            7 => MetaDataRequestTypes::ReadRequest,
            8 => MetaDataRequestTypes::ReadResponse,
            9 => MetaDataRequestTypes::ReadFinished,
            _ => MetaDataRequestTypes::UnDef,
        }
    }

    /// Sets the tag byte to that of `request_type`.
    pub fn set_request_type(&mut self, request_type: MetaDataRequestTypes)
        ensures
            *final(self) == (MetaData { request_type: request_code(request_type), ..*old(self) }),
    {
        self.request_type = request_type.code();
    }

    pub fn set_message_size(&mut self, length: u64)
        ensures
            *final(self) == (MetaData { message_size: length, ..*old(self) }),
    {
        self.message_size = length;
    }

    pub fn set_rkey(&mut self, rkey: u32)
        ensures
            *final(self) == (MetaData { rkey, ..*old(self) }),
    {
        self.rkey = rkey;
    }

    pub fn set_remote_address(&mut self, remote_address: u64)
        ensures
            *final(self) == (MetaData { remote_address, ..*old(self) }),
    {
        self.remote_address = remote_address;
    }

    pub fn set_iterations(&mut self, iterations: u32)
        ensures
            *final(self) == (MetaData { iterations, ..*old(self) }),
    {
        self.iterations = iterations;
    }

    pub fn rkey(&self) -> (r: u32)
        ensures
            r == self.rkey,
    {
        self.rkey
    }

    pub fn remote_address(&self) -> (r: u64)
        ensures
            r == self.remote_address,
    {
        self.remote_address
    }

    pub fn message_size(&self) -> (r: u64)
        ensures
            r == self.message_size,
    {
        self.message_size
    }

    pub fn iterations(&self) -> (r: u32)
        ensures
            r == self.iterations,
    {
        self.iterations
    }

    /// The wire form of this envelope.
    pub fn to_bytes(&self) -> (r: Vec<u8>)
        ensures
            r@ == envelope_bytes(*self),
            r@.len() == ENVELOPE_LEN,
    {
        let mut out: Vec<u8> = Vec::new();
        out.push(self.request_type);
        let mut k: usize = 0;
        while k < 7
            invariant
                k <= 7,
                out@ == seq![self.request_type] + Seq::new(k as nat, |x: int| 0u8),
            decreases 7 - k,
        {
            out.push(0u8);
            k = k + 1;
            assert(out@ =~= seq![self.request_type] + Seq::new(k as nat, |x: int| 0u8));
        }
        assert(out@ =~= seq![self.request_type, 0u8, 0u8, 0u8, 0u8, 0u8, 0u8, 0u8]);
        push_u64(&mut out, self.remote_address);
        push_u64(&mut out, self.message_size);
        push_u32(&mut out, self.rkey);
        push_u32(&mut out, self.lkey);
        push_u32(&mut out, self.iterations);
        push_u32(&mut out, 0);
        proof {
            assert(u32_bytes(0) =~= seq![0u8, 0u8, 0u8, 0u8]) by {
                assert((0u32 & 0xff) as u8 == 0u8 && ((0u32 >> 8u32) & 0xff) as u8 == 0u8 && ((0u32
                    >> 16u32) & 0xff) as u8 == 0u8 && ((0u32 >> 24u32) & 0xff) as u8 == 0u8)
                    by (bit_vector);
            }
            lemma_envelope_round_trip(*self);
        }
        out
    }

    /// Reads an envelope from its wire form; `None` unless `b` holds exactly
    /// `ENVELOPE_LEN` bytes.
    pub fn from_bytes(b: &[u8]) -> (r: Option<MetaData>)
        ensures
            b@.len() == ENVELOPE_LEN ==> r == Some(envelope_of(b@)),
            b@.len() != ENVELOPE_LEN ==> r.is_none(),
    {
        if b.len() != ENVELOPE_LEN {
            return None;
        }
        Some(
            MetaData {
                request_type: b[0],
                remote_address: read_u64(b, 8),
                message_size: read_u64(b, 16),
                rkey: read_u32(b, 24),
                lkey: read_u32(b, 28),
                iterations: read_u32(b, 32),
            },
        )
    }
}

} // verus!
