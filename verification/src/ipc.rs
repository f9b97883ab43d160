//! Sway IPC message framing.
//!
//! A message is `i3-ipc`, the payload length and the payload type (both
//! 32-bit integers in the byte order of the machine that runs Sway), and then
//! the payload itself.

use vstd::prelude::*;

verus! {

/// Length of the `i3-ipc` magic string.
pub const MAGIC_STRING_LEN: usize = 6;

/// Size of the integers in Sway's IPC header.
pub const SWAYINT_SIZE: usize = 4;

/// Sway IPC header size (`<magic-string><payload-length><payload-type>`).
pub const HEADER_SIZE: usize = 14;

/// Maximum IPC message buffer size.
pub const MAX_BUFFER_SIZE: usize = 100_000;

/// The bytes of the magic string `i3-ipc`.
pub open spec fn magic() -> Seq<u8> {
    seq![0x69u8, 0x33u8, 0x2du8, 0x69u8, 0x70u8, 0x63u8]
}

/// Order of the bytes of a 32-bit integer on the wire.
#[derive(Clone, Copy, PartialEq, Eq, Structural, Debug)]
pub enum ByteOrder {
    Little,
    Big,
}

/// The integer that four bytes stand for in the given byte order.
pub open spec fn u32_from_bytes(b: Seq<u8>, order: ByteOrder) -> int {
    match order {
        ByteOrder::Little => b[0] + 256 * b[1] + 65536 * b[2] + 16777216 * b[3],
        ByteOrder::Big => b[3] + 256 * b[2] + 65536 * b[1] + 16777216 * b[0],
    }
}

/// The four bytes of an integer in the given byte order.
pub open spec fn u32_to_bytes(x: u32, order: ByteOrder) -> Seq<u8> {
    let b0 = (x % 256) as u8;
    let b1 = ((x / 256) % 256) as u8;
    let b2 = ((x / 65536) % 256) as u8;
    let b3 = (x / 16777216) as u8;
    match order {
        ByteOrder::Little => seq![b0, b1, b2, b3],
        ByteOrder::Big => seq![b3, b2, b1, b0],
    }
}

/// Reading back the bytes of an integer gives the integer.
pub proof fn lemma_u32_bytes_roundtrip(x: u32, order: ByteOrder)
    ensures
        u32_to_bytes(x, order).len() == 4,
        u32_from_bytes(u32_to_bytes(x, order), order) == x,
{
    let b0 = x % 256;
    let b1 = (x / 256) % 256;
    let b2 = (x / 65536) % 256;
    let b3 = x / 16777216;
    assert(b0 + 256 * b1 + 65536 * b2 + 16777216 * b3 == x) by (bit_vector)
        requires
            b0 == x % 256,
            b1 == (x / 256) % 256,
            b2 == (x / 65536) % 256,
            b3 == x / 16777216,
    ;
    assert(b3 < 256) by (bit_vector)
        requires
            b3 == x / 16777216,
    ;
}

/// Decodes the integer at `start..start + 4` of `bytes`.
pub fn decode_u32(bytes: &Vec<u8>, start: usize, order: ByteOrder) -> (r: u32)
    requires
        start + 4 <= bytes.len(),
    ensures
        r == u32_from_bytes(bytes@.subrange(start as int, start + 4), order),
{
    let b0 = bytes[start] as u32;
    let b1 = bytes[start + 1] as u32;
    let b2 = bytes[start + 2] as u32;
    let b3 = bytes[start + 3] as u32;
    let ghost s = bytes@.subrange(start as int, start + 4);
    assert(s[0] == b0 && s[1] == b1 && s[2] == b2 && s[3] == b3);
    match order {
        ByteOrder::Little => b0 + 256 * b1 + 65536 * b2 + 16777216 * b3,
        ByteOrder::Big => b3 + 256 * b2 + 65536 * b1 + 16777216 * b0,
    }
}

/// Appends the four bytes of `x` to `out`.
pub fn push_u32(out: &mut Vec<u8>, x: u32, order: ByteOrder)
    ensures
        final(out)@ == old(out)@ + u32_to_bytes(x, order),
{
    let b0 = (x % 256) as u8;
    let b1 = ((x / 256) % 256) as u8;
    let b2 = ((x / 65536) % 256) as u8;
    assert(x / 16777216 < 256) by (bit_vector);
    let b3 = (x / 16777216) as u8;
    match order {
        ByteOrder::Little => {
            out.push(b0);
            out.push(b1);
            out.push(b2);
            out.push(b3);
        },
        ByteOrder::Big => {
            out.push(b3);
            out.push(b2);
            out.push(b1);
            out.push(b0);
        },
    }
    assert(final(out)@ =~= old(out)@ + u32_to_bytes(x, order));
}

/// Sway IPC message types.
#[derive(Clone, Copy, PartialEq, Eq, Structural, Debug)]
pub enum PayloadType {
    Subscribe,
    GetTree,
    EventWorkspace,
    EventWindow,
    Unknown,
}

/// The number that stands for a payload type on the wire.
pub open spec fn payload_code(t: PayloadType) -> u32 {
    match t {
        PayloadType::Subscribe => 2,
        PayloadType::GetTree => 4,
        PayloadType::EventWorkspace => 0x80000000,
        PayloadType::EventWindow => 0x80000003,
        PayloadType::Unknown => 0xffffffff,
    }
}

/// The payload type that a number on the wire stands for.
pub open spec fn payload_type_of(number: u32) -> PayloadType {
    if number == 2 {
        PayloadType::Subscribe
    } else if number == 4 {
        PayloadType::GetTree
    } else if number == 0x80000000 {
        PayloadType::EventWorkspace
    } else if number == 0x80000003 {
        PayloadType::EventWindow
    } else {
        PayloadType::Unknown
    }
}

impl PayloadType {
    /// The number of this payload type.
    pub fn code(&self) -> (r: u32)
        ensures
            r == payload_code(*self),
    {
        match self {
            PayloadType::Subscribe => 2,
            PayloadType::GetTree => 4,
            PayloadType::EventWorkspace => 0x80000000,
            PayloadType::EventWindow => 0x80000003,
            PayloadType::Unknown => 0xffffffff,
        }
    }

    /// Get payload bytes in Sway IPC message format.
    pub fn as_bytes(&self, order: ByteOrder) -> (r: Vec<u8>)
        ensures
            r@ == u32_to_bytes(payload_code(*self), order),
    {
        let mut out: Vec<u8> = Vec::new();
        push_u32(&mut out, self.code(), order);
        assert(out@ =~= u32_to_bytes(payload_code(*self), order));
        out
    }
}

impl From<u32> for PayloadType {
    fn from(number: u32) -> (r: Self) {
        if number == 2 {
            PayloadType::Subscribe
        } else if number == 4 {
            PayloadType::GetTree
        } else if number == 0x80000000 {
            PayloadType::EventWorkspace
        } else if number == 0x80000003 {
            PayloadType::EventWindow
        } else {
            PayloadType::Unknown
        }
    }
}

impl vstd::std_specs::convert::FromSpecImpl<u32> for PayloadType {
    open spec fn obeys_from_spec() -> bool {
        true
    }

    open spec fn from_spec(v: u32) -> Self {
        payload_type_of(v)
    }
}

/// Every payload type is read back from its number.
pub proof fn lemma_payload_code_roundtrip(t: PayloadType)
    ensures
        payload_type_of(payload_code(t)) == t,
{
}

/// The bytes of a whole message.
pub open spec fn encode_message(t: PayloadType, payload: Seq<u8>, order: ByteOrder) -> Seq<u8> {
    magic() + u32_to_bytes(payload.len() as u32, order) + u32_to_bytes(payload_code(t), order)
        + payload
}

/// Builds a message: header and payload.
pub fn encode(payload_type: PayloadType, payload: &Vec<u8>, order: ByteOrder) -> (r: Vec<u8>)
    ensures
        r@ == encode_message(payload_type, payload@, order),
{
    let mut out: Vec<u8> = Vec::new();
    out.push(0x69u8);
    out.push(0x33u8);
    out.push(0x2du8);
    out.push(0x69u8);
    out.push(0x70u8);
    out.push(0x63u8);
    assert(out@ =~= magic());
    #[verifier::truncate]
    let len = payload.len() as u32;
    push_u32(&mut out, len, order);
    push_u32(&mut out, payload_type.code(), order);
    let ghost before = out@;
    let mut i: usize = 0;
    while i < payload.len()
        invariant
            i <= payload.len(),
            out@ == before + payload@.take(i as int),
        decreases payload.len() - i,
    {
        out.push(payload[i]);
        i += 1;
        assert(out@ =~= before + payload@.take(i as int));
    }
    assert(payload@.take(payload.len() as int) =~= payload@);
    out
}

/// The payload of the request that subscribes to workspace and window events:
/// `["workspace", "window"]`.
pub open spec fn subscribe_payload() -> Seq<u8> {
    seq![
        0x5bu8, 0x22u8, 0x77u8, 0x6fu8, 0x72u8, 0x6bu8, 0x73u8, 0x70u8, 0x61u8, 0x63u8, 0x65u8,
        0x22u8, 0x2cu8, 0x20u8, 0x22u8, 0x77u8, 0x69u8, 0x6eu8, 0x64u8, 0x6fu8, 0x77u8, 0x22u8,
        0x5du8,
    ]
}

/// The message that subscribes to Sway's workspace and window events.
pub fn subscribe_request(order: ByteOrder) -> (r: Vec<u8>)
    ensures
        r@ == encode_message(PayloadType::Subscribe, subscribe_payload(), order),
{
    let payload: Vec<u8> = vec![
        0x5bu8, 0x22u8, 0x77u8, 0x6fu8, 0x72u8, 0x6bu8, 0x73u8, 0x70u8, 0x61u8, 0x63u8, 0x65u8,
        0x22u8, 0x2cu8, 0x20u8, 0x22u8, 0x77u8, 0x69u8, 0x6eu8, 0x64u8, 0x6fu8, 0x77u8, 0x22u8,
        0x5du8,
    ];
    assert(payload@ =~= subscribe_payload());
    encode(PayloadType::Subscribe, &payload, order)
}

/// The message that asks Sway for its layout tree.
pub fn get_tree_request(order: ByteOrder) -> (r: Vec<u8>)
    ensures
        r@ == encode_message(PayloadType::GetTree, Seq::<u8>::empty(), order),
{
    let payload: Vec<u8> = Vec::new();
    encode(PayloadType::GetTree, &payload, order)
}

/// What the bytes received so far hold.
pub enum Frame {
    /// Fewer bytes than a header.
    NeedHeader,
    /// The bytes do not start with the magic string.
    BadMagic,
    /// The header is there, the payload not yet all: `size` is the size of the whole message.
    NeedPayload { size: nat },
    /// A whole message, with the number of its payload type and its payload.
    Complete { code: u32, payload: Seq<u8> },
}

/// Classifies the bytes received so far.
pub open spec fn frame_of(received: Seq<u8>, order: ByteOrder) -> Frame {
    if received.len() < HEADER_SIZE {
        Frame::NeedHeader
    } else if received.take(MAGIC_STRING_LEN as int) != magic() {
        Frame::BadMagic
    } else {
        let length = u32_from_bytes(received.subrange(6, 10), order);
        let size = HEADER_SIZE + length;
        if received.len() < size {
            Frame::NeedPayload { size: size as nat }
        } else {
            Frame::Complete {
                code: u32_from_bytes(received.subrange(10, 14), order) as u32,
                payload: received.subrange(HEADER_SIZE as int, size),
            }
        }
    }
}

/// A whole message, followed by anything, frames as that message.
pub proof fn lemma_encoded_message_frames(
    t: PayloadType,
    payload: Seq<u8>,
    rest: Seq<u8>,
    order: ByteOrder,
)
    requires
        payload.len() <= u32::MAX,
    ensures
        frame_of(encode_message(t, payload, order) + rest, order) == (Frame::Complete {
            code: payload_code(t),
            payload,
        }),
{
    let m = encode_message(t, payload, order);
    let r = m + rest;
    lemma_u32_bytes_roundtrip(payload.len() as u32, order);
    lemma_u32_bytes_roundtrip(payload_code(t), order);
    assert(r.take(MAGIC_STRING_LEN as int) =~= magic());
    assert(r.subrange(6, 10) =~= u32_to_bytes(payload.len() as u32, order));
    assert(r.subrange(10, 14) =~= u32_to_bytes(payload_code(t), order));
    assert(r.subrange(HEADER_SIZE as int, HEADER_SIZE + payload.len()) =~= payload);
}

/// Any part of a message received so far frames as incomplete, asking for
/// the header or for the message's full size: a message arriving in pieces is
/// never mistaken for a bad or a different one.
pub proof fn lemma_partial_message_frames(
    t: PayloadType,
    payload: Seq<u8>,
    received_len: int,
    order: ByteOrder,
)
    requires
        payload.len() <= u32::MAX,
        0 <= received_len < encode_message(t, payload, order).len(),
    ensures
        frame_of(encode_message(t, payload, order).take(received_len), order) == if received_len
            < HEADER_SIZE {
            Frame::NeedHeader
        } else {
            Frame::NeedPayload { size: (HEADER_SIZE + payload.len()) as nat }
        },
{
    let m = encode_message(t, payload, order);
    let r = m.take(received_len);
    lemma_u32_bytes_roundtrip(payload.len() as u32, order);
    lemma_u32_bytes_roundtrip(payload_code(t), order);
    if received_len >= HEADER_SIZE {
        assert(r.take(MAGIC_STRING_LEN as int) =~= magic());
        assert(r.subrange(6, 10) =~= u32_to_bytes(payload.len() as u32, order));
    }
}

/// The receive buffer of the Sway socket.
pub struct MessageBuffer {
    buffer: Vec<u8>,
    bytes_read: usize,
    order: ByteOrder,
}

impl MessageBuffer {
    /// Well-formedness: the buffer holds at least a header, at most
    /// `MAX_BUFFER_SIZE` bytes, and the filled part lies within it.
    pub open spec fn wf(&self) -> bool {
        &&& HEADER_SIZE <= self.bytes().len() <= MAX_BUFFER_SIZE
        &&& self.filled() <= self.bytes().len()
    }

    /// The whole buffer, filled part and the rest.
    pub closed spec fn bytes(&self) -> Seq<u8> {
        self.buffer@
    }

    /// How many bytes of the buffer are filled.
    pub closed spec fn filled(&self) -> nat {
        self.bytes_read as nat
    }

    /// The byte order of the integers in the header.
    pub closed spec fn byte_order(&self) -> ByteOrder {
        self.order
    }

    /// The bytes received and not yet consumed.
    pub open spec fn received(&self) -> Seq<u8> {
        self.bytes().take(self.filled() as int)
    }

    /// An empty buffer with room for a header.
    pub fn new(order: ByteOrder) -> (r: Self)
        ensures
            r.wf(),
            r.bytes() == Seq::new(HEADER_SIZE as nat, |i: int| 0u8),
            r.filled() == 0,
            r.byte_order() == order,
    {
        let buffer: Vec<u8> = vec![0u8; HEADER_SIZE];
        let r = MessageBuffer { buffer, bytes_read: 0, order };
        assert(r.bytes() =~= Seq::new(HEADER_SIZE as nat, |i: int| 0u8));
        r
    }

    /// The size of the buffer.
    pub fn len(&self) -> (r: usize)
        requires
            self.wf(),
        ensures
            r == self.bytes().len(),
    {
        self.buffer.len()
    }

    /// How many more bytes fit into the buffer.
    pub fn free_space(&self) -> (r: usize)
        requires
            self.wf(),
        ensures
            r == self.bytes().len() - self.filled(),
    {
        self.buffer.len() - self.bytes_read
    }

    /// Stores bytes read from the socket behind those already received.
    pub fn receive(&mut self, data: &[u8])
        requires
            old(self).wf(),
            data@.len() <= old(self).bytes().len() - old(self).filled(),
        ensures
            final(self).wf(),
            final(self).filled() == old(self).filled() + data@.len(),
            final(self).received() == old(self).received() + data@,
            final(self).bytes() == old(self).bytes().take(old(self).filled() as int) + data@
                + old(self).bytes().skip((old(self).filled() + data@.len()) as int),
            final(self).byte_order() == old(self).byte_order(),
    {
        let ghost old_bytes = self.buffer@;
        let start = self.bytes_read;
        let mut i: usize = 0;
        while i < data.len()
            invariant
                start == old(self).bytes_read,
                start + data@.len() <= self.buffer@.len(),
                self.buffer@.len() == old_bytes.len(),
                old_bytes.len() <= MAX_BUFFER_SIZE,
                old_bytes == old(self).buffer@,
                i <= data@.len(),
                self.buffer@ == old_bytes.take(start as int) + data@.take(i as int) + old_bytes.skip(
                    start + i,
                ),
                self.bytes_read == start,
                self.order == old(self).order,
            decreases data@.len() - i,
        {
            assert(start + i < self.buffer@.len());
            self.buffer.set(start + i, data[i]);
            i += 1;
            assert(self.buffer@ =~= old_bytes.take(start as int) + data@.take(i as int)
                + old_bytes.skip(start + i));
        }
        assert(data@.take(data@.len() as int) =~= data@);
        self.bytes_read = start + data.len();
        assert(self.received() =~= old(self).received() + data@);
    }

    /// Parses the bytes received as a message, giving the number of its
    /// payload type and its payload; the effects are those of `parse_message`.
    fn parse_frame(&mut self) -> (r: Option<(u32, Vec<u8>)>)
        requires
            old(self).wf(),
        ensures
            final(self).wf(),
            final(self).byte_order() == old(self).byte_order(),
            match frame_of(old(self).received(), old(self).byte_order()) {
                Frame::NeedHeader => r is None && *final(self) == *old(self),
                Frame::BadMagic => {
                    &&& r is None
                    &&& final(self).filled() == 0
                    &&& final(self).bytes() == old(self).bytes()
                },
                Frame::NeedPayload { size } => {
                    &&& r is None
                    &&& final(self).filled() == old(self).filled()
                    &&& final(self).bytes() == if old(self).bytes().len() < size
                        && size <= MAX_BUFFER_SIZE {
                        old(self).bytes() + Seq::new(
                            (size - old(self).bytes().len()) as nat,
                            |i: int| 0u8,
                        )
                    } else {
                        old(self).bytes()
                    }
                },
                Frame::Complete { code, payload } => {
                    &&& r matches Some((c, p)) && c == code && p@ == payload
                    &&& *final(self) == *old(self)
                },
            },
    {
        let ghost received = self.buffer@.take(self.bytes_read as int);
        // Skip processing if header is not yet done.
        if self.bytes_read < HEADER_SIZE {
            return None;
        }
        // Ensure magic string is present.
        if !(self.buffer[0] == 0x69u8 && self.buffer[1] == 0x33u8 && self.buffer[2] == 0x2du8
            && self.buffer[3] == 0x69u8 && self.buffer[4] == 0x70u8 && self.buffer[5] == 0x63u8) {
            proof {
                if received.take(MAGIC_STRING_LEN as int) == magic() {
                    assert(received.take(MAGIC_STRING_LEN as int)[0] == magic()[0]);
                    assert(received.take(MAGIC_STRING_LEN as int)[1] == magic()[1]);
                    assert(received.take(MAGIC_STRING_LEN as int)[2] == magic()[2]);
                    assert(received.take(MAGIC_STRING_LEN as int)[3] == magic()[3]);
                    assert(received.take(MAGIC_STRING_LEN as int)[4] == magic()[4]);
                    assert(received.take(MAGIC_STRING_LEN as int)[5] == magic()[5]);
                }
            }
            self.bytes_read = 0;
            return None;
        }
        assert(received.take(MAGIC_STRING_LEN as int) =~= magic());
        // Parse payload length.
        let payload_length = decode_u32(&self.buffer, MAGIC_STRING_LEN, self.order);
        assert(received.subrange(6, 10) =~= self.buffer@.subrange(6, 10));
        // Skip processing if payload is not yet done.
        let message_size: u64 = HEADER_SIZE as u64 + payload_length as u64;
        if (self.bytes_read as u64) < message_size {
            if (self.buffer.len() as u64) < message_size && message_size <= MAX_BUFFER_SIZE as u64 {
                let ghost before = self.buffer@;
                self.buffer.resize(message_size as usize, 0u8);
                assert(self.buffer@ =~= before + Seq::new(
                    (message_size - before.len()) as nat,
                    |i: int| 0u8,
                ));
            }
            return None;
        }
        // Parse payload type.
        let code = decode_u32(&self.buffer, MAGIC_STRING_LEN + SWAYINT_SIZE, self.order);
        assert(received.subrange(10, 14) =~= self.buffer@.subrange(10, 14));
        // Get payload data.
        let end = HEADER_SIZE + payload_length as usize;
        let mut payload: Vec<u8> = Vec::new();
        let mut i: usize = HEADER_SIZE;
        while i < end
            invariant
                HEADER_SIZE <= i <= end,
                end <= self.buffer@.len(),
                payload@ == self.buffer@.subrange(HEADER_SIZE as int, i as int),
            decreases end - i,
        {
            payload.push(self.buffer[i]);
            i += 1;
            assert(payload@ =~= self.buffer@.subrange(HEADER_SIZE as int, i as int));
        }
        assert(received.subrange(HEADER_SIZE as int, end as int) =~= payload@);
        Some((code, payload))
    }

    /// Attempt to parse current buffer as a Sway IPC message.
    ///
    /// An incomplete header leaves the buffer as it is; a wrong magic string
    /// drops everything received; an incomplete payload grows the buffer to
    /// the message's size when that is no more than `MAX_BUFFER_SIZE`.
    pub fn parse_message(&mut self) -> (r: Option<(PayloadType, Vec<u8>)>)
        requires
            old(self).wf(),
        ensures
            final(self).wf(),
            final(self).byte_order() == old(self).byte_order(),
            match frame_of(old(self).received(), old(self).byte_order()) {
                Frame::NeedHeader => r is None && *final(self) == *old(self),
                Frame::BadMagic => {
                    &&& r is None
                    &&& final(self).filled() == 0
                    &&& final(self).bytes() == old(self).bytes()
                },
                Frame::NeedPayload { size } => {
                    &&& r is None
                    &&& final(self).filled() == old(self).filled()
                    &&& final(self).bytes() == if old(self).bytes().len() < size
                        && size <= MAX_BUFFER_SIZE {
                        old(self).bytes() + Seq::new(
                            (size - old(self).bytes().len()) as nat,
                            |i: int| 0u8,
                        )
                    } else {
                        old(self).bytes()
                    }
                },
                Frame::Complete { code, payload } => {
                    &&& r matches Some((t, p)) && t == payload_type_of(code) && p@ == payload
                    &&& *final(self) == *old(self)
                },
            },
    {
        match self.parse_frame() {
            Some((code, payload)) => Some((PayloadType::from(code), payload)),
            None => None,
        }
    }

    /// Removes a processed message of `message_len` bytes from the front of
    /// the buffer; the buffer keeps its size.
    pub fn consume(&mut self, message_len: usize)
        requires
            old(self).wf(),
            message_len <= old(self).bytes().len(),
        ensures
            final(self).wf(),
            final(self).bytes() == old(self).bytes().skip(message_len as int) + old(
                self,
            ).bytes().take(message_len as int),
            final(self).filled() == if message_len <= old(self).filled() {
                old(self).filled() - message_len
            } else {
                0
            },
            message_len <= old(self).filled() ==> final(self).received() == old(
                self,
            ).received().skip(message_len as int),
            final(self).byte_order() == old(self).byte_order(),
    {
        let len = self.buffer.len();
        let mut rotated: Vec<u8> = Vec::with_capacity(len);
        let mut i: usize = message_len;
        while i < len
            invariant
                message_len <= i <= len,
                len == self.buffer@.len(),
                rotated@ == self.buffer@.subrange(message_len as int, i as int),
            decreases len - i,
        {
            rotated.push(self.buffer[i]);
            i += 1;
            assert(rotated@ =~= self.buffer@.subrange(message_len as int, i as int));
        }
        let mut j: usize = 0;
        while j < message_len
            invariant
                j <= message_len <= len,
                len == self.buffer@.len(),
                rotated@ == self.buffer@.skip(message_len as int) + self.buffer@.take(j as int),
            decreases message_len - j,
        {
            rotated.push(self.buffer[j]);
            j += 1;
            assert(rotated@ =~= self.buffer@.skip(message_len as int) + self.buffer@.take(
                j as int,
            ));
        }
        let ghost old_received = self.buffer@.take(self.bytes_read as int);
        self.buffer = rotated;
        self.bytes_read = if message_len <= self.bytes_read {
            self.bytes_read - message_len
        } else {
            0
        };
        assert(message_len <= old(self).filled() ==> self.received() =~= old_received.skip(
            message_len as int,
        ));
    }

    /// One step of reading from the Sway socket: stores `data` behind the
    /// bytes received, and where they now hold a whole message, removes it
    /// from the buffer and returns the number of its payload type and its
    /// payload. The buffer stays well formed whatever arrives.
    pub fn receive_message(&mut self, data: &[u8]) -> (r: Option<(u32, Vec<u8>)>)
        requires
            old(self).wf(),
            data@.len() <= old(self).bytes().len() - old(self).filled(),
        ensures
            final(self).wf(),
            final(self).byte_order() == old(self).byte_order(),
            match frame_of(old(self).received() + data@, old(self).byte_order()) {
                Frame::NeedHeader => {
                    &&& r is None
                    &&& final(self).received() == old(self).received() + data@
                    &&& final(self).bytes().len() == old(self).bytes().len()
                },
                Frame::BadMagic => {
                    &&& r is None
                    &&& final(self).received() == Seq::<u8>::empty()
                    &&& final(self).bytes().len() == old(self).bytes().len()
                },
                Frame::NeedPayload { size } => {
                    &&& r is None
                    &&& final(self).received() == old(self).received() + data@
                    &&& final(self).bytes().len() == if old(self).bytes().len() < size && size
                        <= MAX_BUFFER_SIZE {
                        size
                    } else {
                        old(self).bytes().len()
                    }
                },
                Frame::Complete { code, payload } => {
                    &&& r matches Some((c, p)) && c == code && p@ == payload
                    &&& final(self).received() == (old(self).received() + data@).skip(
                        HEADER_SIZE + payload.len(),
                    )
                    &&& final(self).bytes().len() == old(self).bytes().len()
                },
            },
    {
        self.receive(data);
        let ghost received = self.received();
        let message = self.parse_frame();
        match message {
            Some((code, payload)) => {
                // Remove parsed bytes from our buffer.
                let message_len = HEADER_SIZE + payload.len();
                self.consume(message_len);
                Some((code, payload))
            },
            None => {
                assert(self.filled() == 0 ==> self.received() =~= Seq::<u8>::empty());
                None
            },
        }
    }
}

/// What to do with a message from Sway.
#[derive(Clone, Copy, PartialEq, Eq, Structural, Debug)]
pub enum IpcAction {
    /// Parse the payload as the layout tree and redraw the workspaces.
    UpdateTree,
    /// Ask Sway for the full layout tree.
    RequestTree,
    /// Nothing to do.
    Ignore,
}

/// Decides what a message of the given type asks for: the tree is processed,
/// workspace and window events ask for a fresh tree.
pub fn action_for(payload_type: PayloadType) -> (r: IpcAction)
    ensures
        r == match payload_type {
            PayloadType::GetTree => IpcAction::UpdateTree,
            PayloadType::EventWorkspace | PayloadType::EventWindow => IpcAction::RequestTree,
            PayloadType::Subscribe | PayloadType::Unknown => IpcAction::Ignore,
        },
{
    match payload_type {
        PayloadType::GetTree => IpcAction::UpdateTree,
        PayloadType::EventWorkspace | PayloadType::EventWindow => IpcAction::RequestTree,
        PayloadType::Subscribe | PayloadType::Unknown => IpcAction::Ignore,
    }
}

/// Calls `u32::from_ne_bytes`, which reads the bytes in the byte order of the
/// machine the program runs on. Which of the two orders that is depends on the
/// machine, so the contract says only that the result is one of the two readings.
#[verifier::external_body]
fn u32_from_native_bytes(bytes: [u8; 4]) -> (r: u32)
    ensures
        r == u32_from_bytes(bytes@, ByteOrder::Little) || r == u32_from_bytes(
            bytes@,
            ByteOrder::Big,
        ),
{
    u32::from_ne_bytes(bytes)
}

/// The byte order in which the bytes `1, 0, 0, 0` read as `probe`: little
/// endian where they read as 1, else big endian.
pub fn byte_order_of(probe: u32) -> (r: ByteOrder)
    ensures
        r == if probe == 1 {
            ByteOrder::Little
        } else {
            ByteOrder::Big
        },
{
    if probe == 1 {
        ByteOrder::Little
    } else {
        ByteOrder::Big
    }
}

/// The byte order of this machine, which Sway uses for its header integers:
/// `byte_order_of` the value the machine reads from the bytes `1, 0, 0, 0`.
/// Which order that is depends on the machine, so the contract does not say.
pub fn native_byte_order() -> ByteOrder {
    let probe = u32_from_native_bytes([1u8, 0u8, 0u8, 0u8]);
    byte_order_of(probe)
}

} // verus!
