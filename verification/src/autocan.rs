//! The AutoCAN wire format: framed messages with a packed header and a CRC-8.
//!
//! A frame is six bytes (sync, three header bytes, a zero byte, checksum) or
//! fourteen (the same five bytes, eight payload bytes, checksum). Bit 5 of
//! byte 1 tells which. The checksum covers everything between the sync byte
//! and itself.

pub mod crc;
pub mod define;
pub mod resync;
pub mod wire;

use crate::autocan::crc::{crc_calculate_range, crc_of};
use crate::autocan::define::{pack, unpack, Fields, Header, SYNC};
use crate::autocan::resync::{
    candidate_at, lemma_resume_point_is, lemma_scan_remainder, padded, rejected_at, scan,
};
use crate::autocan::wire::{
    be_bytes, be_signed, be_unsigned, lemma_be_bytes_len, lemma_be_bytes_step,
    lemma_signed_round_trip, lemma_unsigned_round_trip, span,
};
use vstd::arithmetic::div_mod::lemma_fundamental_div_mod_converse;
use vstd::prelude::*;
use vstd::slice::slice_subrange;

verus! {

/// Length of a frame without payload.
pub const SHORT_FRAME: usize = 6;

/// Length of a frame with payload.
pub const LONG_FRAME: usize = 14;

/// Index of the first payload byte.
pub const PAYLOAD_BEGIN: usize = 5;

/// Index after the last payload byte: the checksum of a long frame.
pub const PAYLOAD_END: usize = 13;

/// The length of the frame whose header byte 1 is `byte1`.
pub open spec fn announced_len(byte1: u8) -> int {
    if byte1 & 0x20 != 0 {
        14
    } else {
        6
    }
}

/// Whether `frame` is one well-formed frame: it opens with the sync byte, has
/// the length that its header announces, and ends with the checksum of the
/// bytes between.
pub open spec fn is_frame(frame: Seq<u8>) -> bool {
    &&& frame.len() >= 6
    &&& frame[0] == SYNC
    &&& frame.len() == announced_len(frame[1])
    &&& frame.last() == crc_of(frame.subrange(1, frame.len() - 1))
}

/// The fourteen bytes of a message made from `fields`: the header, a zero
/// payload and, for a short frame, the checksum at index 5.
pub open spec fn fresh_bytes(fields: Fields) -> Seq<u8> {
    let blank = pack(fields) + Seq::new(9, |i: int| 0u8);
    if fields.data_field {
        blank
    } else {
        blank.update(5, crc_of(blank.subrange(1, 5)))
    }
}

/// `bytes` with the checksum stamped where the header says the frame ends.
pub open spec fn sealed_bytes(bytes: Seq<u8>) -> Seq<u8> {
    let end = announced_len(bytes[1]) - 1;
    bytes.update(end, crc_of(bytes.subrange(1, end)))
}

/// Bytes received and not yet cut into frames, in a fixed array of `LEN`
/// bytes. The received bytes always start at index 0.
pub struct MessageBuffer<const LEN: usize> {
    buffer: [u8; LEN],
    cursor: usize,
}

/// A message buffer of fourteen bytes that holds one frame, short or long.
#[derive(Clone, Copy, Debug)]
pub struct Message([u8; 14]);

/// Writes payload values into a message, front to back. The message comes
/// back only through [`MessageWriter::finish`], which stamps the checksum.
pub struct MessageWriter {
    msg: Message,
    cursor: usize,
}

/// Reads payload values from a message, front to back.
pub struct MessageReader<'a> {
    msg: &'a Message,
    cursor: usize,
}

impl<const LEN: usize> View for MessageBuffer<LEN> {
    type V = Seq<u8>;

    /// The bytes received and not yet consumed.
    closed spec fn view(&self) -> Seq<u8> {
        self.buffer@.take(self.cursor as int)
    }
}

impl<const LEN: usize> Default for MessageBuffer<LEN> {
    /// An empty buffer.
    fn default() -> (buffer: Self)
        ensures
            buffer@ == Seq::<u8>::empty(),
            buffer.spare().len() == LEN,
    {
        let buffer = Self { buffer: [0u8; LEN], cursor: 0 };
        assert(buffer@ =~= Seq::<u8>::empty());
        buffer
    }
}

impl<const LEN: usize> MessageBuffer<LEN> {
    #[verifier::type_invariant]
    spec fn within_capacity(self) -> bool {
        self.cursor <= LEN
    }

    /// The free bytes after the received ones, as they stand.
    pub closed spec fn spare(self) -> Seq<u8> {
        self.buffer@.skip(self.cursor as int)
    }

    /// The free part of the buffer, for the next read to fill.
    pub fn as_buf<'a>(&'a mut self) -> (free: &'a mut [u8])
        ensures
            free@ == old(self).spare(),
            final(self).spare() == final(free)@,
            final(self)@ == old(self)@,
            old(self)@.len() + free@.len() == LEN,
    {
        proof {
            use_type_invariant(&*self);
        }
        let ghost before = self.buffer@;
        let at = self.cursor;
        let (used, free) = self.buffer.split_at_mut(at);
        assert(used@ + free@ =~= before);
        free
    }

    /// Takes the first `n` free bytes into the received ones.
    pub fn notify_received(&mut self, n: usize)
        requires
            n <= old(self).spare().len(),
        ensures
            final(self)@ == old(self)@ + old(self).spare().take(n as int),
            final(self).spare() == old(self).spare().skip(n as int),
    {
        proof {
            use_type_invariant(&*self);
        }
        self.cursor += n;
        assert(self@ =~= old(self)@ + old(self).spare().take(n as int));
        assert(self.spare() =~= old(self).spare().skip(n as int));
    }

    /// Drops the first `count` received bytes and moves the rest to the front.
    fn move_forward(&mut self, count: usize)
        requires
            count <= old(self)@.len(),
        ensures
            final(self)@ == old(self)@.skip(count as int),
    {
        proof {
            use_type_invariant(&*self);
        }
        let len = self.cursor - count;
        let mut i: usize = 0;
        while i < len
            invariant
                i <= len,
                len + count == self.cursor,
                self.cursor == old(self).cursor,
                self.cursor <= LEN,
                self.buffer@.skip(i + count) == old(self).buffer@.skip(i + count),
                self.buffer@.take(i as int) == old(self).buffer@.subrange(
                    count as int,
                    count + i,
                ),
            decreases len - i,
        {
            let ghost before = self.buffer@;
            let byte = self.buffer[i + count];
            assert(byte == before.skip(i + count)[0]);
            self.buffer[i] = byte;
            assert(self.buffer@.skip(i + 1 + count) =~= before.skip(i + count).skip(1));
            assert(self.buffer@.take(i + 1) =~= before.take(i as int).push(byte));
            assert(old(self).buffer@.subrange(count as int, count + i + 1) =~= old(
                self,
            ).buffer@.subrange(count as int, count + i).push(byte));
            i += 1;
        }
        self.cursor = len;
        assert(self@ =~= old(self)@.skip(count as int));
    }

    /// Cuts the next frame from the received bytes, if they hold one.
    ///
    /// Bytes before the frame are dropped with it. Without a frame, the bytes
    /// before the position where the scan waits are dropped, and what stays
    /// is moved to the front.
    pub fn next(&mut self) -> (found: Option<Message>)
        ensures
            scan(old(self)@) == (
                match found {
                    Some(msg) => Some(msg@),
                    None => None,
                },
                final(self)@,
            ),
            found is Some ==> is_frame(found->0.wire()),
            found is None ==> final(self)@.len() < LONG_FRAME,
            found is None && final(self)@.len() > 0 ==> final(self)@[0] == SYNC,
    {
        proof {
            use_type_invariant(&*self);
        }
        let ghost stream = self@;
        proof {
            lemma_scan_remainder(stream);
        }
        let end = self.cursor;
        let mut cursor: usize = 0;
        loop
            invariant
                cursor <= end <= LEN,
                self.cursor == end,
                self@ == stream,
                stream == old(self)@,
                forall|at: int| 0 <= at < cursor ==> rejected_at(stream, at),
            decreases end - cursor,
        {
            let ghost start = cursor;
            while cursor < self.cursor && self.buffer[cursor] != SYNC
                invariant
                    start <= cursor <= end <= LEN,
                    self.cursor == end,
                    self@ == stream,
                    forall|at: int| 0 <= at < cursor ==> rejected_at(stream, at),
                decreases self.cursor - cursor,
            {
                assert(stream[cursor as int] == self.buffer@[cursor as int]);
                cursor += 1;
            }
            if self.cursor - cursor < SHORT_FRAME {
                proof {
                    if cursor < self.cursor {
                        assert(stream[cursor as int] == self.buffer@[cursor as int]);
                    }
                    lemma_resume_point_is(stream, 0, cursor as int);
                }
                self.move_forward(cursor);
                return None;
            }
            assert(forall|i: int| 0 <= i < self.cursor ==> stream[i] == self.buffer@[i]);
            let header = Header(
                [
                    self.buffer[cursor],
                    self.buffer[cursor + 1],
                    self.buffer[cursor + 2],
                    self.buffer[cursor + 3],
                    self.buffer[cursor + 4],
                ],
            );
            let size: usize = if header.data_field() {
                LONG_FRAME
            } else {
                SHORT_FRAME
            };
            assert(size == announced_len(stream[cursor + 1]));
            if self.cursor - cursor < size {
                proof {
                    lemma_resume_point_is(stream, 0, cursor as int);
                }
                self.move_forward(cursor);
                return None;
            }
            let sum = crc_calculate_range(self.buffer.as_slice(), cursor + 1, cursor + size - 1);
            let ghost candidate = candidate_at(stream, cursor as int);
            assert(candidate.subrange(1, size - 1) =~= self.buffer@.subrange(
                cursor + 1,
                cursor + size - 1,
            ));
            assert(candidate.last() == self.buffer@[cursor + size - 1]);
            assert(candidate[0] == SYNC);
            assert(candidate[1] == stream[cursor + 1]);
            if self.buffer[cursor + size - 1] == sum {
                assert(is_frame(candidate));
                let mut bytes = [0u8; 14];
                let mut i: usize = 0;
                while i < size
                    invariant
                        i <= size <= 14,
                        cursor + size <= self.cursor <= LEN,
                        self@ == stream,
                        forall|k: int| 0 <= k < i ==> bytes@[k] == stream[cursor + k],
                        forall|k: int| i <= k < 14 ==> bytes@[k] == 0,
                    decreases size - i,
                {
                    assert(stream[cursor + i] == self.buffer@[cursor + i]);
                    bytes[i] = self.buffer[cursor + i];
                    i += 1;
                }
                let message = Message(bytes);
                proof {
                    lemma_resume_point_is(stream, 0, cursor as int);
                    assert(message@ =~= padded(candidate));
                    assert(message.wire() =~= candidate);
                }
                self.move_forward(cursor + size);
                return Some(message);
            } else {
                cursor += 1;
            }
        }
    }
}

impl View for Message {
    type V = Seq<u8>;

    /// The fourteen bytes.
    closed spec fn view(&self) -> Seq<u8> {
        self.0@
    }
}

impl Message {
    #[verifier::type_invariant]
    spec fn opens_with_sync(self) -> bool {
        self.0@[0] == SYNC
    }

    /// The fields of the header.
    pub open spec fn fields(self) -> Fields {
        unpack(self@[1], self@[2], self@[3])
    }

    /// The bytes that go on the wire: the first six or all fourteen.
    pub open spec fn wire(self) -> Seq<u8> {
        self@.take(announced_len(self@[1]))
    }

    /// A message with the given header and a zero payload. A short frame is
    /// complete; a long one gets its checksum from the writer.
    pub fn new(
        network: u8,
        data_field: bool,
        proprity: u8,
        node_type: u8,
        node_index: u8,
        msg_type: u8,
    ) -> (msg: Message)
        requires
            network < 4,
            proprity < 8,
            node_type < 64,
            node_index < 16,
        ensures
            msg@ == fresh_bytes(
                (Fields { network, data_field, proprity, node_type, node_index, msg_type }),
            ),
            msg.fields() == (Fields {
                network,
                data_field,
                proprity,
                node_type,
                node_index,
                msg_type,
            }),
            !data_field ==> is_frame(msg.wire()),
            msg@.len() == 14,
    {
        let ghost fields = Fields { network, data_field, proprity, node_type, node_index, msg_type };
        let header = Header::new(network, data_field, proprity, node_type, node_index, msg_type);
        let h = header.0;
        let mut result = Message([h[0], h[1], h[2], h[3], h[4], 0, 0, 0, 0, 0, 0, 0, 0, 0]);
        let ghost blank = pack(fields) + Seq::new(9, |i: int| 0u8);
        assert(result@ =~= blank);
        if !data_field {
            let sum = crc_calculate_range(result.0.as_slice(), 1, 5);
            result.0[5] = sum;
            assert(result@ =~= blank.update(5, crc_of(blank.subrange(1, 5))));
            assert(result.wire() =~= result@.take(6));
            assert(result.wire().subrange(1, 5) =~= blank.subrange(1, 5));
        }
        result
    }

    /// The header: a copy of the first five bytes.
    pub fn header(&self) -> (header: Header)
        ensures
            header@ == self.fields(),
            header.0@ == self@.take(5),
            self@.len() == 14,
            self@[0] == SYNC,
    {
        proof {
            use_type_invariant(self);
        }
        let header = Header([self.0[0], self.0[1], self.0[2], self.0[3], self.0[4]]);
        assert(header.0@ =~= self@.take(5));
        header
    }

    /// The bytes that go on the wire.
    pub fn as_slice<'a>(&'a self) -> (bytes: &'a [u8])
        ensures
            bytes@ == self.wire(),
    {
        if self.header().data_field() {
            let bytes = self.0.as_slice();
            assert(bytes@ =~= self.wire());
            bytes
        } else {
            slice_subrange(self.0.as_slice(), 0, 6)
        }
    }

    /// The eight payload bytes.
    pub fn data<'a>(&'a self) -> (bytes: &'a [u8])
        ensures
            bytes@ == self@.subrange(PAYLOAD_BEGIN as int, PAYLOAD_END as int),
    {
        slice_subrange(self.0.as_slice(), PAYLOAD_BEGIN, PAYLOAD_END)
    }

    /// Starts writing the payload at its first byte.
    pub fn write(self) -> (writer: MessageWriter)
        ensures
            writer.bytes() == self@,
            writer.bytes().len() == 14,
            writer.cursor() == PAYLOAD_BEGIN,
    {
        MessageWriter { msg: self, cursor: PAYLOAD_BEGIN }
    }

    /// Starts reading the payload at its first byte.
    pub fn read<'a>(&'a self) -> (reader: MessageReader<'a>)
        ensures
            reader.bytes() == self@,
            reader.cursor() == PAYLOAD_BEGIN,
    {
        MessageReader { msg: self, cursor: PAYLOAD_BEGIN }
    }
}

impl MessageWriter {
    #[verifier::type_invariant]
    spec fn in_payload(self) -> bool {
        PAYLOAD_BEGIN <= self.cursor <= PAYLOAD_END
    }

    /// The fourteen bytes as written so far.
    pub closed spec fn bytes(self) -> Seq<u8> {
        self.msg@
    }

    /// Index of the next byte to write.
    pub closed spec fn cursor(self) -> int {
        self.cursor as int
    }

    /// `bytes` with `value` in `width` big-endian bytes from `at` on.
    pub open spec fn put(bytes: Seq<u8>, at: int, value: int, width: nat) -> Seq<u8> {
        bytes.take(at) + be_bytes(value, width) + bytes.skip(at + width)
    }

    /// Writes one byte.
    pub fn write_u8(&mut self, value: u8)
        requires
            old(self).cursor() + 1 <= PAYLOAD_END,
        ensures
            final(self).bytes() == Self::put(old(self).bytes(), old(self).cursor(), value as int, 1),
            final(self).cursor() == old(self).cursor() + 1,
            final(self).bytes().len() == 14,
            final(self).bytes().take(5) == old(self).bytes().take(5),
    {
        proof {
            use_type_invariant(&*self);
            use_type_invariant(&self.msg);
            reveal_with_fuel(be_bytes, 2);
        }
        let at = self.cursor;
        self.msg.0[at] = value;
        self.cursor = at + 1;
        assert(self.bytes() =~= Self::put(old(self).bytes(), at as int, value as int, 1));
        assert(self.bytes().take(5) =~= old(self).bytes().take(5));
    }

    /// Writes two bytes, the high one first.
    pub fn write_i16(&mut self, value: i16)
        requires
            old(self).cursor() + 2 <= PAYLOAD_END,
        ensures
            final(self).bytes() == Self::put(old(self).bytes(), old(self).cursor(), value as int, 2),
            final(self).cursor() == old(self).cursor() + 2,
            final(self).bytes().len() == 14,
            final(self).bytes().take(5) == old(self).bytes().take(5),
    {
        proof {
            use_type_invariant(&*self);
            use_type_invariant(&self.msg);
        }
        let at = self.cursor;
        let unsigned: u32 = if value >= 0 {
            value as u32
        } else {
            (value as i32 + 0x1_0000) as u32
        };
        proof {
            reveal_with_fuel(span, 3);
            reveal_with_fuel(be_bytes, 1);
            assert(span(2) == 0x1_0000);
            lemma_fundamental_div_mod_converse(
                value as int,
                0x1_0000,
                if value >= 0 {
                    0
                } else {
                    -1
                },
                unsigned as int,
            );
            lemma_be_bytes_step(value as int, 2, unsigned as int);
            lemma_be_bytes_step(value as int / 256, 1, unsigned as int / 256);
        }
        self.msg.0[at] = (unsigned / 0x100) as u8;
        self.msg.0[at + 1] = (unsigned % 0x100) as u8;
        self.cursor = at + 2;
        assert(self.bytes() =~= Self::put(old(self).bytes(), at as int, value as int, 2));
        assert(self.bytes().take(5) =~= old(self).bytes().take(5));
    }

    /// Writes four bytes, the highest first.
    pub fn write_i32(&mut self, value: i32)
        requires
            old(self).cursor() + 4 <= PAYLOAD_END,
        ensures
            final(self).bytes() == Self::put(old(self).bytes(), old(self).cursor(), value as int, 4),
            final(self).cursor() == old(self).cursor() + 4,
            final(self).bytes().len() == 14,
            final(self).bytes().take(5) == old(self).bytes().take(5),
    {
        proof {
            use_type_invariant(&*self);
            use_type_invariant(&self.msg);
        }
        let at = self.cursor;
        let unsigned: u64 = if value >= 0 {
            value as u64
        } else {
            (value as i64 + 0x1_0000_0000) as u64
        };
        let low: u64 = unsigned / 0x100;
        let mid: u64 = low / 0x100;
        let high: u64 = mid / 0x100;
        proof {
            reveal_with_fuel(span, 5);
            reveal_with_fuel(be_bytes, 1);
            let v = value as int;
            assert(span(4) == 0x1_0000_0000);
            lemma_fundamental_div_mod_converse(
                v,
                0x1_0000_0000,
                if value >= 0 {
                    0
                } else {
                    -1
                },
                unsigned as int,
            );
            lemma_be_bytes_step(v, 4, unsigned as int);
            lemma_be_bytes_step(v / 256, 3, low as int);
            lemma_be_bytes_step(v / 256 / 256, 2, mid as int);
            lemma_be_bytes_step(v / 256 / 256 / 256, 1, high as int);
        }
        self.msg.0[at] = high as u8;
        self.msg.0[at + 1] = (mid % 0x100) as u8;
        self.msg.0[at + 2] = (low % 0x100) as u8;
        self.msg.0[at + 3] = (unsigned % 0x100) as u8;
        self.cursor = at + 4;
        assert(self.bytes() =~= Self::put(old(self).bytes(), at as int, value as int, 4));
        assert(self.bytes().take(5) =~= old(self).bytes().take(5));
    }

    /// Stamps the checksum and hands the message back: at index 13 for a long
    /// frame, at index 5 for a short one.
    pub fn finish(self) -> (msg: Message)
        ensures
            msg@ == sealed_bytes(self.bytes()),
            msg@.len() == 14,
            is_frame(msg.wire()),
            msg.fields() == unpack(self.bytes()[1], self.bytes()[2], self.bytes()[3]),
    {
        proof {
            use_type_invariant(&self);
            use_type_invariant(&self.msg);
        }
        let mut msg = self.msg;
        let end: usize = if msg.header().data_field() {
            LONG_FRAME - 1
        } else {
            SHORT_FRAME - 1
        };
        let sum = crc_calculate_range(msg.0.as_slice(), 1, end);
        msg.0[end] = sum;
        proof {
            let before = self.bytes();
            assert(msg@ =~= sealed_bytes(before));
            assert(msg.wire().subrange(1, end as int) =~= before.subrange(1, end as int));
        }
        msg
    }
}

impl<'a> MessageReader<'a> {
    #[verifier::type_invariant]
    spec fn in_payload(self) -> bool {
        PAYLOAD_BEGIN <= self.cursor <= PAYLOAD_END
    }

    /// The fourteen bytes of the message.
    pub closed spec fn bytes(self) -> Seq<u8> {
        self.msg@
    }

    /// Index of the next byte to read.
    pub closed spec fn cursor(self) -> int {
        self.cursor as int
    }

    /// The `width` bytes that the next read takes.
    pub open spec fn ahead(self, width: int) -> Seq<u8> {
        self.bytes().subrange(self.cursor(), self.cursor() + width)
    }

    /// Reads one byte.
    pub fn read_u8(&mut self) -> (value: u8)
        requires
            old(self).cursor() + 1 <= PAYLOAD_END,
        ensures
            value == be_unsigned(old(self).ahead(1)),
            final(self).bytes() == old(self).bytes(),
            final(self).cursor() == old(self).cursor() + 1,
    {
        proof {
            use_type_invariant(&*self);
            reveal_with_fuel(be_unsigned, 2);
        }
        let at = self.cursor;
        let value = self.msg.0[at];
        self.cursor = at + 1;
        value
    }

    /// Reads two bytes as a signed number, the high byte first.
    pub fn read_i16(&mut self) -> (value: i16)
        requires
            old(self).cursor() + 2 <= PAYLOAD_END,
        ensures
            value == be_signed(old(self).ahead(2)),
            final(self).bytes() == old(self).bytes(),
            final(self).cursor() == old(self).cursor() + 2,
    {
        proof {
            use_type_invariant(&*self);
            reveal_with_fuel(be_unsigned, 3);
            reveal_with_fuel(span, 3);
            let ahead = self.ahead(2);
            assert(ahead.drop_last().drop_last().len() == 0);
        }
        let at = self.cursor;
        let unsigned: i32 = self.msg.0[at] as i32 * 0x100 + self.msg.0[at + 1] as i32;
        self.cursor = at + 2;
        if unsigned >= 0x8000 {
            (unsigned - 0x1_0000) as i16
        } else {
            unsigned as i16
        }
    }

    /// Reads four bytes as a signed number, the highest byte first.
    pub fn read_i32(&mut self) -> (value: i32)
        requires
            old(self).cursor() + 4 <= PAYLOAD_END,
        ensures
            value == be_signed(old(self).ahead(4)),
            final(self).bytes() == old(self).bytes(),
            final(self).cursor() == old(self).cursor() + 4,
    {
        proof {
            use_type_invariant(&*self);
            reveal_with_fuel(be_unsigned, 5);
            reveal_with_fuel(span, 5);
            let ahead = self.ahead(4);
            assert(ahead.drop_last().drop_last().drop_last().drop_last().len() == 0);
        }
        let at = self.cursor;
        let unsigned: i64 = ((self.msg.0[at] as i64 * 0x100 + self.msg.0[at + 1] as i64) * 0x100
            + self.msg.0[at + 2] as i64) * 0x100 + self.msg.0[at + 3] as i64;
        self.cursor = at + 4;
        if unsigned >= 0x8000_0000 {
            (unsigned - 0x1_0000_0000) as i32
        } else {
            unsigned as i32
        }
    }
}

/// What is written is what is read. A value written into the payload of a
/// long frame stands there in big-endian bytes, also after the checksum is
/// stamped, and those bytes spell the value: as an unsigned number where it
/// lies in the unsigned range of its width, as a signed one where it lies in
/// the two's complement range.
pub proof fn lemma_read_after_write(bytes: Seq<u8>, at: int, value: int, width: nat)
    requires
        bytes.len() == 14,
        announced_len(bytes[1]) == 14,
        PAYLOAD_BEGIN <= at,
        at + width <= PAYLOAD_END,
    ensures
        ({
            let sealed = sealed_bytes(MessageWriter::put(bytes, at, value, width));
            let read = sealed.subrange(at, at + width);
            &&& read == be_bytes(value, width)
            &&& 0 <= value < span(width) ==> be_unsigned(read) == value
            &&& -span(width) <= 2 * value < span(width) ==> be_signed(read) == value
        }),
{
    lemma_be_bytes_len(value, width);
    let written = MessageWriter::put(bytes, at, value, width);
    let sealed = sealed_bytes(written);
    assert(written[1] == bytes[1]);
    assert(sealed.subrange(at, at + width) =~= be_bytes(value, width));
    if 0 <= value < span(width) {
        lemma_unsigned_round_trip(value, width);
    }
    if -span(width) <= 2 * value < span(width) {
        lemma_signed_round_trip(value, width);
    }
}

} // verus!
