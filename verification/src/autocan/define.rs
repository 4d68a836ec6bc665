//! The packed frame header.
//!
//! A header occupies five bytes. Byte 0 is the sync byte, byte 4 is zero,
//! and bytes 1 to 3 pack the addressing fields:
//!
//! ```text
//! byte 1: | network (2) | data (1) | priority (3) | node type, high 2 bits |
//! byte 2: | node type, low 4 bits       | node index (4)                  |
//! byte 3: | message type (8)                                              |
//! ```

use bit_field::BitField;
use vstd::prelude::*;

verus! {

/// The byte that opens every frame.
pub const SYNC: u8 = 0xfe;

/// The `width` lowest bits set, for `1 <= width <= 8`.
pub open spec fn low_mask(width: u8) -> u8 {
    0xffu8 >> ((8 - width) as u8)
}

/// Bits `lo..=hi` of `byte`, moved down to bit 0.
pub open spec fn bits_of(byte: u8, lo: u8, hi: u8) -> u8 {
    (byte >> lo) & low_mask((hi - lo + 1) as u8)
}

/// `byte` with bits `lo..=hi` replaced by `value`.
pub open spec fn with_bits(byte: u8, lo: u8, hi: u8, value: u8) -> u8 {
    (byte & !(low_mask((hi - lo + 1) as u8) << lo)) | (value << lo)
}

/// `byte` with bit `bit` set to `value`.
pub open spec fn with_bit(byte: u8, bit: u8, value: bool) -> u8 {
    if value {
        byte | (1u8 << bit)
    } else {
        byte & !(1u8 << bit)
    }
}

/// Trusted: `bit_field::BitField::get_bit` on a `u8`. The crate tests the bit
/// with the mask `1 << bit` and panics unless `bit < 8`.
#[verifier::external_body]
fn get_bit(byte: u8, bit: u8) -> (set: bool)
    requires
        bit < 8,
    ensures
        set == (byte & (1u8 << bit) != 0),
{
    byte.get_bit(bit as usize)
}

/// Trusted: `bit_field::BitField::get_bits` on a `u8` with the inclusive range
/// `lo..=hi`. The crate shifts away the bits above `hi`, then those below
/// `lo`, and panics unless the range lies within the eight bits.
#[verifier::external_body]
fn get_bits(byte: u8, lo: u8, hi: u8) -> (bits: u8)
    requires
        lo <= hi < 8,
    ensures
        bits == bits_of(byte, lo, hi),
{
    byte.get_bits(lo as usize..=hi as usize)
}

/// Trusted: `bit_field::BitField::set_bit` on a `u8`, applied to a copy. The
/// crate ors the mask `1 << bit` in or ands it out, and panics unless
/// `bit < 8`.
#[verifier::external_body]
fn set_bit(byte: u8, bit: u8, value: bool) -> (updated: u8)
    requires
        bit < 8,
    ensures
        updated == with_bit(byte, bit, value),
{
    let mut updated = byte;
    updated.set_bit(bit as usize, value);
    updated
}

/// Trusted: `bit_field::BitField::set_bits` on a `u8` with the inclusive range
/// `lo..=hi`, applied to a copy. The crate clears the range and ors in
/// `value << lo`; it panics unless the range lies within the eight bits and
/// `value` has no bit set above the width of the range.
#[verifier::external_body]
fn set_bits(byte: u8, lo: u8, hi: u8, value: u8) -> (updated: u8)
    requires
        lo <= hi < 8,
        value <= low_mask((hi - lo + 1) as u8),
    ensures
        updated == with_bits(byte, lo, hi, value),
{
    let mut updated = byte;
    updated.set_bits(lo as usize..=hi as usize, value);
    updated
}

/// The contracts of the four trusted functions above, held against the
/// shifts with which `bit_field` computes on a `u8`: it reads a range by
/// shifting the bits above it out to the left, back, and the bits below it
/// out to the right; it writes one through the mask of the range, made in
/// the same way; and it takes a value that survives being shifted up and
/// down by the bits outside the width of the range.
pub proof fn lemma_bit_field_shifts(byte: u8, lo: u8, hi: u8, value: u8)
    by (bit_vector)
    requires
        lo <= hi < 8,
    ensures
        bits_of(byte, lo, hi) == ((byte << ((7 - hi) as u8)) >> ((7 - hi) as u8)) >> lo,
        with_bits(byte, lo, hi, value) == (byte & !((((!0u8) << ((7 - hi) as u8)) >> ((7
            - hi) as u8)) >> lo << lo)) | (value << lo),
        value <= low_mask((hi - lo + 1) as u8) <==> ((value << ((7 - (hi - lo)) as u8)) >> ((7 - (
        hi - lo)) as u8)) == value,
{
}

/// The addressing fields that a header packs.
pub struct Fields {
    pub network: u8,
    pub data_field: bool,
    pub proprity: u8,
    pub node_type: u8,
    pub node_index: u8,
    pub msg_type: u8,
}

impl Fields {
    /// Each field fits the bits that the layout gives it.
    pub open spec fn fits(self) -> bool {
        &&& self.network < 4
        &&& self.proprity < 8
        &&& self.node_type < 64
        &&& self.node_index < 16
    }
}

/// Byte 1 of the header that packs `fields`.
pub open spec fn pack_byte1(fields: Fields) -> u8 {
    (fields.network << 6) | (if fields.data_field {
        0x20u8
    } else {
        0u8
    }) | (fields.proprity << 2) | (fields.node_type >> 4)
}

/// Byte 2 of the header that packs `fields`.
pub open spec fn pack_byte2(fields: Fields) -> u8 {
    ((fields.node_type & 0x0f) << 4) | fields.node_index
}

/// The five header bytes that pack `fields`.
pub open spec fn pack(fields: Fields) -> Seq<u8> {
    seq![SYNC, pack_byte1(fields), pack_byte2(fields), fields.msg_type, 0u8]
}

/// The fields that the header bytes `byte1`, `byte2`, `byte3` pack.
pub open spec fn unpack(byte1: u8, byte2: u8, byte3: u8) -> Fields {
    Fields {
        network: byte1 >> 6,
        data_field: byte1 & 0x20 != 0,
        proprity: (byte1 >> 2) & 0x07,
        node_type: ((byte1 & 0x03) << 4) | (byte2 >> 4),
        node_index: byte2 & 0x0f,
        msg_type: byte3,
    }
}

/// A frame header: the sync byte, three packed bytes and a zero byte.
#[derive(Clone, Copy, Debug)]
pub struct Header(pub [u8; 5]);

impl View for Header {
    type V = Fields;

    open spec fn view(&self) -> Fields {
        unpack(self.0[1], self.0[2], self.0[3])
    }
}

impl Header {
    /// Packs the fields into a header.
    pub fn new(
        network: u8,
        data_field: bool,
        proprity: u8,
        node_type: u8,
        node_index: u8,
        msg_type: u8,
    ) -> (header: Header)
        requires
            network < 4,
            proprity < 8,
            node_type < 64,
            node_index < 16,
        ensures
            header.0@ == pack(
                (Fields { network, data_field, proprity, node_type, node_index, msg_type }),
            ),
            header@ == (Fields { network, data_field, proprity, node_type, node_index, msg_type }),
    {
        let ghost fields = Fields { network, data_field, proprity, node_type, node_index, msg_type };
        assert(low_mask(2) == 3 && low_mask(3) == 7 && low_mask(4) == 15) by (bit_vector);
        let high: u8 = node_type >> 4;
        let low: u8 = node_type & 0x0f;
        assert(high <= 3 && low <= 15) by (bit_vector)
            requires
                high == node_type >> 4,
                low == node_type & 0x0f,
                node_type < 64,
        ;
        let mut byte1: u8 = 0;
        byte1 = set_bits(byte1, 6, 7, network);
        byte1 = set_bit(byte1, 5, data_field);
        byte1 = set_bits(byte1, 2, 4, proprity);
        byte1 = set_bits(byte1, 0, 1, high);
        let mut byte2: u8 = 0;
        byte2 = set_bits(byte2, 4, 7, low);
        byte2 = set_bits(byte2, 0, 3, node_index);
        proof {
            lemma_pack_by_parts(fields);
            lemma_unpack_pack(fields);
        }
        let header = Header([SYNC, byte1, byte2, msg_type, 0]);
        assert(header.0@ =~= pack(fields));
        header
    }

    /// The network number, bits 7 to 6 of byte 1.
    pub fn network(&self) -> (network: u8)
        ensures
            network == self@.network,
            network < 4,
    {
        let byte: u8 = self.0[1];
        assert(bits_of(byte, 6, 7) == byte >> 6 && (byte >> 6) < 4) by (bit_vector);
        get_bits(byte, 6, 7)
    }

    /// Whether the frame carries the eight payload bytes, bit 5 of byte 1.
    pub fn data_field(&self) -> (data_field: bool)
        ensures
            data_field == self@.data_field,
    {
        let byte: u8 = self.0[1];
        assert((byte & (1u8 << 5u8) != 0) == (byte & 0x20 != 0)) by (bit_vector);
        get_bit(byte, 5)
    }

    /// The priority, bits 4 to 2 of byte 1.
    pub fn proprity(&self) -> (proprity: u8)
        ensures
            proprity == self@.proprity,
            proprity < 8,
    {
        let byte: u8 = self.0[1];
        assert(bits_of(byte, 2, 4) == (byte >> 2) & 0x07 && ((byte >> 2) & 0x07) < 8)
            by (bit_vector);
        get_bits(byte, 2, 4)
    }

    /// The node type: bits 1 to 0 of byte 1 above bits 7 to 4 of byte 2.
    pub fn node_type(&self) -> (node_type: u8)
        ensures
            node_type == self@.node_type,
            node_type < 64,
    {
        let byte1: u8 = self.0[1];
        let byte2: u8 = self.0[2];
        let high: u8 = get_bits(byte1, 0, 1);
        let low: u8 = get_bits(byte2, 4, 7);
        assert(high < 4 && low < 16 && (high << 4) + low < 64 && (high << 4) + low == (((byte1
            & 0x03) << 4) | (byte2 >> 4))) by (bit_vector)
            requires
                high == bits_of(byte1, 0, 1),
                low == bits_of(byte2, 4, 7),
        ;
        (high << 4) + low
    }

    /// The node index, bits 3 to 0 of byte 2.
    pub fn node_index(&self) -> (node_index: u8)
        ensures
            node_index == self@.node_index,
            node_index < 16,
    {
        let byte: u8 = self.0[2];
        assert(bits_of(byte, 0, 3) == byte & 0x0f && (byte & 0x0f) < 16) by (bit_vector);
        get_bits(byte, 0, 3)
    }

    /// The four bytes after the sync byte as one number, byte 1 lowest.
    pub fn key(&self) -> (key: u32)
        ensures
            key == self.0[1] + 0x100 * self.0[2] + 0x1_0000 * self.0[3] + 0x100_0000 * self.0[4],
    {
        self.0[1] as u32 + 0x100 * self.0[2] as u32 + 0x1_0000 * self.0[3] as u32 + 0x100_0000
            * self.0[4] as u32
    }

    /// The message type, byte 3.
    pub fn msg_type(&self) -> (msg_type: u8)
        ensures
            msg_type == self@.msg_type,
    {
        self.0[3]
    }
}

/// Setting the fields one range at a time, from zero, gives the packed bytes.
proof fn lemma_pack_by_parts(fields: Fields)
    requires
        fields.fits(),
    ensures
        with_bits(
            with_bits(
                with_bit(with_bits(0, 6, 7, fields.network), 5, fields.data_field),
                2,
                4,
                fields.proprity,
            ),
            0,
            1,
            fields.node_type >> 4,
        ) == pack_byte1(fields),
        with_bits(with_bits(0, 4, 7, fields.node_type & 0x0f), 0, 3, fields.node_index)
            == pack_byte2(fields),
{
    let n = fields.network;
    let p = fields.proprity;
    let t = fields.node_type;
    let i = fields.node_index;
    assert(with_bits(with_bits(with_bit(with_bits(0, 6, 7, n), 5, true), 2, 4, p), 0, 1, t >> 4)
        == ((n << 6) | 0x20u8 | (p << 2) | (t >> 4))) by (bit_vector)
        requires
            n < 4,
            p < 8,
            t < 64,
    ;
    assert(with_bits(with_bits(with_bit(with_bits(0, 6, 7, n), 5, false), 2, 4, p), 0, 1, t >> 4)
        == ((n << 6) | 0u8 | (p << 2) | (t >> 4))) by (bit_vector)
        requires
            n < 4,
            p < 8,
            t < 64,
    ;
    assert(with_bits(with_bits(0, 4, 7, t & 0x0f), 0, 3, i) == (((t & 0x0f) << 4) | i))
        by (bit_vector)
        requires
            t < 64,
            i < 16,
    ;
}

/// Packing then unpacking is the identity: for every set of fields that fit
/// their bit widths, the fields read from the packed bytes are the fields
/// that were packed.
pub proof fn lemma_unpack_pack(fields: Fields)
    requires
        fields.fits(),
    ensures
        unpack(pack_byte1(fields), pack_byte2(fields), fields.msg_type) == fields,
{
    let n = fields.network;
    let p = fields.proprity;
    let t = fields.node_type;
    let i = fields.node_index;
    let flag: u8 = if fields.data_field {
        0x20u8
    } else {
        0u8
    };
    let b1: u8 = (n << 6) | flag | (p << 2) | (t >> 4);
    let b2: u8 = ((t & 0x0f) << 4) | i;
    assert(b1 >> 6 == n && ((b1 & 0x20 != 0) <==> flag == 0x20) && (b1 >> 2) & 0x07 == p && (((b1
        & 0x03) << 4) | (b2 >> 4)) == t && b2 & 0x0f == i) by (bit_vector)
        requires
            n < 4,
            p < 8,
            t < 64,
            i < 16,
            flag == 0x20 || flag == 0,
            b1 == (n << 6) | flag | (p << 2) | (t >> 4),
            b2 == ((t & 0x0f) << 4) | i,
    ;
}

/// Unpacking then packing is the identity: any three header bytes unpack to
/// fields that fit their bit widths and that pack to the same three bytes.
pub proof fn lemma_pack_unpack(byte1: u8, byte2: u8, byte3: u8)
    ensures
        unpack(byte1, byte2, byte3).fits(),
        pack(unpack(byte1, byte2, byte3)) == seq![SYNC, byte1, byte2, byte3, 0u8],
{
    let fields = unpack(byte1, byte2, byte3);
    let flag: u8 = if fields.data_field {
        0x20u8
    } else {
        0u8
    };
    let n = fields.network;
    let p = fields.proprity;
    let t = fields.node_type;
    let i = fields.node_index;
    assert(n < 4 && p < 8 && t < 64 && i < 16 && ((n << 6) | flag | (p << 2) | (t >> 4)) == byte1
        && (((t & 0x0f) << 4) | i) == byte2) by (bit_vector)
        requires
            n == byte1 >> 6,
            flag == 0x20 <==> byte1 & 0x20 != 0,
            flag == 0x20 || flag == 0,
            p == (byte1 >> 2) & 0x07,
            t == ((byte1 & 0x03) << 4) | (byte2 >> 4),
            i == byte2 & 0x0f,
    ;
    assert(pack(fields) =~= seq![SYNC, byte1, byte2, byte3, 0u8]);
}

} // verus!
