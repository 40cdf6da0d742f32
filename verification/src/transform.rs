//! The per-instance transform record for one drawn square.
//!
//! The five fields are the IEEE-754 binary32 bit patterns of the square's
//! position, rotation and scale. The engine never does arithmetic on them
//! directly; it moves them whole, so each field is kept as the raw 32-bit
//! word. Serialized back to back in field order, little-endian, a record
//! occupies exactly the 20 bytes (stride 5 x 4) that the instance vertex
//! layout declares.

use vstd::prelude::*;

verus! {

use vstd::bytes::spec_u32_to_le_bytes;

/// Number of bytes one serialized transform record occupies.
pub const RECORD_BYTES: usize = 20;

/// The pose of one square, as the raw 32-bit words of its five
/// single-precision attributes: position (x, y), rotation, scale (x, y).
#[derive(Copy, Clone, Debug, PartialEq, Eq, Structural)]
pub struct SquareTransform {
    pub position_x: u32,
    pub position_y: u32,
    pub rotation: u32,
    pub scale_x: u32,
    pub scale_y: u32,
}

impl SquareTransform {
    /// The serialized form of this record: each word little-endian, in
    /// field order.
    pub open spec fn record_bytes(self) -> Seq<u8> {
        spec_u32_to_le_bytes(self.position_x) + spec_u32_to_le_bytes(self.position_y)
            + spec_u32_to_le_bytes(self.rotation) + spec_u32_to_le_bytes(self.scale_x)
            + spec_u32_to_le_bytes(self.scale_y)
    }

    /// Every record serializes to exactly `RECORD_BYTES` bytes.
    pub proof fn lemma_record_len(self)
        ensures
            self.record_bytes().len() == RECORD_BYTES,
    {
        vstd::bytes::lemma_auto_spec_u32_to_from_le_bytes();
    }

    pub fn new(position_x: u32, position_y: u32, rotation: u32, scale_x: u32, scale_y: u32) -> (t:
        SquareTransform)
        ensures
            t == (SquareTransform { position_x, position_y, rotation, scale_x, scale_y }),
    {
        SquareTransform { position_x, position_y, rotation, scale_x, scale_y }
    }

    /// Appends this record's serialized bytes to `out`.
    pub fn write_bytes(&self, out: &mut Vec<u8>)
        ensures
            final(out)@ == old(out)@ + self.record_bytes(),
    {
        proof {
            vstd::bytes::lemma_auto_spec_u32_to_from_le_bytes();
        }
        let mut w = vstd::bytes::u32_to_le_bytes(self.position_x);
        out.append(&mut w);
        let mut w = vstd::bytes::u32_to_le_bytes(self.position_y);
        out.append(&mut w);
        let mut w = vstd::bytes::u32_to_le_bytes(self.rotation);
        out.append(&mut w);
        let mut w = vstd::bytes::u32_to_le_bytes(self.scale_x);
        out.append(&mut w);
        let mut w = vstd::bytes::u32_to_le_bytes(self.scale_y);
        out.append(&mut w);
        proof {
            assert(out@ =~= old(out)@ + self.record_bytes());
        }
    }
}

} // verus!
