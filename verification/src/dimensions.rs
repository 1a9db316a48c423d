//! The dimensions of a PNG image, read from the head of the file.

use vstd::prelude::*;

verus! {

/// Number of bytes from the start of a PNG file up to the end of its height.
pub const PNG_HEADER_LEN: usize = 24;

/// The eight bytes that every PNG file begins with.
pub open spec fn png_signature() -> Seq<u8> {
    seq![0x89u8, 0x50u8, 0x4Eu8, 0x47u8, 0x0Du8, 0x0Au8, 0x1Au8, 0x0Au8]
}

/// The number that four bytes hold, the most significant byte first.
pub open spec fn big_endian(b0: u8, b1: u8, b2: u8, b3: u8) -> int {
    b0 * 0x100_0000 + b1 * 0x1_0000 + b2 * 0x100 + b3
}

/// Width and height of the PNG image whose file begins with `bytes`, or
/// `None` where these are fewer than 24 bytes or do not begin with the PNG
/// signature.
pub open spec fn png_dimension(bytes: Seq<u8>) -> Option<(u32, u32)> {
    if bytes.len() >= 24 && bytes.subrange(0, 8) == png_signature() {
        Some(
            (
                big_endian(bytes[16], bytes[17], bytes[18], bytes[19]) as u32,
                big_endian(bytes[20], bytes[21], bytes[22], bytes[23]) as u32,
            ),
        )
    } else {
        None
    }
}

/// Reads four bytes as a number, the most significant byte first.
pub fn read_big_endian(b0: u8, b1: u8, b2: u8, b3: u8) -> (n: u32)
    ensures
        n == big_endian(b0, b1, b2, b3),
{
    (b0 as u32) * 0x100_0000 + (b1 as u32) * 0x1_0000 + (b2 as u32) * 0x100 + (b3 as u32)
}

/// Width and height of a PNG image, from the first bytes of its file.
pub fn get_png_dimension(header: &[u8]) -> (size: Option<(u32, u32)>)
    ensures
        size == png_dimension(header@),
{
    if header.len() < PNG_HEADER_LEN {
        return None;
    }
    let signed: bool = header[0] == 0x89 && header[1] == 0x50 && header[2] == 0x4E && header[3]
        == 0x47 && header[4] == 0x0D && header[5] == 0x0A && header[6] == 0x1A && header[7]
        == 0x0A;
    if !signed {
        proof {
            let head = header@.subrange(0, 8);
            if head == png_signature() {
                assert(head[0] == header@[0] && head[1] == header@[1] && head[2] == header@[2]
                    && head[3] == header@[3] && head[4] == header@[4] && head[5] == header@[5]
                    && head[6] == header@[6] && head[7] == header@[7]);
                assert(false);
            }
        }
        return None;
    }
    assert(header@.subrange(0, 8) =~= png_signature());
    let width: u32 = read_big_endian(header[16], header[17], header[18], header[19]);
    let height: u32 = read_big_endian(header[20], header[21], header[22], header[23]);
    Some((width, height))
}

} // verus!
