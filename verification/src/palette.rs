//! The colour that stands for each role of a well.

use vstd::prelude::*;
use crate::plate::SampleType;

verus! {

/// What `egui::Color32::from_hex` makes of a hex colour string: the red,
/// green, blue and alpha channels of the colour, or nothing where the string
/// is not a hex colour.
pub uninterp spec fn hex_color(hex: Seq<char>) -> Option<(u8, u8, u8, u8)>;

/// The value of a hexadecimal digit.
pub open spec fn digit(c: char) -> Option<int> {
    if '0' <= c <= '9' {
        Some(c as u32 - '0' as u32)
    } else if 'a' <= c <= 'f' {
        Some(c as u32 - 'a' as u32 + 10)
    } else if 'A' <= c <= 'F' {
        Some(c as u32 - 'A' as u32 + 10)
    } else {
        None
    }
}

/// Whether the string is a hash sign and six hexadecimal digits.
pub open spec fn is_six_digit_code(hex: Seq<char>) -> bool {
    &&& hex.len() == 7
    &&& hex[0] == '#'
    &&& forall|i: int| 1 <= i < 7 ==> digit(#[trigger] hex[i]) is Some
}

/// The byte that the two digits from place `i` on spell.
pub open spec fn byte_at(hex: Seq<char>, i: int) -> int {
    16 * digit(hex[i])->0 + digit(hex[i + 1])->0
}

/// Parses a hex colour string with `egui::Color32::from_hex` and hands out
/// the four channels of the colour with `Color32::to_tuple`. The parser reads
/// nothing but the string, so the result is the named one. Of a hash sign
/// and six hexadecimal digits it makes an opaque colour whose red, green and
/// blue channels are the bytes that the digits spell, two by two; of other
/// strings nothing is claimed here.
#[verifier::external_body]
fn parse_hex(hex: &str) -> (channels: Option<(u8, u8, u8, u8)>)
    ensures
        channels == hex_color(hex@),
        is_six_digit_code(hex@) ==> channels == Some(
            (byte_at(hex@, 1) as u8, byte_at(hex@, 3) as u8, byte_at(hex@, 5) as u8, 255u8),
        ),
{
    match egui::Color32::from_hex(hex) {
        Ok(color) => Some(color.to_tuple()),
        Err(_) => None,
    }
}

impl SampleType {
    /// The hex colour string of the role.
    pub open spec fn hex_code(&self) -> Seq<char> {
        match self {
            SampleType::Unused => "#D8DCE7"@,
            SampleType::Unknown => "#8CF490"@,
            SampleType::Standard => "#F57373"@,
            SampleType::Control => "#818FEF"@,
            SampleType::Blank => "#F1E07D"@,
        }
    }

    /// The red, green, blue and alpha channels of the role's colour.
    pub open spec fn channels(&self) -> (u8, u8, u8, u8) {
        match self {
            SampleType::Unused => (0xD8, 0xDC, 0xE7, 0xFF),
            SampleType::Unknown => (0x8C, 0xF4, 0x90, 0xFF),
            SampleType::Standard => (0xF5, 0x73, 0x73, 0xFF),
            SampleType::Control => (0x81, 0x8F, 0xEF, 0xFF),
            SampleType::Blank => (0xF1, 0xE0, 0x7D, 0xFF),
        }
    }

    /// The hex colour string of the role.
    pub fn hex(&self) -> (code: &'static str)
        ensures
            code@ == self.hex_code(),
    {
        match self {
            SampleType::Unused => "#D8DCE7",
            SampleType::Unknown => "#8CF490",
            SampleType::Standard => "#F57373",
            SampleType::Control => "#818FEF",
            SampleType::Blank => "#F1E07D",
        }
    }

    /// The colour of the role, as red, green, blue and alpha channels: what
    /// the parser makes of the role's hex colour string.
    pub fn color(&self) -> (channels: (u8, u8, u8, u8))
        ensures
            channels == self.channels(),
            hex_color(self.hex_code()) == Some(channels),
    {
        proof {
            lemma_codes_spell_channels(*self);
        }
        let parsed = parse_hex(self.hex());
        parsed.unwrap()
    }
}

/// The hex colour string of each role is a hash sign and six digits, and the
/// digits spell the role's channels.
pub proof fn lemma_codes_spell_channels(role: SampleType)
    ensures
        is_six_digit_code(role.hex_code()),
        byte_at(role.hex_code(), 1) == role.channels().0,
        byte_at(role.hex_code(), 3) == role.channels().1,
        byte_at(role.hex_code(), 5) == role.channels().2,
        role.channels().3 == 255,
{
    reveal_strlit("#D8DCE7");
    reveal_strlit("#8CF490");
    reveal_strlit("#F57373");
    reveal_strlit("#818FEF");
    reveal_strlit("#F1E07D");
    let code = role.hex_code();
    assert(code.len() == 7);
    assert(digit(code[1]) is Some);
    assert(digit(code[2]) is Some);
    assert(digit(code[3]) is Some);
    assert(digit(code[4]) is Some);
    assert(digit(code[5]) is Some);
    assert(digit(code[6]) is Some);
}

} // verus!
