use vstd::prelude::*;

verus! {

/// The bytes with a meaning in the markup.
pub const SPACE: u8 = 32u8;
pub const CR: u8 = 13u8;
pub const LF: u8 = 10u8;
pub const BACKTICK: u8 = 96u8;
pub const LT: u8 = 60u8;
pub const GT: u8 = 62u8;
pub const PERCENT: u8 = 37u8;
pub const HYPHEN: u8 = 45u8;
pub const EQUALS: u8 = 61u8;
pub const HASH: u8 = 35u8;
pub const ASTERISK: u8 = 42u8;
pub const SEMICOLON: u8 = 59u8;
pub const COLON: u8 = 58u8;
pub const LEFT_BRACE: u8 = 123u8;
pub const RIGHT_BRACE: u8 = 125u8;
pub const PIPE: u8 = 124u8;
pub const PLUS: u8 = 43u8;
pub const EXCLAMATION: u8 = 33u8;

/// Whether a byte is one of the ASCII punctuation bytes that may carry meaning
/// in the markup.
pub open spec fn spec_is_markup(b: u8) -> bool {
    (0x21u8 <= b <= 0x2fu8) || (0x3au8 <= b <= 0x40u8) || (0x5bu8 <= b <= 0x60u8) || (0x7bu8
        <= b <= 0x7eu8)
}

/// Whether a byte is one of the ASCII punctuation bytes that may carry meaning
/// in the markup.
pub fn is_markup(b: u8) -> (r: bool)
    ensures
        r == spec_is_markup(b),
{
    (0x21u8 <= b && b <= 0x2fu8) || (0x3au8 <= b && b <= 0x40u8) || (0x5bu8 <= b && b <= 0x60u8)
        || (0x7bu8 <= b && b <= 0x7eu8)
}

} // verus!
