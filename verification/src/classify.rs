//! Character classification into risk categories.
use vstd::prelude::*;

use crate::category::RiskCategory;
use crate::policy::SanitizePolicy;
use crate::text::{char_is_alphabetic, unicode_alphabetic};

verus! {

/// Base allowlist: printable ASCII and LF (CR is normalized before classification).
pub open spec fn spec_is_base_allowed(c: char) -> bool {
    c == '\n' || (' ' <= c && c <= '~')
}

pub open spec fn in_range(cp: u32, lo: u32, hi: u32) -> bool {
    lo <= cp && cp <= hi
}

pub open spec fn spec_is_noncharacter(cp: u32) -> bool {
    in_range(cp, 0xFDD0, 0xFDEF) || (cp & 0xFFFE) == 0xFFFE
}

pub open spec fn spec_is_private_use(cp: u32) -> bool {
    in_range(cp, 0xE000, 0xF8FF) || in_range(cp, 0xF0000, 0xFFFFD) || in_range(
        cp,
        0x100000,
        0x10FFFD,
    )
}

pub open spec fn spec_is_bidi_control(cp: u32) -> bool {
    cp == 0x061C || cp == 0x200E || cp == 0x200F || in_range(cp, 0x202A, 0x202E) || in_range(
        cp,
        0x2066,
        0x2069,
    )
}

/// Invisible format characters, separators, variation selectors (other than
/// VS-16), blank fillers and Unicode spaces other than U+0020.
pub open spec fn spec_is_zero_width_format(cp: u32) -> bool {
    cp == 0x00A0 || cp == 0x00AD || cp == 0x034F || cp == 0x115F || cp == 0x1160 || cp == 0x1680
        || cp == 0x180E || in_range(cp, 0x2000, 0x200D) || in_range(cp, 0x2028, 0x2029) || cp
        == 0x202F || in_range(cp, 0x205F, 0x2064) || in_range(cp, 0x206A, 0x206F) || cp == 0x2800
        || cp == 0x3000 || cp == 0x3164 || in_range(cp, 0xFE00, 0xFE0E) || cp == 0xFEFF || cp
        == 0xFFA0 || in_range(cp, 0xFFF9, 0xFFFB) || cp == 0xE0001 || in_range(
        cp,
        0xE0020,
        0xE007F,
    ) || in_range(cp, 0xE0100, 0xE01EF)
}

pub open spec fn spec_is_math_alphanumeric(cp: u32) -> bool {
    in_range(cp, 0x1D400, 0x1D7FF)
}

pub open spec fn spec_is_fullwidth_latin(cp: u32) -> bool {
    in_range(cp, 0xFF01, 0xFF5E)
}

pub open spec fn spec_is_emoji_codepoint(cp: u32) -> bool {
    in_range(cp, 0x1F300, 0x1FAFF) || in_range(cp, 0x1F1E6, 0x1F1FF) || in_range(
        cp,
        0x2600,
        0x27BF,
    ) || in_range(cp, 0x2300, 0x23FF)
}

pub open spec fn spec_is_math_symbol(cp: u32) -> bool {
    in_range(cp, 0x2200, 0x22FF) || in_range(cp, 0x27C0, 0x27EF) || in_range(cp, 0x2980, 0x29FF)
        || in_range(cp, 0x2A00, 0x2AFF) || in_range(cp, 0x2100, 0x214F) || in_range(
        cp,
        0x2190,
        0x21FF,
    )
}

pub open spec fn spec_is_latin_extended(cp: u32) -> bool {
    in_range(cp, 0x00C0, 0x00D6) || in_range(cp, 0x00D8, 0x00F6) || in_range(cp, 0x00F8, 0x00FF)
        || in_range(cp, 0x0100, 0x017F) || in_range(cp, 0x0180, 0x024F) || in_range(
        cp,
        0x1E00,
        0x1EFF,
    ) || in_range(cp, 0x2C60, 0x2C7F) || in_range(cp, 0xA720, 0xA7FF) || in_range(
        cp,
        0xAB30,
        0xAB6F,
    )
}

pub open spec fn spec_is_combining_mark_for_latin(cp: u32) -> bool {
    in_range(cp, 0x0300, 0x036F)
}

/// Category of a character that is not in the base allowlist. Specific buckets
/// are tried before the generic letter / punctuation buckets.
pub open spec fn spec_classify(c: char) -> RiskCategory {
    let cp = c as u32;
    if c == '\t' {
        RiskCategory::Tab
    } else if cp <= 0x1F || cp == 0x7F || in_range(cp, 0x80, 0x9F) {
        RiskCategory::ControlC0C1
    } else if spec_is_noncharacter(cp) {
        RiskCategory::Noncharacters
    } else if spec_is_private_use(cp) {
        RiskCategory::PrivateUse
    } else if spec_is_bidi_control(cp) {
        RiskCategory::BidiControls
    } else if spec_is_math_alphanumeric(cp) || spec_is_fullwidth_latin(cp) {
        RiskCategory::MathAlphanumeric
    } else if spec_is_emoji_codepoint(cp) || cp == 0xFE0F {
        RiskCategory::Emoji
    } else if spec_is_zero_width_format(cp) {
        RiskCategory::ZeroWidthFormat
    } else if spec_is_math_symbol(cp) {
        RiskCategory::MathSymbols
    } else if spec_is_latin_extended(cp) || spec_is_combining_mark_for_latin(cp) {
        RiskCategory::LatinExtended
    } else if unicode_alphabetic(c) {
        RiskCategory::UnicodeLetters
    } else {
        RiskCategory::UnicodePunctuation
    }
}

/// Base allowlist: printable ASCII + LF (CR normalized before classify).
pub fn is_base_allowed(c: char) -> (r: bool)
    ensures
        r == spec_is_base_allowed(c),
{
    c == '\n' || (' ' <= c && c <= '~')
}

fn is_noncharacter(cp: u32) -> (r: bool)
    ensures
        r == spec_is_noncharacter(cp),
{
    (0xFDD0 <= cp && cp <= 0xFDEF) || (cp & 0xFFFE) == 0xFFFE
}

fn is_private_use(cp: u32) -> (r: bool)
    ensures
        r == spec_is_private_use(cp),
{
    (0xE000 <= cp && cp <= 0xF8FF) || (0xF0000 <= cp && cp <= 0xFFFFD) || (0x100000 <= cp && cp
        <= 0x10FFFD)
}

fn is_bidi_control(cp: u32) -> (r: bool)
    ensures
        r == spec_is_bidi_control(cp),
{
    cp == 0x061C || cp == 0x200E || cp == 0x200F || (0x202A <= cp && cp <= 0x202E) || (0x2066
        <= cp && cp <= 0x2069)
}

fn is_zero_width_format(cp: u32) -> (r: bool)
    ensures
        r == spec_is_zero_width_format(cp),
{
    cp == 0x00A0 || cp == 0x00AD || cp == 0x034F || cp == 0x115F || cp == 0x1160 || cp == 0x1680
        || cp == 0x180E || (0x2000 <= cp && cp <= 0x200D) || (0x2028 <= cp && cp <= 0x2029) || cp
        == 0x202F || (0x205F <= cp && cp <= 0x2064) || (0x206A <= cp && cp <= 0x206F) || cp
        == 0x2800 || cp == 0x3000 || cp == 0x3164 || (0xFE00 <= cp && cp <= 0xFE0E) || cp == 0xFEFF
        || cp == 0xFFA0 || (0xFFF9 <= cp && cp <= 0xFFFB) || cp == 0xE0001 || (0xE0020 <= cp && cp
        <= 0xE007F) || (0xE0100 <= cp && cp <= 0xE01EF)
}

fn is_math_alphanumeric(cp: u32) -> (r: bool)
    ensures
        r == spec_is_math_alphanumeric(cp),
{
    0x1D400 <= cp && cp <= 0x1D7FF
}

fn is_fullwidth_latin(cp: u32) -> (r: bool)
    ensures
        r == spec_is_fullwidth_latin(cp),
{
    0xFF01 <= cp && cp <= 0xFF5E
}

fn is_emoji_codepoint(cp: u32) -> (r: bool)
    ensures
        r == spec_is_emoji_codepoint(cp),
{
    (0x1F300 <= cp && cp <= 0x1FAFF) || (0x1F1E6 <= cp && cp <= 0x1F1FF) || (0x2600 <= cp && cp
        <= 0x27BF) || (0x2300 <= cp && cp <= 0x23FF)
}

fn is_math_symbol(cp: u32) -> (r: bool)
    ensures
        r == spec_is_math_symbol(cp),
{
    (0x2200 <= cp && cp <= 0x22FF) || (0x27C0 <= cp && cp <= 0x27EF) || (0x2980 <= cp && cp
        <= 0x29FF) || (0x2A00 <= cp && cp <= 0x2AFF) || (0x2100 <= cp && cp <= 0x214F) || (0x2190
        <= cp && cp <= 0x21FF)
}

fn is_latin_extended(cp: u32) -> (r: bool)
    ensures
        r == spec_is_latin_extended(cp),
{
    (0x00C0 <= cp && cp <= 0x00D6) || (0x00D8 <= cp && cp <= 0x00F6) || (0x00F8 <= cp && cp
        <= 0x00FF) || (0x0100 <= cp && cp <= 0x017F) || (0x0180 <= cp && cp <= 0x024F) || (0x1E00
        <= cp && cp <= 0x1EFF) || (0x2C60 <= cp && cp <= 0x2C7F) || (0xA720 <= cp && cp <= 0xA7FF)
        || (0xAB30 <= cp && cp <= 0xAB6F)
}

fn is_combining_mark_for_latin(cp: u32) -> (r: bool)
    ensures
        r == spec_is_combining_mark_for_latin(cp),
{
    0x0300 <= cp && cp <= 0x036F
}

/// Classify a non-base character. The policy does not influence the bucket:
/// ZWJ is always a zero-width format character and VS-16 always emoji.
pub fn classify(c: char, _policy: &SanitizePolicy) -> (cat: RiskCategory)
    ensures
        cat == spec_classify(c),
{
    let cp = c as u32;
    if c == '\t' {
        return RiskCategory::Tab;
    }
    if cp <= 0x1F || cp == 0x7F || (0x80 <= cp && cp <= 0x9F) {
        return RiskCategory::ControlC0C1;
    }
    if is_noncharacter(cp) {
        return RiskCategory::Noncharacters;
    }
    if is_private_use(cp) {
        return RiskCategory::PrivateUse;
    }
    if is_bidi_control(cp) {
        return RiskCategory::BidiControls;
    }
    if is_math_alphanumeric(cp) || is_fullwidth_latin(cp) {
        return RiskCategory::MathAlphanumeric;
    }
    if is_emoji_codepoint(cp) || cp == 0xFE0F {
        return RiskCategory::Emoji;
    }
    if is_zero_width_format(cp) {
        return RiskCategory::ZeroWidthFormat;
    }
    if is_math_symbol(cp) {
        return RiskCategory::MathSymbols;
    }
    if is_latin_extended(cp) || is_combining_mark_for_latin(cp) {
        return RiskCategory::LatinExtended;
    }
    if char_is_alphabetic(c) {
        return RiskCategory::UnicodeLetters;
    }
    RiskCategory::UnicodePunctuation
}

} // verus!
