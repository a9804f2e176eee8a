//! Risk categories and their severity.
use vstd::prelude::*;

use crate::text::{chars_of, eq_str, lower_seq, lower_vec, trim, trim_vec};

verus! {

/// Severity of a category for model notes and UI.
#[derive(Debug, Clone, Copy, PartialEq, Eq, Structural, Hash)]
pub enum Severity {
    /// Invisible / deceptive / terminal-abuse: warn the user; never offered as keep.
    Security,
    /// Language / emoji / tab: may be allowed by the user.
    Capability,
}

/// Character class that can be toggled in config and slash commands.
#[derive(Debug, Clone, Copy, PartialEq, Eq, Structural, PartialOrd, Ord, Hash)]
pub enum RiskCategory {
    Tab,
    ControlC0C1,
    BidiControls,
    ZeroWidthFormat,
    Emoji,
    MathAlphanumeric,
    MathSymbols,
    LatinExtended,
    UnicodeLetters,
    UnicodePunctuation,
    PrivateUse,
    Noncharacters,
}

/// Position of a category in the declaration order (0..12).
pub open spec fn cat_index(c: RiskCategory) -> nat {
    match c {
        RiskCategory::Tab => 0,
        RiskCategory::ControlC0C1 => 1,
        RiskCategory::BidiControls => 2,
        RiskCategory::ZeroWidthFormat => 3,
        RiskCategory::Emoji => 4,
        RiskCategory::MathAlphanumeric => 5,
        RiskCategory::MathSymbols => 6,
        RiskCategory::LatinExtended => 7,
        RiskCategory::UnicodeLetters => 8,
        RiskCategory::UnicodePunctuation => 9,
        RiskCategory::PrivateUse => 10,
        RiskCategory::Noncharacters => 11,
    }
}

/// The category at position `i` of the declaration order.
pub open spec fn cat_at(i: int) -> RiskCategory {
    if i == 0 {
        RiskCategory::Tab
    } else if i == 1 {
        RiskCategory::ControlC0C1
    } else if i == 2 {
        RiskCategory::BidiControls
    } else if i == 3 {
        RiskCategory::ZeroWidthFormat
    } else if i == 4 {
        RiskCategory::Emoji
    } else if i == 5 {
        RiskCategory::MathAlphanumeric
    } else if i == 6 {
        RiskCategory::MathSymbols
    } else if i == 7 {
        RiskCategory::LatinExtended
    } else if i == 8 {
        RiskCategory::UnicodeLetters
    } else if i == 9 {
        RiskCategory::UnicodePunctuation
    } else if i == 10 {
        RiskCategory::PrivateUse
    } else {
        RiskCategory::Noncharacters
    }
}

/// All categories in declaration order.
pub open spec fn all_categories() -> Seq<RiskCategory> {
    Seq::new(12, |i: int| cat_at(i))
}

pub proof fn lemma_cat_index(c: RiskCategory)
    ensures
        cat_index(c) < 12,
        cat_at(cat_index(c) as int) == c,
{
}

pub open spec fn spec_severity(c: RiskCategory) -> Severity {
    match c {
        RiskCategory::Tab
        | RiskCategory::Emoji
        | RiskCategory::MathSymbols
        | RiskCategory::LatinExtended
        | RiskCategory::UnicodeLetters
        | RiskCategory::UnicodePunctuation => Severity::Capability,
        _ => Severity::Security,
    }
}

pub open spec fn spec_allow_user_keep(c: RiskCategory) -> bool {
    spec_severity(c) == Severity::Capability
}

pub open spec fn spec_cat_name(c: RiskCategory) -> Seq<char> {
    match c {
        RiskCategory::Tab => "tab"@,
        RiskCategory::ControlC0C1 => "control_c0_c1"@,
        RiskCategory::BidiControls => "bidi_controls"@,
        RiskCategory::ZeroWidthFormat => "zero_width_format"@,
        RiskCategory::Emoji => "emoji"@,
        RiskCategory::MathAlphanumeric => "math_alphanumeric"@,
        RiskCategory::MathSymbols => "math_symbols"@,
        RiskCategory::LatinExtended => "latin_extended"@,
        RiskCategory::UnicodeLetters => "unicode_letters"@,
        RiskCategory::UnicodePunctuation => "unicode_punctuation"@,
        RiskCategory::PrivateUse => "private_use"@,
        RiskCategory::Noncharacters => "noncharacters"@,
    }
}

/// Category named by an already trimmed, lowercased key (names and aliases).
pub open spec fn spec_cat_from_key(k: Seq<char>) -> Option<RiskCategory> {
    if k == "tab"@ {
        Some(RiskCategory::Tab)
    } else if k == "control_c0_c1"@ || k == "control"@ {
        Some(RiskCategory::ControlC0C1)
    } else if k == "bidi_controls"@ || k == "bidi"@ {
        Some(RiskCategory::BidiControls)
    } else if k == "zero_width_format"@ || k == "zero_width"@ || k == "zwsp"@ {
        Some(RiskCategory::ZeroWidthFormat)
    } else if k == "emoji"@ {
        Some(RiskCategory::Emoji)
    } else if k == "math_alphanumeric"@ || k == "math_alnum"@ {
        Some(RiskCategory::MathAlphanumeric)
    } else if k == "math_symbols"@ || k == "math"@ {
        Some(RiskCategory::MathSymbols)
    } else if k == "latin_extended"@ || k == "latin"@ {
        Some(RiskCategory::LatinExtended)
    } else if k == "unicode_letters"@ || k == "letters"@ {
        Some(RiskCategory::UnicodeLetters)
    } else if k == "unicode_punctuation"@ || k == "punctuation"@ || k == "punct"@ {
        Some(RiskCategory::UnicodePunctuation)
    } else if k == "private_use"@ || k == "pua"@ {
        Some(RiskCategory::PrivateUse)
    } else if k == "noncharacters"@ || k == "noncharacter"@ {
        Some(RiskCategory::Noncharacters)
    } else {
        None
    }
}

/// `RiskCategory::parse`: trim, ASCII-lowercase, then match names and aliases.
pub open spec fn spec_cat_parse(s: Seq<char>) -> Option<RiskCategory> {
    spec_cat_from_key(lower_seq(trim(s)))
}

impl RiskCategory {
    /// All categories in declaration order.
    pub fn all() -> (v: Vec<RiskCategory>)
        ensures
            v@ == all_categories(),
    {
        let v = vec![
            RiskCategory::Tab,
            RiskCategory::ControlC0C1,
            RiskCategory::BidiControls,
            RiskCategory::ZeroWidthFormat,
            RiskCategory::Emoji,
            RiskCategory::MathAlphanumeric,
            RiskCategory::MathSymbols,
            RiskCategory::LatinExtended,
            RiskCategory::UnicodeLetters,
            RiskCategory::UnicodePunctuation,
            RiskCategory::PrivateUse,
            RiskCategory::Noncharacters,
        ];
        assert(v@ =~= all_categories());
        v
    }

    /// Position in declaration order.
    pub fn index(self) -> (i: usize)
        ensures
            i == cat_index(self),
    {
        match self {
            RiskCategory::Tab => 0,
            RiskCategory::ControlC0C1 => 1,
            RiskCategory::BidiControls => 2,
            RiskCategory::ZeroWidthFormat => 3,
            RiskCategory::Emoji => 4,
            RiskCategory::MathAlphanumeric => 5,
            RiskCategory::MathSymbols => 6,
            RiskCategory::LatinExtended => 7,
            RiskCategory::UnicodeLetters => 8,
            RiskCategory::UnicodePunctuation => 9,
            RiskCategory::PrivateUse => 10,
            RiskCategory::Noncharacters => 11,
        }
    }

    /// Snake-case config key of the category.
    pub fn as_str(self) -> (s: &'static str)
        ensures
            s@ == spec_cat_name(self),
    {
        match self {
            RiskCategory::Tab => "tab",
            RiskCategory::ControlC0C1 => "control_c0_c1",
            RiskCategory::BidiControls => "bidi_controls",
            RiskCategory::ZeroWidthFormat => "zero_width_format",
            RiskCategory::Emoji => "emoji",
            RiskCategory::MathAlphanumeric => "math_alphanumeric",
            RiskCategory::MathSymbols => "math_symbols",
            RiskCategory::LatinExtended => "latin_extended",
            RiskCategory::UnicodeLetters => "unicode_letters",
            RiskCategory::UnicodePunctuation => "unicode_punctuation",
            RiskCategory::PrivateUse => "private_use",
            RiskCategory::Noncharacters => "noncharacters",
        }
    }

    /// Parse a category name or alias (surrounding white space and ASCII case ignored).
    pub fn parse(s: &str) -> (r: Option<RiskCategory>)
        ensures
            r == spec_cat_parse(s@),
    {
        let k = lower_vec(&trim_vec(&chars_of(s)));
        if eq_str(&k, "tab") {
            Some(RiskCategory::Tab)
        } else if eq_str(&k, "control_c0_c1") || eq_str(&k, "control") {
            Some(RiskCategory::ControlC0C1)
        } else if eq_str(&k, "bidi_controls") || eq_str(&k, "bidi") {
            Some(RiskCategory::BidiControls)
        } else if eq_str(&k, "zero_width_format") || eq_str(&k, "zero_width") || eq_str(
            &k,
            "zwsp",
        ) {
            Some(RiskCategory::ZeroWidthFormat)
        } else if eq_str(&k, "emoji") {
            Some(RiskCategory::Emoji)
        } else if eq_str(&k, "math_alphanumeric") || eq_str(&k, "math_alnum") {
            Some(RiskCategory::MathAlphanumeric)
        } else if eq_str(&k, "math_symbols") || eq_str(&k, "math") {
            Some(RiskCategory::MathSymbols)
        } else if eq_str(&k, "latin_extended") || eq_str(&k, "latin") {
            Some(RiskCategory::LatinExtended)
        } else if eq_str(&k, "unicode_letters") || eq_str(&k, "letters") {
            Some(RiskCategory::UnicodeLetters)
        } else if eq_str(&k, "unicode_punctuation") || eq_str(&k, "punctuation") || eq_str(
            &k,
            "punct",
        ) {
            Some(RiskCategory::UnicodePunctuation)
        } else if eq_str(&k, "private_use") || eq_str(&k, "pua") {
            Some(RiskCategory::PrivateUse)
        } else if eq_str(&k, "noncharacters") || eq_str(&k, "noncharacter") {
            Some(RiskCategory::Noncharacters)
        } else {
            None
        }
    }

    pub fn severity(self) -> (s: Severity)
        ensures
            s == spec_severity(self),
    {
        match self {
            RiskCategory::Tab
            | RiskCategory::Emoji
            | RiskCategory::MathSymbols
            | RiskCategory::LatinExtended
            | RiskCategory::UnicodeLetters
            | RiskCategory::UnicodePunctuation => Severity::Capability,
            RiskCategory::ControlC0C1
            | RiskCategory::BidiControls
            | RiskCategory::ZeroWidthFormat
            | RiskCategory::MathAlphanumeric
            | RiskCategory::PrivateUse
            | RiskCategory::Noncharacters => Severity::Security,
        }
    }

    /// Whether `/input-allow` may set this category to keep.
    pub fn allow_user_keep(self) -> (b: bool)
        ensures
            b == spec_allow_user_keep(self),
    {
        match self.severity() {
            Severity::Capability => true,
            Severity::Security => false,
        }
    }

    /// Display text of the category (its config key).
    pub fn to_string(self) -> (s: String)
        ensures
            s@ == spec_cat_name(self),
    {
        crate::text::owned(self.as_str())
    }
}

} // verus!
