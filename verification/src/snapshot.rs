//! Compact snapshot of the terminal input-sanitize policy, for a settings
//! screen: the three switches and the keep state of each capability
//! category that can be toggled.
use vstd::prelude::*;

use crate::category::RiskCategory;
use crate::policy::{CategoryAction, SanitizePolicy};

verus! {

/// Live snapshot of the terminal input-sanitize policy.
#[derive(Debug, Clone, Copy, PartialEq, Eq, Structural)]
pub struct InputSanitizeSnapshot {
    pub enabled: bool,
    pub notify_when_stripped: bool,
    pub analyze: bool,
    pub tab_keep: bool,
    pub emoji_keep: bool,
    pub math_symbols_keep: bool,
    pub latin_extended_keep: bool,
    pub unicode_letters_keep: bool,
    pub unicode_punctuation_keep: bool,
}

impl Default for InputSanitizeSnapshot {
    /// Filtering, notification and analysis on; only emoji kept.
    fn default() -> (s: InputSanitizeSnapshot)
        ensures
            s == (InputSanitizeSnapshot {
                enabled: true,
                notify_when_stripped: true,
                analyze: true,
                tab_keep: false,
                emoji_keep: true,
                math_symbols_keep: false,
                latin_extended_keep: false,
                unicode_letters_keep: false,
                unicode_punctuation_keep: false,
            }),
    {
        InputSanitizeSnapshot {
            enabled: true,
            notify_when_stripped: true,
            analyze: true,
            tab_keep: false,
            emoji_keep: true,
            math_symbols_keep: false,
            latin_extended_keep: false,
            unicode_letters_keep: false,
            unicode_punctuation_keep: false,
        }
    }
}

/// The snapshot of a policy.
pub open spec fn spec_snapshot(p: SanitizePolicy) -> InputSanitizeSnapshot {
    InputSanitizeSnapshot {
        enabled: p.enabled,
        notify_when_stripped: p.notify_when_stripped,
        analyze: p.analyze_enabled,
        tab_keep: p.spec_action(RiskCategory::Tab) == CategoryAction::Keep,
        emoji_keep: p.spec_action(RiskCategory::Emoji) == CategoryAction::Keep,
        math_symbols_keep: p.spec_action(RiskCategory::MathSymbols) == CategoryAction::Keep,
        latin_extended_keep: p.spec_action(RiskCategory::LatinExtended) == CategoryAction::Keep,
        unicode_letters_keep: p.spec_action(RiskCategory::UnicodeLetters) == CategoryAction::Keep,
        unicode_punctuation_keep: p.spec_action(RiskCategory::UnicodePunctuation)
            == CategoryAction::Keep,
    }
}

/// Keep state of a category in a snapshot; categories without a toggle
/// read as not kept.
pub open spec fn spec_category_keep(s: InputSanitizeSnapshot, cat: RiskCategory) -> bool {
    match cat {
        RiskCategory::Tab => s.tab_keep,
        RiskCategory::Emoji => s.emoji_keep,
        RiskCategory::MathSymbols => s.math_symbols_keep,
        RiskCategory::LatinExtended => s.latin_extended_keep,
        RiskCategory::UnicodeLetters => s.unicode_letters_keep,
        RiskCategory::UnicodePunctuation => s.unicode_punctuation_keep,
        _ => false,
    }
}

impl InputSanitizeSnapshot {
    pub fn from_policy(p: &SanitizePolicy) -> (s: InputSanitizeSnapshot)
        ensures
            s == spec_snapshot(*p),
    {
        InputSanitizeSnapshot {
            enabled: p.enabled,
            notify_when_stripped: p.notify_when_stripped,
            analyze: p.analyze_enabled,
            tab_keep: p.action(RiskCategory::Tab) == CategoryAction::Keep,
            emoji_keep: p.action(RiskCategory::Emoji) == CategoryAction::Keep,
            math_symbols_keep: p.action(RiskCategory::MathSymbols) == CategoryAction::Keep,
            latin_extended_keep: p.action(RiskCategory::LatinExtended) == CategoryAction::Keep,
            unicode_letters_keep: p.action(RiskCategory::UnicodeLetters) == CategoryAction::Keep,
            unicode_punctuation_keep: p.action(RiskCategory::UnicodePunctuation)
                == CategoryAction::Keep,
        }
    }

    pub fn category_keep(&self, cat: RiskCategory) -> (b: bool)
        ensures
            b == spec_category_keep(*self, cat),
    {
        match cat {
            RiskCategory::Tab => self.tab_keep,
            RiskCategory::Emoji => self.emoji_keep,
            RiskCategory::MathSymbols => self.math_symbols_keep,
            RiskCategory::LatinExtended => self.latin_extended_keep,
            RiskCategory::UnicodeLetters => self.unicode_letters_keep,
            RiskCategory::UnicodePunctuation => self.unicode_punctuation_keep,
            _ => false,
        }
    }
}

/// The snapshot of a policy reads a category as kept only when the policy
/// keeps it, and for every category with a toggle exactly when it does.
pub proof fn law_snapshot_reads_policy(p: SanitizePolicy, cat: RiskCategory)
    ensures
        spec_category_keep(spec_snapshot(p), cat) ==> p.spec_action(cat) == CategoryAction::Keep,
        (cat == RiskCategory::Tab || cat == RiskCategory::Emoji || cat == RiskCategory::MathSymbols
            || cat == RiskCategory::LatinExtended || cat == RiskCategory::UnicodeLetters || cat
            == RiskCategory::UnicodePunctuation) ==> (spec_category_keep(spec_snapshot(p), cat)
            == (p.spec_action(cat) == CategoryAction::Keep)),
{
}

} // verus!
