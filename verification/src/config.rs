//! The `[input_sanitize]` config table and its translation into a policy.
use vstd::prelude::*;

use crate::category::{spec_allow_user_keep, RiskCategory};
use crate::policy::{
    spec_profile_keeps, spec_profile_parse, CategoryAction, SanitizePolicy,
    SanitizeProfile,
};
use crate::text::{chars_of, eq_str, lower_seq, lower_vec};

verus! {

/// User-facing config table. All fields optional; missing means the terminal defaults.
#[derive(Debug, Clone)]
pub struct InputSanitizeConfig {
    pub enabled: Option<bool>,
    pub notify_when_stripped: Option<bool>,
    /// Statistical / steganographic residual-risk analysis (default true).
    pub analyze: Option<bool>,
    /// Named profile: `strict` | `balanced` | `multilingual` | `custom` (optional).
    pub profile: Option<String>,
    pub tab: Option<CategoryAction>,
    pub control_c0_c1: Option<CategoryAction>,
    pub bidi_controls: Option<CategoryAction>,
    pub zero_width_format: Option<CategoryAction>,
    pub emoji: Option<CategoryAction>,
    pub math_alphanumeric: Option<CategoryAction>,
    pub math_symbols: Option<CategoryAction>,
    pub latin_extended: Option<CategoryAction>,
    pub unicode_letters: Option<CategoryAction>,
    pub unicode_punctuation: Option<CategoryAction>,
    pub private_use: Option<CategoryAction>,
    pub noncharacters: Option<CategoryAction>,
}

/// The configured action of one category.
pub open spec fn cfg_action(cfg: InputSanitizeConfig, c: RiskCategory) -> Option<CategoryAction> {
    match c {
        RiskCategory::Tab => cfg.tab,
        RiskCategory::ControlC0C1 => cfg.control_c0_c1,
        RiskCategory::BidiControls => cfg.bidi_controls,
        RiskCategory::ZeroWidthFormat => cfg.zero_width_format,
        RiskCategory::Emoji => cfg.emoji,
        RiskCategory::MathAlphanumeric => cfg.math_alphanumeric,
        RiskCategory::MathSymbols => cfg.math_symbols,
        RiskCategory::LatinExtended => cfg.latin_extended,
        RiskCategory::UnicodeLetters => cfg.unicode_letters,
        RiskCategory::UnicodePunctuation => cfg.unicode_punctuation,
        RiskCategory::PrivateUse => cfg.private_use,
        RiskCategory::Noncharacters => cfg.noncharacters,
    }
}

/// A config without a profile, or with profile `custom` (any ASCII case),
/// starts from the terminal default.
pub open spec fn cfg_starts_terminal(cfg: InputSanitizeConfig) -> bool {
    match cfg.profile {
        Some(name) => lower_seq(name@) == "custom"@,
        None => true,
    }
}

/// The profile any other config starts from: the named one, balanced when
/// the name is unknown.
pub open spec fn cfg_base_profile(cfg: InputSanitizeConfig) -> SanitizeProfile {
    match cfg.profile {
        Some(name) => match spec_profile_parse(name@) {
            Some(p) => p,
            None => SanitizeProfile::Balanced,
        },
        None => SanitizeProfile::Balanced,
    }
}

/// Whether the starting point of a config keeps `c`.
pub open spec fn cfg_base_keeps(cfg: InputSanitizeConfig, c: RiskCategory) -> bool {
    if cfg_starts_terminal(cfg) {
        c == RiskCategory::Emoji
    } else {
        spec_profile_keeps(cfg_base_profile(cfg), c)
    }
}

pub open spec fn unwrap_bool(o: Option<bool>, d: bool) -> bool {
    match o {
        Some(b) => b,
        None => d,
    }
}

/// Action of `c` after the config overrides the base profile. A keep on a
/// security category is ignored (fail closed).
pub open spec fn cfg_effective_action(cfg: InputSanitizeConfig, c: RiskCategory) -> CategoryAction {
    match cfg_action(cfg, c) {
        Some(a) => if a == CategoryAction::Keep && !spec_allow_user_keep(c) {
            CategoryAction::Strip
        } else {
            a
        },
        None => if cfg_base_keeps(cfg, c) {
            CategoryAction::Keep
        } else {
            CategoryAction::Strip
        },
    }
}

/// The policy a config describes.
pub open spec fn is_config_policy(p: SanitizePolicy, cfg: InputSanitizeConfig) -> bool {
    &&& p.enabled == unwrap_bool(cfg.enabled, true)
    &&& p.notify_when_stripped == unwrap_bool(cfg.notify_when_stripped, true)
    &&& p.analyze_enabled == unwrap_bool(cfg.analyze, true)
    &&& forall|c: RiskCategory| #[trigger] p.spec_action(c) == cfg_effective_action(cfg, c)
}

pub open spec fn overlay<T>(base: Option<T>, top: Option<T>) -> Option<T> {
    match top {
        Some(v) => Some(v),
        None => base,
    }
}

/// `merged` is `base` with every field that `top` sets taken from `top`.
pub open spec fn is_overlay(
    merged: InputSanitizeConfig,
    base: InputSanitizeConfig,
    top: InputSanitizeConfig,
) -> bool {
    &&& merged.enabled == overlay(base.enabled, top.enabled)
    &&& merged.notify_when_stripped == overlay(base.notify_when_stripped, top.notify_when_stripped)
    &&& merged.analyze == overlay(base.analyze, top.analyze)
    &&& match top.profile {
        Some(t) => merged.profile matches Some(m) && m@ == t@,
        None => merged.profile == base.profile,
    }
    &&& forall|c: RiskCategory| #[trigger]
        cfg_action(merged, c) == overlay(cfg_action(base, c), cfg_action(top, c))
}

/// Overlay one optional switch (`other` wins when set).
pub fn merge_opt<T: Copy>(slot: &mut Option<T>, other: Option<T>)
    ensures
        *final(slot) == overlay(*old(slot), other),
{
    if other.is_some() {
        *slot = other;
    }
}

fn apply_cfg_action(p: &mut SanitizePolicy, cat: RiskCategory, a: Option<CategoryAction>)
    ensures
        final(p).enabled == old(p).enabled,
        final(p).notify_when_stripped == old(p).notify_when_stripped,
        final(p).analyze_enabled == old(p).analyze_enabled,
        final(p).spec_action(cat) == match a {
            Some(x) => if x == CategoryAction::Keep && !spec_allow_user_keep(cat) {
                old(p).spec_action(cat)
            } else {
                x
            },
            None => old(p).spec_action(cat),
        },
        forall|c: RiskCategory| c != cat ==> #[trigger] final(p).spec_action(c) == old(p).spec_action(c),
{
    if let Some(x) = a {
        // Security keep is ignored at config load (fail closed).
        let _ = p.set_action(cat, x);
    }
}

impl Default for InputSanitizeConfig {
    /// Every field unset.
    fn default() -> (c: InputSanitizeConfig)
        ensures
            c.enabled is None,
            c.notify_when_stripped is None,
            c.analyze is None,
            c.profile is None,
            forall|cat: RiskCategory| #[trigger] cfg_action(c, cat) is None,
    {
        InputSanitizeConfig {
            enabled: None,
            notify_when_stripped: None,
            analyze: None,
            profile: None,
            tab: None,
            control_c0_c1: None,
            bidi_controls: None,
            zero_width_format: None,
            emoji: None,
            math_alphanumeric: None,
            math_symbols: None,
            latin_extended: None,
            unicode_letters: None,
            unicode_punctuation: None,
            private_use: None,
            noncharacters: None,
        }
    }
}

impl InputSanitizeConfig {
    /// Build a runtime policy from this config (profile defaults + overrides).
    pub fn to_policy(&self) -> (p: SanitizePolicy)
        ensures
            is_config_policy(p, *self),
    {
        let start_terminal = match &self.profile {
            Some(name) => {
                let k = lower_vec(&chars_of(name.as_str()));
                eq_str(&k, "custom")
            },
            None => true,
        };
        let mut p = if start_terminal {
            SanitizePolicy::terminal()
        } else {
            let base = match &self.profile {
                Some(name) => match SanitizeProfile::parse(name.as_str()) {
                    Some(pr) => pr,
                    None => SanitizeProfile::Balanced,
                },
                None => SanitizeProfile::Balanced,
            };
            assert(base == cfg_base_profile(*self));
            base.to_policy()
        };
        assert(start_terminal == cfg_starts_terminal(*self));
        let ghost p0 = p;
        assert forall|c: RiskCategory| #[trigger] p0.spec_action(c) == if cfg_base_keeps(*self, c) {
            CategoryAction::Keep
        } else {
            CategoryAction::Strip
        } by {}
        if let Some(v) = self.enabled {
            p.enabled = v;
        }
        if let Some(v) = self.notify_when_stripped {
            p.notify_when_stripped = v;
        }
        if let Some(v) = self.analyze {
            p.analyze_enabled = v;
        }
        assert(p.actions == p0.actions);
        apply_cfg_action(&mut p, RiskCategory::Tab, self.tab);
        apply_cfg_action(&mut p, RiskCategory::ControlC0C1, self.control_c0_c1);
        apply_cfg_action(&mut p, RiskCategory::BidiControls, self.bidi_controls);
        apply_cfg_action(&mut p, RiskCategory::ZeroWidthFormat, self.zero_width_format);
        apply_cfg_action(&mut p, RiskCategory::Emoji, self.emoji);
        apply_cfg_action(&mut p, RiskCategory::MathAlphanumeric, self.math_alphanumeric);
        apply_cfg_action(&mut p, RiskCategory::MathSymbols, self.math_symbols);
        apply_cfg_action(&mut p, RiskCategory::LatinExtended, self.latin_extended);
        apply_cfg_action(&mut p, RiskCategory::UnicodeLetters, self.unicode_letters);
        apply_cfg_action(&mut p, RiskCategory::UnicodePunctuation, self.unicode_punctuation);
        apply_cfg_action(&mut p, RiskCategory::PrivateUse, self.private_use);
        apply_cfg_action(&mut p, RiskCategory::Noncharacters, self.noncharacters);
        assert forall|c: RiskCategory| #[trigger] p.spec_action(c) == cfg_effective_action(*self, c) by {
            assert(p0.spec_action(c) == if cfg_base_keeps(*self, c) {
                CategoryAction::Keep
            } else {
                CategoryAction::Strip
            });
        }
        p
    }

    /// Overlay another config (e.g. project over user). `other` wins when set.
    pub fn merge_over(&mut self, other: &InputSanitizeConfig)
        ensures
            is_overlay(*final(self), *old(self), *other),
    {
        merge_opt(&mut self.enabled, other.enabled);
        merge_opt(&mut self.notify_when_stripped, other.notify_when_stripped);
        merge_opt(&mut self.analyze, other.analyze);
        match &other.profile {
            Some(name) => {
                self.profile = Some(name.clone());
            },
            None => {},
        }
        merge_opt(&mut self.tab, other.tab);
        merge_opt(&mut self.control_c0_c1, other.control_c0_c1);
        merge_opt(&mut self.bidi_controls, other.bidi_controls);
        merge_opt(&mut self.zero_width_format, other.zero_width_format);
        merge_opt(&mut self.emoji, other.emoji);
        merge_opt(&mut self.math_alphanumeric, other.math_alphanumeric);
        merge_opt(&mut self.math_symbols, other.math_symbols);
        merge_opt(&mut self.latin_extended, other.latin_extended);
        merge_opt(&mut self.unicode_letters, other.unicode_letters);
        merge_opt(&mut self.unicode_punctuation, other.unicode_punctuation);
        merge_opt(&mut self.private_use, other.private_use);
        merge_opt(&mut self.noncharacters, other.noncharacters);
    }
}

/// The config with every field unset.
pub open spec fn unset_config() -> InputSanitizeConfig {
    InputSanitizeConfig {
        enabled: None,
        notify_when_stripped: None,
        analyze: None,
        profile: None,
        tab: None,
        control_c0_c1: None,
        bidi_controls: None,
        zero_width_format: None,
        emoji: None,
        math_alphanumeric: None,
        math_symbols: None,
        latin_extended: None,
        unicode_letters: None,
        unicode_punctuation: None,
        private_use: None,
        noncharacters: None,
    }
}

/// A layer that may be absent; an absent layer sets nothing.
pub open spec fn layer(o: Option<&InputSanitizeConfig>) -> InputSanitizeConfig {
    match o {
        Some(c) => *c,
        None => unset_config(),
    }
}

/// The profile name of a config, by its text.
pub open spec fn profile_view(c: InputSanitizeConfig) -> Option<Seq<char>> {
    match c.profile {
        Some(s) => Some(s@),
        None => None,
    }
}

/// `merged` is the unset config overlaid with `user`, then with `project`:
/// each field comes from the project when it sets it, else from the user.
pub open spec fn is_layered(
    merged: InputSanitizeConfig,
    user: InputSanitizeConfig,
    project: InputSanitizeConfig,
) -> bool {
    &&& merged.enabled == overlay(user.enabled, project.enabled)
    &&& merged.notify_when_stripped == overlay(
        user.notify_when_stripped,
        project.notify_when_stripped,
    )
    &&& merged.analyze == overlay(user.analyze, project.analyze)
    &&& profile_view(merged) == overlay(profile_view(user), profile_view(project))
    &&& forall|c: RiskCategory| #[trigger]
        cfg_action(merged, c) == overlay(cfg_action(user, c), cfg_action(project, c))
}

/// Merged policy of the config layers: defaults, then the user table, then the
/// project table (each later layer wins on the fields it sets).
pub fn policy_from_layers(
    user: Option<&InputSanitizeConfig>,
    project: Option<&InputSanitizeConfig>,
) -> (r: (InputSanitizeConfig, SanitizePolicy))
    ensures
        is_layered(r.0, layer(user), layer(project)),
        is_config_policy(r.1, r.0),
{
    let mut cfg = InputSanitizeConfig::default();
    if let Some(u) = user {
        cfg.merge_over(u);
    }
    let ghost c1 = cfg;
    assert(is_layered(c1, layer(user), unset_config()));
    if let Some(pr) = project {
        cfg.merge_over(pr);
    }
    assert(is_layered(cfg, layer(user), layer(project))) by {
        assert forall|c: RiskCategory| #[trigger] cfg_action(cfg, c) == overlay(
            cfg_action(layer(user), c),
            cfg_action(layer(project), c),
        ) by {
            assert(cfg_action(c1, c) == overlay(cfg_action(layer(user), c), cfg_action(unset_config(), c)));
        }
    }
    let p = cfg.to_policy();
    (cfg, p)
}

} // verus!
