//! Sanitize policy, named profiles and per-category actions.
use vstd::prelude::*;

use crate::category::{
    all_categories, cat_index, spec_allow_user_keep, spec_severity, RiskCategory, Severity,
};
use crate::text::{chars_of, eq_str, lower_seq, lower_vec, trim, trim_vec};

verus! {

/// Per-category handling.
#[derive(Debug, Clone, Copy, PartialEq, Eq, Structural, Hash)]
pub enum CategoryAction {
    /// Remove matching characters (default).
    Strip,
    /// Leave matching characters in the output.
    Keep,
    /// Fail the whole sanitize if any matching character appears.
    Reject,
}

impl Default for CategoryAction {
    fn default() -> (a: CategoryAction)
        ensures
            a == CategoryAction::Strip,
    {
        CategoryAction::Strip
    }
}

pub open spec fn spec_action_name(a: CategoryAction) -> Seq<char> {
    match a {
        CategoryAction::Strip => "strip"@,
        CategoryAction::Keep => "keep"@,
        CategoryAction::Reject => "reject"@,
    }
}

/// `CategoryAction::parse`: trimmed, ASCII-lowercased `strip` / `keep` / `reject`.
pub open spec fn spec_action_parse(s: Seq<char>) -> Option<CategoryAction> {
    let k = lower_seq(trim(s));
    if k == "strip"@ {
        Some(CategoryAction::Strip)
    } else if k == "keep"@ {
        Some(CategoryAction::Keep)
    } else if k == "reject"@ {
        Some(CategoryAction::Reject)
    } else {
        None
    }
}

impl CategoryAction {
    pub fn parse(s: &str) -> (r: Option<CategoryAction>)
        ensures
            r == spec_action_parse(s@),
    {
        let k = lower_vec(&trim_vec(&chars_of(s)));
        if eq_str(&k, "strip") {
            Some(CategoryAction::Strip)
        } else if eq_str(&k, "keep") {
            Some(CategoryAction::Keep)
        } else if eq_str(&k, "reject") {
            Some(CategoryAction::Reject)
        } else {
            None
        }
    }

    pub fn as_str(self) -> (s: &'static str)
        ensures
            s@ == spec_action_name(self),
    {
        match self {
            CategoryAction::Strip => "strip",
            CategoryAction::Keep => "keep",
            CategoryAction::Reject => "reject",
        }
    }
}

/// One action per category. Security categories are never set to keep.
#[derive(Debug, Clone, Copy, PartialEq, Eq, Structural)]
pub struct ActionTable {
    tab: CategoryAction,
    control_c0_c1: CategoryAction,
    bidi_controls: CategoryAction,
    zero_width_format: CategoryAction,
    emoji: CategoryAction,
    math_alphanumeric: CategoryAction,
    math_symbols: CategoryAction,
    latin_extended: CategoryAction,
    unicode_letters: CategoryAction,
    unicode_punctuation: CategoryAction,
    private_use: CategoryAction,
    noncharacters: CategoryAction,
}

impl ActionTable {
    /// The action of one category.
    pub closed spec fn spec_get(self, cat: RiskCategory) -> CategoryAction {
        match cat {
            RiskCategory::Tab => self.tab,
            RiskCategory::ControlC0C1 => self.control_c0_c1,
            RiskCategory::BidiControls => self.bidi_controls,
            RiskCategory::ZeroWidthFormat => self.zero_width_format,
            RiskCategory::Emoji => self.emoji,
            RiskCategory::MathAlphanumeric => self.math_alphanumeric,
            RiskCategory::MathSymbols => self.math_symbols,
            RiskCategory::LatinExtended => self.latin_extended,
            RiskCategory::UnicodeLetters => self.unicode_letters,
            RiskCategory::UnicodePunctuation => self.unicode_punctuation,
            RiskCategory::PrivateUse => self.private_use,
            RiskCategory::Noncharacters => self.noncharacters,
        }
    }

    /// No security category is ever kept.
    #[verifier::type_invariant]
    pub open spec fn security_not_kept(self) -> bool {
        forall|c: RiskCategory|
            spec_severity(c) == Severity::Security ==> self.spec_get(c) != CategoryAction::Keep
    }

    /// Table where exactly the capability categories selected by `keep` are kept.
    fn with_keeps(keep: [bool; 6]) -> (t: ActionTable)
        ensures
            t.spec_get(RiskCategory::Tab) == (if keep[0] {
                CategoryAction::Keep
            } else {
                CategoryAction::Strip
            }),
            t.spec_get(RiskCategory::Emoji) == (if keep[1] {
                CategoryAction::Keep
            } else {
                CategoryAction::Strip
            }),
            t.spec_get(RiskCategory::MathSymbols) == (if keep[2] {
                CategoryAction::Keep
            } else {
                CategoryAction::Strip
            }),
            t.spec_get(RiskCategory::LatinExtended) == (if keep[3] {
                CategoryAction::Keep
            } else {
                CategoryAction::Strip
            }),
            t.spec_get(RiskCategory::UnicodeLetters) == (if keep[4] {
                CategoryAction::Keep
            } else {
                CategoryAction::Strip
            }),
            t.spec_get(RiskCategory::UnicodePunctuation) == (if keep[5] {
                CategoryAction::Keep
            } else {
                CategoryAction::Strip
            }),
            forall|c: RiskCategory|
                spec_severity(c) == Severity::Security ==> t.spec_get(c) == CategoryAction::Strip,
    {
        let pick = |b: bool| -> (a: CategoryAction)
            ensures
                a == (if b {
                    CategoryAction::Keep
                } else {
                    CategoryAction::Strip
                }),
            {
                if b {
                    CategoryAction::Keep
                } else {
                    CategoryAction::Strip
                }
            };
        ActionTable {
            tab: pick(keep[0]),
            control_c0_c1: CategoryAction::Strip,
            bidi_controls: CategoryAction::Strip,
            zero_width_format: CategoryAction::Strip,
            emoji: pick(keep[1]),
            math_alphanumeric: CategoryAction::Strip,
            math_symbols: pick(keep[2]),
            latin_extended: pick(keep[3]),
            unicode_letters: pick(keep[4]),
            unicode_punctuation: pick(keep[5]),
            private_use: CategoryAction::Strip,
            noncharacters: CategoryAction::Strip,
        }
    }

    fn get(&self, cat: RiskCategory) -> (a: CategoryAction)
        ensures
            a == self.spec_get(cat),
    {
        match cat {
            RiskCategory::Tab => self.tab,
            RiskCategory::ControlC0C1 => self.control_c0_c1,
            RiskCategory::BidiControls => self.bidi_controls,
            RiskCategory::ZeroWidthFormat => self.zero_width_format,
            RiskCategory::Emoji => self.emoji,
            RiskCategory::MathAlphanumeric => self.math_alphanumeric,
            RiskCategory::MathSymbols => self.math_symbols,
            RiskCategory::LatinExtended => self.latin_extended,
            RiskCategory::UnicodeLetters => self.unicode_letters,
            RiskCategory::UnicodePunctuation => self.unicode_punctuation,
            RiskCategory::PrivateUse => self.private_use,
            RiskCategory::Noncharacters => self.noncharacters,
        }
    }

    fn set(&mut self, cat: RiskCategory, action: CategoryAction)
        requires
            spec_severity(cat) == Severity::Security ==> action != CategoryAction::Keep,
        ensures
            final(self).spec_get(cat) == action,
            forall|c: RiskCategory| c != cat ==> final(self).spec_get(c) == old(self).spec_get(c),
    {
        proof {
            use_type_invariant(&*self);
        }
        match cat {
            RiskCategory::Tab => self.tab = action,
            RiskCategory::ControlC0C1 => self.control_c0_c1 = action,
            RiskCategory::BidiControls => self.bidi_controls = action,
            RiskCategory::ZeroWidthFormat => self.zero_width_format = action,
            RiskCategory::Emoji => self.emoji = action,
            RiskCategory::MathAlphanumeric => self.math_alphanumeric = action,
            RiskCategory::MathSymbols => self.math_symbols = action,
            RiskCategory::LatinExtended => self.latin_extended = action,
            RiskCategory::UnicodeLetters => self.unicode_letters = action,
            RiskCategory::UnicodePunctuation => self.unicode_punctuation = action,
            RiskCategory::PrivateUse => self.private_use = action,
            RiskCategory::Noncharacters => self.noncharacters = action,
        }
    }
}

/// Full sanitize policy (runtime).
///
/// Named constructors: [`SanitizePolicy::terminal`] (user input),
/// [`SanitizePolicy::untrusted_external`] (tool / shared content) and
/// [`SanitizePolicy::model_bound`] (sampling egress).
#[derive(Debug, Clone, Copy, PartialEq, Eq, Structural)]
pub struct SanitizePolicy {
    /// When false, return input unchanged with an empty report.
    pub enabled: bool,
    /// Toast / notify when security categories fire (UI layer reads this).
    pub notify_when_stripped: bool,
    /// Run statistical / steganographic analysis on raw + cleaned text.
    pub analyze_enabled: bool,
    /// Per-category actions (security categories are never kept).
    pub actions: ActionTable,
}

impl SanitizePolicy {
    /// The action the policy takes for one category.
    pub open spec fn spec_action(self, cat: RiskCategory) -> CategoryAction {
        self.actions.spec_get(cat)
    }
}

/// A policy is determined by its three switches and its per-category actions.
pub proof fn lemma_policy_ext(p: SanitizePolicy, q: SanitizePolicy)
    requires
        p.enabled == q.enabled,
        p.notify_when_stripped == q.notify_when_stripped,
        p.analyze_enabled == q.analyze_enabled,
        forall|c: RiskCategory| #[trigger] p.spec_action(c) == q.spec_action(c),
    ensures
        p == q,
{
    assert(p.spec_action(RiskCategory::Tab) == q.spec_action(RiskCategory::Tab));
    assert(p.spec_action(RiskCategory::ControlC0C1) == q.spec_action(RiskCategory::ControlC0C1));
    assert(p.spec_action(RiskCategory::BidiControls) == q.spec_action(RiskCategory::BidiControls));
    assert(p.spec_action(RiskCategory::ZeroWidthFormat) == q.spec_action(
        RiskCategory::ZeroWidthFormat,
    ));
    assert(p.spec_action(RiskCategory::Emoji) == q.spec_action(RiskCategory::Emoji));
    assert(p.spec_action(RiskCategory::MathAlphanumeric) == q.spec_action(
        RiskCategory::MathAlphanumeric,
    ));
    assert(p.spec_action(RiskCategory::MathSymbols) == q.spec_action(RiskCategory::MathSymbols));
    assert(p.spec_action(RiskCategory::LatinExtended) == q.spec_action(
        RiskCategory::LatinExtended,
    ));
    assert(p.spec_action(RiskCategory::UnicodeLetters) == q.spec_action(
        RiskCategory::UnicodeLetters,
    ));
    assert(p.spec_action(RiskCategory::UnicodePunctuation) == q.spec_action(
        RiskCategory::UnicodePunctuation,
    ));
    assert(p.spec_action(RiskCategory::PrivateUse) == q.spec_action(RiskCategory::PrivateUse));
    assert(p.spec_action(RiskCategory::Noncharacters) == q.spec_action(
        RiskCategory::Noncharacters,
    ));
    assert(p.actions == q.actions);
}

/// Named terminal input-sanitize profiles (capability keep sets).
///
/// Security classes always strip under every profile.
#[derive(Debug, Clone, Copy, PartialEq, Eq, Structural, Hash)]
pub enum SanitizeProfile {
    /// Printable ASCII + newline only (capability categories strip).
    Strict,
    /// Everyday coding: emoji, Latin accents, math ops, tabs. Default.
    Balanced,
    /// All capability languages / punctuation (docs, CJK, Cyrillic, ...).
    Multilingual,
}

/// Whether `profile` keeps category `c`.
pub open spec fn spec_profile_keeps(profile: SanitizeProfile, c: RiskCategory) -> bool {
    match profile {
        SanitizeProfile::Strict => false,
        SanitizeProfile::Balanced => c == RiskCategory::Emoji || c == RiskCategory::LatinExtended
            || c == RiskCategory::MathSymbols || c == RiskCategory::Tab,
        SanitizeProfile::Multilingual => spec_allow_user_keep(c),
    }
}

/// The keep list of a profile, in the order the profile lists it.
pub open spec fn spec_profile_keep_list(profile: SanitizeProfile) -> Seq<RiskCategory> {
    match profile {
        SanitizeProfile::Strict => seq![],
        SanitizeProfile::Balanced => seq![
            RiskCategory::Emoji,
            RiskCategory::LatinExtended,
            RiskCategory::MathSymbols,
            RiskCategory::Tab,
        ],
        SanitizeProfile::Multilingual => seq![
            RiskCategory::Tab,
            RiskCategory::Emoji,
            RiskCategory::MathSymbols,
            RiskCategory::LatinExtended,
            RiskCategory::UnicodeLetters,
            RiskCategory::UnicodePunctuation,
        ],
    }
}

pub open spec fn spec_profile_name(p: SanitizeProfile) -> Seq<char> {
    match p {
        SanitizeProfile::Strict => "strict"@,
        SanitizeProfile::Balanced => "balanced"@,
        SanitizeProfile::Multilingual => "multilingual"@,
    }
}

/// `SanitizeProfile::parse`: trimmed, ASCII-lowercased name or alias.
pub open spec fn spec_profile_parse(s: Seq<char>) -> Option<SanitizeProfile> {
    let k = lower_seq(trim(s));
    if k == "strict"@ || k == "ascii"@ {
        Some(SanitizeProfile::Strict)
    } else if k == "balanced"@ || k == "default"@ || k == "everyday"@ {
        Some(SanitizeProfile::Balanced)
    } else if k == "multilingual"@ || k == "i18n"@ || k == "international"@ || k
        == "permissive"@ {
        Some(SanitizeProfile::Multilingual)
    } else {
        None
    }
}

/// The policy of a profile: enabled, notifying, analyzing; the profile's keep
/// set kept and every other category stripped.
pub open spec fn is_profile_policy(p: SanitizePolicy, profile: SanitizeProfile) -> bool {
    &&& p.enabled
    &&& p.notify_when_stripped
    &&& p.analyze_enabled
    &&& forall|c: RiskCategory|
        #[trigger] p.spec_action(c) == if spec_profile_keeps(profile, c) {
            CategoryAction::Keep
        } else {
            CategoryAction::Strip
        }
}

/// Whether the capability keep set of `p` equals the keep set of `profile`.
pub open spec fn keeps_match(p: SanitizePolicy, profile: SanitizeProfile) -> bool {
    forall|c: RiskCategory|
        spec_allow_user_keep(c) ==> ((p.spec_action(c) == CategoryAction::Keep)
            == spec_profile_keeps(profile, c))
}

/// `SanitizeProfile::detect`: the first profile (strict, balanced,
/// multilingual) whose keep set equals the policy's capability keep set.
pub open spec fn spec_detect(p: SanitizePolicy) -> Option<SanitizeProfile> {
    if keeps_match(p, SanitizeProfile::Strict) {
        Some(SanitizeProfile::Strict)
    } else if keeps_match(p, SanitizeProfile::Balanced) {
        Some(SanitizeProfile::Balanced)
    } else if keeps_match(p, SanitizeProfile::Multilingual) {
        Some(SanitizeProfile::Multilingual)
    } else {
        None
    }
}

impl SanitizeProfile {
    /// All profiles in order.
    pub fn all() -> (v: Vec<SanitizeProfile>)
        ensures
            v@ == seq![
                SanitizeProfile::Strict,
                SanitizeProfile::Balanced,
                SanitizeProfile::Multilingual,
            ],
    {
        let v = vec![SanitizeProfile::Strict, SanitizeProfile::Balanced, SanitizeProfile::Multilingual];
        assert(v@ =~= seq![
            SanitizeProfile::Strict,
            SanitizeProfile::Balanced,
            SanitizeProfile::Multilingual,
        ]);
        v
    }

    pub fn as_str(self) -> (s: &'static str)
        ensures
            s@ == spec_profile_name(self),
    {
        match self {
            SanitizeProfile::Strict => "strict",
            SanitizeProfile::Balanced => "balanced",
            SanitizeProfile::Multilingual => "multilingual",
        }
    }

    pub fn parse(s: &str) -> (r: Option<SanitizeProfile>)
        ensures
            r == spec_profile_parse(s@),
    {
        let k = lower_vec(&trim_vec(&chars_of(s)));
        if eq_str(&k, "strict") || eq_str(&k, "ascii") {
            Some(SanitizeProfile::Strict)
        } else if eq_str(&k, "balanced") || eq_str(&k, "default") || eq_str(&k, "everyday") {
            Some(SanitizeProfile::Balanced)
        } else if eq_str(&k, "multilingual") || eq_str(&k, "i18n") || eq_str(&k, "international")
            || eq_str(&k, "permissive") {
            Some(SanitizeProfile::Multilingual)
        } else {
            None
        }
    }

    /// Capability categories kept under this profile (security always strip).
    pub fn keep_categories(self) -> (v: Vec<RiskCategory>)
        ensures
            v@ == spec_profile_keep_list(self),
            forall|c: RiskCategory| v@.contains(c) == spec_profile_keeps(self, c),
    {
        let v = match self {
            SanitizeProfile::Strict => Vec::new(),
            SanitizeProfile::Balanced => vec![
                RiskCategory::Emoji,
                RiskCategory::LatinExtended,
                RiskCategory::MathSymbols,
                RiskCategory::Tab,
            ],
            SanitizeProfile::Multilingual => vec![
                RiskCategory::Tab,
                RiskCategory::Emoji,
                RiskCategory::MathSymbols,
                RiskCategory::LatinExtended,
                RiskCategory::UnicodeLetters,
                RiskCategory::UnicodePunctuation,
            ],
        };
        assert(v@ =~= spec_profile_keep_list(self));
        assert forall|c: RiskCategory| v@.contains(c) == spec_profile_keeps(self, c) by {
            if spec_profile_keeps(self, c) {
                match self {
                    SanitizeProfile::Strict => {},
                    SanitizeProfile::Balanced => {
                        if c == RiskCategory::Emoji {
                            assert(v@[0] == c);
                        } else if c == RiskCategory::LatinExtended {
                            assert(v@[1] == c);
                        } else if c == RiskCategory::MathSymbols {
                            assert(v@[2] == c);
                        } else {
                            assert(v@[3] == c);
                        }
                    },
                    SanitizeProfile::Multilingual => {
                        let i = match c {
                            RiskCategory::Tab => 0int,
                            RiskCategory::Emoji => 1,
                            RiskCategory::MathSymbols => 2,
                            RiskCategory::LatinExtended => 3,
                            RiskCategory::UnicodeLetters => 4,
                            _ => 5,
                        };
                        assert(v@[i] == c);
                    },
                }
            }
        }
        v
    }

    /// Whether this profile keeps `c`.
    fn keeps(self, c: RiskCategory) -> (b: bool)
        ensures
            b == spec_profile_keeps(self, c),
    {
        match self {
            SanitizeProfile::Strict => false,
            SanitizeProfile::Balanced => c == RiskCategory::Emoji || c == RiskCategory::LatinExtended
                || c == RiskCategory::MathSymbols || c == RiskCategory::Tab,
            SanitizeProfile::Multilingual => c.allow_user_keep(),
        }
    }

    /// Policy that keeps exactly this profile's categories.
    pub fn to_policy(self) -> (p: SanitizePolicy)
        ensures
            is_profile_policy(p, self),
    {
        let t = ActionTable::with_keeps(
            [
                self.keeps(RiskCategory::Tab),
                self.keeps(RiskCategory::Emoji),
                self.keeps(RiskCategory::MathSymbols),
                self.keeps(RiskCategory::LatinExtended),
                self.keeps(RiskCategory::UnicodeLetters),
                self.keeps(RiskCategory::UnicodePunctuation),
            ],
        );
        let p = SanitizePolicy {
            enabled: true,
            notify_when_stripped: true,
            analyze_enabled: true,
            actions: t,
        };
        assert forall|c: RiskCategory|
            #[trigger] p.spec_action(c) == if spec_profile_keeps(self, c) {
                CategoryAction::Keep
            } else {
                CategoryAction::Strip
            } by {
            match c {
                RiskCategory::Tab | RiskCategory::Emoji | RiskCategory::MathSymbols
                | RiskCategory::LatinExtended | RiskCategory::UnicodeLetters
                | RiskCategory::UnicodePunctuation => {},
                _ => {
                    assert(spec_severity(c) == Severity::Security);
                },
            }
        }
        p
    }

    /// Best-effort match of a live policy's capability keeps to a named profile.
    /// Returns `None` when the keep set is a custom mix.
    pub fn detect(policy: &SanitizePolicy) -> (r: Option<SanitizeProfile>)
        ensures
            r == spec_detect(*policy),
    {
        let keeps = [
            policy.action(RiskCategory::Tab) == CategoryAction::Keep,
            policy.action(RiskCategory::Emoji) == CategoryAction::Keep,
            policy.action(RiskCategory::MathSymbols) == CategoryAction::Keep,
            policy.action(RiskCategory::LatinExtended) == CategoryAction::Keep,
            policy.action(RiskCategory::UnicodeLetters) == CategoryAction::Keep,
            policy.action(RiskCategory::UnicodePunctuation) == CategoryAction::Keep,
        ];
        let profiles = SanitizeProfile::all();
        let mut i: usize = 0;
        while i < 3
            invariant
                profiles@ == seq![
                    SanitizeProfile::Strict,
                    SanitizeProfile::Balanced,
                    SanitizeProfile::Multilingual,
                ],
                i <= 3,
                keeps[0] == (policy.spec_action(RiskCategory::Tab) == CategoryAction::Keep),
                keeps[1] == (policy.spec_action(RiskCategory::Emoji) == CategoryAction::Keep),
                keeps[2] == (policy.spec_action(RiskCategory::MathSymbols) == CategoryAction::Keep),
                keeps[3] == (policy.spec_action(RiskCategory::LatinExtended)
                    == CategoryAction::Keep),
                keeps[4] == (policy.spec_action(RiskCategory::UnicodeLetters)
                    == CategoryAction::Keep),
                keeps[5] == (policy.spec_action(RiskCategory::UnicodePunctuation)
                    == CategoryAction::Keep),
                forall|j: int| 0 <= j < i ==> !keeps_match(*policy, #[trigger] profiles@[j]),
            decreases 3 - i,
        {
            let prof = profiles[i];
            if keeps[0] == prof.keeps(RiskCategory::Tab) && keeps[1] == prof.keeps(
                RiskCategory::Emoji,
            ) && keeps[2] == prof.keeps(RiskCategory::MathSymbols) && keeps[3] == prof.keeps(
                RiskCategory::LatinExtended,
            ) && keeps[4] == prof.keeps(RiskCategory::UnicodeLetters) && keeps[5] == prof.keeps(
                RiskCategory::UnicodePunctuation,
            ) {
                assert(keeps_match(*policy, prof));
                proof {
                    if i >= 1 {
                        assert(!keeps_match(*policy, profiles@[0]));
                    }
                    if i >= 2 {
                        assert(!keeps_match(*policy, profiles@[1]));
                    }
                }
                return Some(prof);
            }
            proof {
                if keeps_match(*policy, prof) {
                    assert(spec_allow_user_keep(RiskCategory::Tab));
                    assert(spec_allow_user_keep(RiskCategory::Emoji));
                    assert(spec_allow_user_keep(RiskCategory::MathSymbols));
                    assert(spec_allow_user_keep(RiskCategory::LatinExtended));
                    assert(spec_allow_user_keep(RiskCategory::UnicodeLetters));
                    assert(spec_allow_user_keep(RiskCategory::UnicodePunctuation));
                    assert(false);
                }
            }
            i = i + 1;
        }
        assert(!keeps_match(*policy, profiles@[0]));
        assert(!keeps_match(*policy, profiles@[1]));
        assert(!keeps_match(*policy, profiles@[2]));
        None
    }
}

/// Whether `p` is `q` with the capability categories set to `profile`'s keep set.
pub open spec fn is_profile_applied(
    p: SanitizePolicy,
    q: SanitizePolicy,
    profile: SanitizeProfile,
) -> bool {
    &&& p.enabled == q.enabled
    &&& p.notify_when_stripped == q.notify_when_stripped
    &&& p.analyze_enabled == q.analyze_enabled
    &&& forall|c: RiskCategory| #[trigger]
        p.spec_action(c) == if spec_allow_user_keep(c) {
            if spec_profile_keeps(profile, c) {
                CategoryAction::Keep
            } else {
                CategoryAction::Strip
            }
        } else {
            q.spec_action(c)
        }
}

/// The untrusted-external policy: balanced switches, every capability category
/// kept, every security category stripped.
pub open spec fn is_untrusted_policy(p: SanitizePolicy) -> bool {
    &&& p.enabled
    &&& p.notify_when_stripped
    &&& p.analyze_enabled
    &&& forall|c: RiskCategory| #[trigger]
        p.spec_action(c) == if spec_allow_user_keep(c) {
            CategoryAction::Keep
        } else {
            CategoryAction::Strip
        }
}

/// The untrusted-external policy as a value.
pub closed spec fn untrusted_policy() -> SanitizePolicy {
    SanitizePolicy {
        enabled: true,
        notify_when_stripped: true,
        analyze_enabled: true,
        actions: ActionTable {
            tab: CategoryAction::Keep,
            control_c0_c1: CategoryAction::Strip,
            bidi_controls: CategoryAction::Strip,
            zero_width_format: CategoryAction::Strip,
            emoji: CategoryAction::Keep,
            math_alphanumeric: CategoryAction::Strip,
            math_symbols: CategoryAction::Keep,
            latin_extended: CategoryAction::Keep,
            unicode_letters: CategoryAction::Keep,
            unicode_punctuation: CategoryAction::Keep,
            private_use: CategoryAction::Strip,
            noncharacters: CategoryAction::Strip,
        },
    }
}

/// The model-bound policy as a value: the untrusted switches, no analysis, no notifications.
pub open spec fn model_bound_policy() -> SanitizePolicy {
    SanitizePolicy { analyze_enabled: false, notify_when_stripped: false, ..untrusted_policy() }
}

/// The policy value is the untrusted-external policy.
pub proof fn lemma_untrusted_policy()
    ensures
        is_untrusted_policy(untrusted_policy()),
        forall|p: SanitizePolicy| is_untrusted_policy(p) ==> p == untrusted_policy(),
{
    assert forall|p: SanitizePolicy| is_untrusted_policy(p) implies p == untrusted_policy() by {
        assert(p.spec_action(RiskCategory::Tab) == CategoryAction::Keep);
        assert(p.spec_action(RiskCategory::ControlC0C1) == CategoryAction::Strip);
        assert(p.spec_action(RiskCategory::BidiControls) == CategoryAction::Strip);
        assert(p.spec_action(RiskCategory::ZeroWidthFormat) == CategoryAction::Strip);
        assert(p.spec_action(RiskCategory::Emoji) == CategoryAction::Keep);
        assert(p.spec_action(RiskCategory::MathAlphanumeric) == CategoryAction::Strip);
        assert(p.spec_action(RiskCategory::MathSymbols) == CategoryAction::Keep);
        assert(p.spec_action(RiskCategory::LatinExtended) == CategoryAction::Keep);
        assert(p.spec_action(RiskCategory::UnicodeLetters) == CategoryAction::Keep);
        assert(p.spec_action(RiskCategory::UnicodePunctuation) == CategoryAction::Keep);
        assert(p.spec_action(RiskCategory::PrivateUse) == CategoryAction::Strip);
        assert(p.spec_action(RiskCategory::Noncharacters) == CategoryAction::Strip);
    }
    let u = untrusted_policy();
    assert forall|c: RiskCategory| #[trigger]
        u.spec_action(c) == if spec_allow_user_keep(c) {
            CategoryAction::Keep
        } else {
            CategoryAction::Strip
        } by {
        match c {
            _ => {},
        }
    }
}

/// The terminal default: printable ASCII and basic emoji, every other
/// category stripped; enabled, notifying and analyzing.
pub open spec fn is_terminal_policy(p: SanitizePolicy) -> bool {
    &&& p.enabled
    &&& p.notify_when_stripped
    &&& p.analyze_enabled
    &&& forall|c: RiskCategory|
        #[trigger] p.spec_action(c) == if c == RiskCategory::Emoji {
            CategoryAction::Keep
        } else {
            CategoryAction::Strip
        }
}

impl Default for SanitizePolicy {
    /// The terminal default (see [`SanitizePolicy::terminal`]).
    fn default() -> (p: SanitizePolicy)
        ensures
            is_terminal_policy(p),
    {
        SanitizePolicy::terminal()
    }
}

impl SanitizePolicy {
    /// Terminal / headless user input: printable ASCII plus basic emoji, with
    /// residual-risk analysis.
    pub fn terminal() -> (p: SanitizePolicy)
        ensures
            is_terminal_policy(p),
    {
        let keep = [false, true, false, false, false, false];
        assert(!keep[0] && keep[1] && !keep[2] && !keep[3] && !keep[4] && !keep[5]);
        let t = ActionTable::with_keeps(keep);
        let p = SanitizePolicy {
            enabled: true,
            notify_when_stripped: true,
            analyze_enabled: true,
            actions: t,
        };
        assert forall|c: RiskCategory|
            #[trigger] p.spec_action(c) == if c == RiskCategory::Emoji {
                CategoryAction::Keep
            } else {
                CategoryAction::Strip
            } by {
            match c {
                RiskCategory::Tab => {},
                RiskCategory::Emoji => {},
                RiskCategory::MathSymbols => {},
                RiskCategory::LatinExtended => {},
                RiskCategory::UnicodeLetters => {},
                RiskCategory::UnicodePunctuation => {},
                _ => {
                    assert(spec_severity(c) == Severity::Security);
                },
            }
        }
        p
    }

    /// Apply a named profile's capability keep set (preserves enabled / notify / analyze).
    pub fn apply_profile(&mut self, profile: SanitizeProfile)
        ensures
            is_profile_applied(*final(self), *old(self), profile),
    {
        let cats = RiskCategory::all();
        let mut i: usize = 0;
        while i < cats.len()
            invariant
                cats@ == all_categories(),
                i <= 12,
                self.enabled == old(self).enabled,
                self.notify_when_stripped == old(self).notify_when_stripped,
                self.analyze_enabled == old(self).analyze_enabled,
                forall|c: RiskCategory| #[trigger]
                    self.spec_action(c) == if cat_index(c) < i && spec_allow_user_keep(c) {
                        if spec_profile_keeps(profile, c) {
                            CategoryAction::Keep
                        } else {
                            CategoryAction::Strip
                        }
                    } else {
                        old(self).spec_action(c)
                    },
            decreases 12 - i,
        {
            let cat = cats[i];
            if cat.allow_user_keep() {
                let action = if profile.keeps(cat) {
                    CategoryAction::Keep
                } else {
                    CategoryAction::Strip
                };
                let _ = self.set_action(cat, action);
            }
            i = i + 1;
        }
    }

    /// Policy for external / tool content: keeps capability Unicode (languages,
    /// punctuation, emoji, tabs), strips every security category, runs analysis.
    pub fn untrusted_external() -> (p: SanitizePolicy)
        ensures
            is_untrusted_policy(p),
            p == untrusted_policy(),
    {
        let mut p = SanitizePolicy::default();
        let _ = p.allow_keep(RiskCategory::Tab);
        let _ = p.allow_keep(RiskCategory::Emoji);
        let _ = p.allow_keep(RiskCategory::MathSymbols);
        let _ = p.allow_keep(RiskCategory::LatinExtended);
        let _ = p.allow_keep(RiskCategory::UnicodeLetters);
        let _ = p.allow_keep(RiskCategory::UnicodePunctuation);
        assert forall|c: RiskCategory| #[trigger]
            p.spec_action(c) == if spec_allow_user_keep(c) {
                CategoryAction::Keep
            } else {
                CategoryAction::Strip
            } by {
            match c {
                RiskCategory::Tab | RiskCategory::Emoji | RiskCategory::MathSymbols
                | RiskCategory::LatinExtended | RiskCategory::UnicodeLetters
                | RiskCategory::UnicodePunctuation => {},
                _ => {},
            }
        }
        assert(is_untrusted_policy(p));
        proof {
            lemma_untrusted_policy();
        }
        p
    }

    /// Model-bound hard filter policy: the untrusted-external switches without
    /// analysis and without notifications.
    pub fn model_bound() -> (p: SanitizePolicy)
        ensures
            p == model_bound_policy(),
            p.enabled,
            !p.notify_when_stripped,
            !p.analyze_enabled,
            forall|c: RiskCategory| #[trigger]
                p.spec_action(c) == if spec_allow_user_keep(c) {
                    CategoryAction::Keep
                } else {
                    CategoryAction::Strip
                },
    {
        let mut p = Self::untrusted_external();
        let ghost before = p;
        p.analyze_enabled = false;
        p.notify_when_stripped = false;
        assert(p.actions == before.actions);
        assert forall|c: RiskCategory| #[trigger] p.spec_action(c) == before.spec_action(c) by {}
        p
    }

    /// The action of a category; never keep for a security category.
    pub fn action(&self, cat: RiskCategory) -> (a: CategoryAction)
        ensures
            a == self.spec_action(cat),
            spec_severity(cat) == Severity::Security ==> a != CategoryAction::Keep,
    {
        proof {
            use_type_invariant(&self.actions);
        }
        self.actions.get(cat)
    }

    /// Set a category action. Security categories cannot be set to keep.
    pub fn set_action(&mut self, cat: RiskCategory, action: CategoryAction) -> (r: Result<
        (),
        PolicyError,
    >)
        ensures
            final(self).enabled == old(self).enabled,
            final(self).notify_when_stripped == old(self).notify_when_stripped,
            final(self).analyze_enabled == old(self).analyze_enabled,
            (action == CategoryAction::Keep && !spec_allow_user_keep(cat)) ==> (r == Err::<
                (),
                PolicyError,
            >(PolicyError::SecurityKeepForbidden(cat)) && *final(self) == *old(self)),
            !(action == CategoryAction::Keep && !spec_allow_user_keep(cat)) ==> (r is Ok
                && final(self).spec_action(cat) == action && forall|c: RiskCategory|
                c != cat ==> #[trigger] final(self).spec_action(c) == old(self).spec_action(c)),
    {
        if action == CategoryAction::Keep && !cat.allow_user_keep() {
            return Err(PolicyError::SecurityKeepForbidden(cat));
        }
        self.actions.set(cat, action);
        Ok(())
    }

    /// Set a capability category to keep (rejects security categories).
    pub fn allow_keep(&mut self, cat: RiskCategory) -> (r: Result<(), PolicyError>)
        ensures
            final(self).enabled == old(self).enabled,
            final(self).notify_when_stripped == old(self).notify_when_stripped,
            final(self).analyze_enabled == old(self).analyze_enabled,
            !spec_allow_user_keep(cat) ==> (r == Err::<(), PolicyError>(
                PolicyError::SecurityKeepForbidden(cat),
            ) && *final(self) == *old(self)),
            spec_allow_user_keep(cat) ==> (r is Ok && final(self).spec_action(cat)
                == CategoryAction::Keep && forall|c: RiskCategory|
                c != cat ==> #[trigger] final(self).spec_action(c) == old(self).spec_action(c)),
    {
        self.set_action(cat, CategoryAction::Keep)
    }

    /// Set category back to strip.
    pub fn deny_keep(&mut self, cat: RiskCategory)
        ensures
            final(self).enabled == old(self).enabled,
            final(self).notify_when_stripped == old(self).notify_when_stripped,
            final(self).analyze_enabled == old(self).analyze_enabled,
            final(self).spec_action(cat) == CategoryAction::Strip,
            forall|c: RiskCategory|
                c != cat ==> #[trigger] final(self).spec_action(c) == old(self).spec_action(c),
    {
        let _ = self.set_action(cat, CategoryAction::Strip);
    }

    /// Every category with its action, in declaration order.
    pub fn actions_iter(&self) -> (v: Vec<(RiskCategory, CategoryAction)>)
        ensures
            v@.len() == 12,
            forall|i: int|
                0 <= i < 12 ==> #[trigger] v@[i] == (all_categories()[i], self.spec_action(
                    all_categories()[i],
                )),
    {
        let cats = RiskCategory::all();
        let mut v: Vec<(RiskCategory, CategoryAction)> = Vec::new();
        let mut i: usize = 0;
        while i < cats.len()
            invariant
                cats@ == all_categories(),
                i <= 12,
                v@.len() == i,
                forall|j: int|
                    0 <= j < i ==> #[trigger] v@[j] == (all_categories()[j], self.spec_action(
                        all_categories()[j],
                    )),
            decreases 12 - i,
        {
            let c = cats[i];
            v.push((c, self.action(c)));
            i = i + 1;
        }
        v
    }
}

/// Error of a policy update.
#[derive(Debug, Clone, Copy, PartialEq, Eq, Structural)]
pub enum PolicyError {
    /// The category is security-sensitive and cannot be set to keep.
    SecurityKeepForbidden(RiskCategory),
}

pub open spec fn spec_policy_error_message(e: PolicyError) -> Seq<char> {
    match e {
        PolicyError::SecurityKeepForbidden(c) => "category `"@ + crate::category::spec_cat_name(c)
            + "` is security-sensitive and cannot be set to keep"@,
    }
}

impl PolicyError {
    /// Human-readable message.
    pub fn message(&self) -> (s: String)
        ensures
            s@ == spec_policy_error_message(*self),
    {
        match self {
            PolicyError::SecurityKeepForbidden(c) => {
                let mut s = crate::text::owned("category `");
                crate::text::push_str(&mut s, c.as_str());
                crate::text::push_str(&mut s, "` is security-sensitive and cannot be set to keep");
                s
            },
        }
    }
}

} // verus!
