//! Last-hop hard filter for model-bound payloads (silent: no notes).
//!
//! Strips security Unicode, exotic emoji chrome (flags, skin tones, VS-16, ZWJ,
//! supplemental pictographs, ...) and, when basic emoji exceed a density cap,
//! every emoji. Basic faces and symbols are kept otherwise.
use vstd::prelude::*;

use crate::category::RiskCategory;
use crate::classify::{classify, in_range, is_base_allowed, spec_classify, spec_is_base_allowed};
use crate::policy::{model_bound_policy, CategoryAction, SanitizePolicy};
use crate::sanitize::{
    first_reject, keep_filter, norm_state, normalize_newlines, sanitize, spec_kept,
    spec_sanitize_ok,
};
use crate::text::{chars_of, char_is_alphabetic, string_of};

verus! {

/// Above this many basic emoji, the hard filter removes every emoji.
pub const EMOJI_DENSITY_CAP: usize = 48;

/// Token-heavy / sequence / stuffing-prone emoji and emoji chrome.
pub open spec fn spec_is_exotic_emoji(c: char) -> bool {
    let cp = c as u32;
    cp == 0x200D || cp == 0xFE0F || in_range(cp, 0x1F3FB, 0x1F3FF) || in_range(
        cp,
        0x1F1E6,
        0x1F1FF,
    ) || cp == 0x20E3 || in_range(cp, 0x1F000, 0x1F02F) || in_range(cp, 0x1F030, 0x1F09F)
        || in_range(cp, 0x1F0A0, 0x1F0FF) || in_range(cp, 0x1F900, 0x1FAFF) || in_range(
        cp,
        0x1F700,
        0x1F77F,
    ) || in_range(cp, 0x1F780, 0x1F7FF) || in_range(cp, 0x1F650, 0x1F67F)
}

/// A character of the emoji category.
pub open spec fn is_emoji_char(c: char) -> bool {
    !spec_is_base_allowed(c) && spec_classify(c) == RiskCategory::Emoji
}

/// `s` without exotic emoji.
pub open spec fn drop_exotic(s: Seq<char>) -> Seq<char>
    decreases s.len(),
{
    if s.len() == 0 {
        seq![]
    } else if spec_is_exotic_emoji(s.last()) {
        drop_exotic(s.drop_last())
    } else {
        drop_exotic(s.drop_last()).push(s.last())
    }
}

/// `s` without emoji.
pub open spec fn drop_emoji(s: Seq<char>) -> Seq<char>
    decreases s.len(),
{
    if s.len() == 0 {
        seq![]
    } else if is_emoji_char(s.last()) {
        drop_emoji(s.drop_last())
    } else {
        drop_emoji(s.drop_last()).push(s.last())
    }
}

/// Number of emoji characters in `s`.
pub open spec fn emoji_count(s: Seq<char>) -> nat
    decreases s.len(),
{
    if s.len() == 0 {
        0
    } else {
        emoji_count(s.drop_last()) + if is_emoji_char(s.last()) {
            1nat
        } else {
            0nat
        }
    }
}

/// What the hard filter returns for `input`.
pub open spec fn spec_hard_filter(input: Seq<char>) -> Seq<char> {
    let a = drop_exotic(spec_sanitize_ok(input, model_bound_policy()).0);
    if emoji_count(a) > EMOJI_DENSITY_CAP {
        drop_emoji(a)
    } else {
        a
    }
}

/// Whether `c` is exotic emoji chrome.
pub fn is_exotic_emoji(c: char) -> (b: bool)
    ensures
        b == spec_is_exotic_emoji(c),
{
    let cp = c as u32;
    cp == 0x200D || cp == 0xFE0F || (0x1F3FB <= cp && cp <= 0x1F3FF) || (0x1F1E6 <= cp && cp
        <= 0x1F1FF) || cp == 0x20E3 || (0x1F000 <= cp && cp <= 0x1F02F) || (0x1F030 <= cp && cp
        <= 0x1F09F) || (0x1F0A0 <= cp && cp <= 0x1F0FF) || (0x1F900 <= cp && cp <= 0x1FAFF) || (
    0x1F700 <= cp && cp <= 0x1F77F) || (0x1F780 <= cp && cp <= 0x1F7FF) || (0x1F650 <= cp && cp
        <= 0x1F67F)
}

/// A policy without reject actions never rejects.
pub proof fn lemma_no_reject(p: SanitizePolicy, t: Seq<char>)
    requires
        forall|c: RiskCategory| #[trigger] p.spec_action(c) != CategoryAction::Reject,
    ensures
        first_reject(p, t) is None,
    decreases t.len(),
{
    if t.len() > 0 {
        lemma_no_reject(p, t.drop_last());
    }
}

proof fn lemma_model_bound_actions()
    ensures
        forall|c: RiskCategory| #[trigger]
            model_bound_policy().spec_action(c) == if crate::category::spec_allow_user_keep(c) {
                CategoryAction::Keep
            } else {
                CategoryAction::Strip
            },
{
    crate::policy::lemma_untrusted_policy();
    assert forall|c: RiskCategory| #[trigger]
        model_bound_policy().spec_action(c) == crate::policy::untrusted_policy().spec_action(c) by {}
}

/// Hard-filter text for the model API: strip security Unicode, exotic emoji,
/// and all emoji beyond the density cap.
pub fn hard_filter_model_text(input: &str) -> (out: String)
    ensures
        out@ == spec_hard_filter(input@),
{
    let policy = SanitizePolicy::model_bound();
    proof {
        lemma_model_bound_actions();
        lemma_no_reject(model_bound_policy(), normalize_newlines(input@));
    }
    let base = match sanitize(input, &policy) {
        Ok(r) => chars_of(r.text.as_str()),
        Err(_) => {
            proof {
                assert(false);
            }
            let raw = chars_of(input);
            let mut v: Vec<char> = Vec::new();
            let mut i: usize = 0;
            while i < raw.len()
                decreases raw@.len() - i,
            {
                let c = raw[i];
                if c == '\n' || c == '\t' || (' ' <= c && c <= '~') || (char_is_alphabetic(c)
                    && !is_exotic_emoji(c)) {
                    v.push(c);
                }
                i = i + 1;
            }
            v
        },
    };
    // Second pass: drop exotic emoji that the capability keep would otherwise preserve.
    let mut a: Vec<char> = Vec::new();
    let mut emoji: usize = 0;
    let mut i: usize = 0;
    while i < base.len()
        invariant
            i <= base@.len(),
            a@ == drop_exotic(base@.take(i as int)),
            emoji == emoji_count(a@),
            emoji <= a@.len(),
            a@.len() <= i,
        decreases base@.len() - i,
    {
        proof {
            assert(base@.take(i + 1).drop_last() =~= base@.take(i as int));
        }
        let c = base[i];
        if !is_exotic_emoji(c) {
            let ghost before = a@;
            a.push(c);
            proof {
                assert(a@.drop_last() =~= before);
            }
            if !is_base_allowed(c) && classify(c, &policy) == RiskCategory::Emoji {
                emoji = emoji + 1;
            }
        }
        i = i + 1;
    }
    proof {
        assert(base@.take(base@.len() as int) =~= base@);
    }
    if emoji <= EMOJI_DENSITY_CAP {
        return string_of(&a);
    }
    // Density cap: emoji spam loses every emoji.
    let mut b: Vec<char> = Vec::new();
    let mut j: usize = 0;
    while j < a.len()
        invariant
            j <= a@.len(),
            b@ == drop_emoji(a@.take(j as int)),
        decreases a@.len() - j,
    {
        proof {
            assert(a@.take(j + 1).drop_last() =~= a@.take(j as int));
        }
        let c = a[j];
        if !(!is_base_allowed(c) && classify(c, &policy) == RiskCategory::Emoji) {
            b.push(c);
        }
        j = j + 1;
    }
    proof {
        assert(a@.take(a@.len() as int) =~= a@);
    }
    string_of(&b)
}

// ── laws ─────────────────────────────────────────────────────────────────

/// Normalization leaves text without CR unchanged.
pub proof fn lemma_norm_identity(s: Seq<char>)
    requires
        forall|i: int| 0 <= i < s.len() ==> #[trigger] s[i] != '\r',
    ensures
        norm_state(s).0 == s,
        s.len() > 0 ==> norm_state(s).1 == false,
    decreases s.len(),
{
    if s.len() > 0 {
        lemma_norm_identity(s.drop_last());
        assert(s.drop_last().push(s.last()) =~= s);
        assert(s.last() == s[s.len() - 1]);
    }
}

/// Normalized text has no CR.
pub proof fn lemma_norm_no_cr(s: Seq<char>)
    ensures
        forall|i: int| 0 <= i < norm_state(s).0.len() ==> #[trigger] norm_state(s).0[i] != '\r',
    decreases s.len(),
{
    if s.len() > 0 {
        lemma_norm_no_cr(s.drop_last());
        let n = norm_state(s.drop_last()).0;
        assert forall|i: int| 0 <= i < norm_state(s).0.len() implies #[trigger] norm_state(s).0[i]
            != '\r' by {
            if i < n.len() {
                assert(norm_state(s).0[i] == n[i]);
            }
        }
    }
}

/// The filter keeps text it would keep entirely.
pub proof fn lemma_keep_identity(p: SanitizePolicy, t: Seq<char>)
    requires
        forall|i: int| 0 <= i < t.len() ==> spec_kept(p, #[trigger] t[i]),
    ensures
        keep_filter(p, t) == t,
    decreases t.len(),
{
    if t.len() > 0 {
        assert(t.last() == t[t.len() - 1]);
        lemma_keep_identity(p, t.drop_last());
        assert(t.drop_last().push(t.last()) =~= t);
    }
}

/// Characters of `keep_filter(p, t)` come from `t`.
pub proof fn lemma_keep_sub(p: SanitizePolicy, t: Seq<char>)
    ensures
        forall|i: int|
            0 <= i < keep_filter(p, t).len() ==> exists|j: int|
                0 <= j < t.len() && t[j] == #[trigger] keep_filter(p, t)[i],
        forall|i: int| 0 <= i < keep_filter(p, t).len() ==> spec_kept(p, #[trigger] keep_filter(p, t)[i]),
    decreases t.len(),
{
    if t.len() > 0 {
        lemma_keep_sub(p, t.drop_last());
        let r = keep_filter(p, t.drop_last());
        assert forall|i: int| 0 <= i < keep_filter(p, t).len() implies exists|j: int|
            0 <= j < t.len() && t[j] == #[trigger] keep_filter(p, t)[i] by {
            if i < r.len() {
                assert(keep_filter(p, t)[i] == r[i]);
                let j = choose|j: int| 0 <= j < t.drop_last().len() && t.drop_last()[j] == r[i];
                assert(t[j] == r[i]);
            } else {
                assert(t[t.len() - 1] == keep_filter(p, t)[i]);
            }
        }
        assert forall|i: int| 0 <= i < keep_filter(p, t).len() implies spec_kept(
            p,
            #[trigger] keep_filter(p, t)[i],
        ) by {
            if i < r.len() {
                assert(keep_filter(p, t)[i] == r[i]);
            }
        }
    }
}

/// Characters of `drop_exotic(s)` come from `s` and are not exotic.
pub proof fn lemma_drop_exotic_sub(s: Seq<char>)
    ensures
        drop_exotic(s).len() <= s.len(),
        forall|i: int|
            0 <= i < drop_exotic(s).len() ==> !spec_is_exotic_emoji(#[trigger] drop_exotic(s)[i])
                && exists|j: int| 0 <= j < s.len() && s[j] == drop_exotic(s)[i],
    decreases s.len(),
{
    if s.len() > 0 {
        lemma_drop_exotic_sub(s.drop_last());
        let r = drop_exotic(s.drop_last());
        assert forall|i: int| 0 <= i < drop_exotic(s).len() implies !spec_is_exotic_emoji(
            #[trigger] drop_exotic(s)[i],
        ) && exists|j: int| 0 <= j < s.len() && s[j] == drop_exotic(s)[i] by {
            if i < r.len() {
                assert(drop_exotic(s)[i] == r[i]);
                let j = choose|j: int| 0 <= j < s.drop_last().len() && s.drop_last()[j] == r[i];
                assert(s[j] == r[i]);
            } else {
                assert(s[s.len() - 1] == drop_exotic(s)[i]);
            }
        }
    }
}

/// Characters of `drop_emoji(s)` come from `s` and are not emoji.
pub proof fn lemma_drop_emoji_sub(s: Seq<char>)
    ensures
        emoji_count(drop_emoji(s)) == 0,
        forall|i: int|
            0 <= i < drop_emoji(s).len() ==> !is_emoji_char(#[trigger] drop_emoji(s)[i])
                && exists|j: int| 0 <= j < s.len() && s[j] == drop_emoji(s)[i],
    decreases s.len(),
{
    if s.len() > 0 {
        lemma_drop_emoji_sub(s.drop_last());
        let r = drop_emoji(s.drop_last());
        if !is_emoji_char(s.last()) {
            assert(r.push(s.last()).drop_last() =~= r);
        }
        assert forall|i: int| 0 <= i < drop_emoji(s).len() implies !is_emoji_char(
            #[trigger] drop_emoji(s)[i],
        ) && exists|j: int| 0 <= j < s.len() && s[j] == drop_emoji(s)[i] by {
            if i < r.len() {
                assert(drop_emoji(s)[i] == r[i]);
                let j = choose|j: int| 0 <= j < s.drop_last().len() && s.drop_last()[j] == r[i];
                assert(s[j] == r[i]);
            } else {
                assert(s[s.len() - 1] == drop_emoji(s)[i]);
            }
        }
    }
}

/// Removing non-exotic characters changes nothing in exotic-free text.
pub proof fn lemma_drop_exotic_identity(s: Seq<char>)
    requires
        forall|i: int| 0 <= i < s.len() ==> !spec_is_exotic_emoji(#[trigger] s[i]),
    ensures
        drop_exotic(s) == s,
    decreases s.len(),
{
    if s.len() > 0 {
        assert(s.last() == s[s.len() - 1]);
        lemma_drop_exotic_identity(s.drop_last());
        assert(s.drop_last().push(s.last()) =~= s);
    }
}

/// Every character of the hard filter's output: not CR, kept by the model-bound
/// policy (so never a security category), not exotic emoji.
pub proof fn lemma_hard_filter_chars(input: Seq<char>)
    ensures
        forall|i: int|
            0 <= i < spec_hard_filter(input).len() ==> {
                let c = #[trigger] spec_hard_filter(input)[i];
                &&& c != '\r'
                &&& spec_kept(model_bound_policy(), c)
                &&& !spec_is_exotic_emoji(c)
            },
        emoji_count(spec_hard_filter(input)) <= EMOJI_DENSITY_CAP,
{
    let p = model_bound_policy();
    let t = normalize_newlines(input);
    let k = keep_filter(p, t);
    let a = drop_exotic(k);
    lemma_norm_no_cr(input);
    lemma_keep_sub(p, t);
    lemma_drop_exotic_sub(k);
    assert forall|i: int| 0 <= i < a.len() implies {
        let c = #[trigger] a[i];
        &&& c != '\r'
        &&& spec_kept(p, c)
        &&& !spec_is_exotic_emoji(c)
    } by {
        let j = choose|j: int| 0 <= j < k.len() && k[j] == a[i];
        let m = choose|m: int| 0 <= m < t.len() && t[m] == k[j];
        assert(t[m] != '\r');
        assert(spec_kept(p, k[j]));
    }
    if emoji_count(a) > EMOJI_DENSITY_CAP {
        lemma_drop_emoji_sub(a);
        let b = drop_emoji(a);
        assert forall|i: int| 0 <= i < b.len() implies {
            let c = #[trigger] b[i];
            &&& c != '\r'
            &&& spec_kept(p, c)
            &&& !spec_is_exotic_emoji(c)
        } by {
            let j = choose|j: int| 0 <= j < a.len() && a[j] == b[i];
            assert(a[j] == b[i]);
        }
    }
}

/// Law: the hard filter is idempotent (a second pass changes nothing).
pub proof fn law_hard_filter_idempotent(input: Seq<char>)
    ensures
        spec_hard_filter(spec_hard_filter(input)) == spec_hard_filter(input),
{
    let p = model_bound_policy();
    let y = spec_hard_filter(input);
    lemma_hard_filter_chars(input);
    assert forall|i: int| 0 <= i < y.len() implies #[trigger] y[i] != '\r' by {}
    lemma_norm_identity(y);
    assert forall|i: int| 0 <= i < y.len() implies spec_kept(p, #[trigger] y[i]) by {}
    lemma_keep_identity(p, y);
    assert forall|i: int| 0 <= i < y.len() implies !spec_is_exotic_emoji(#[trigger] y[i]) by {}
    lemma_drop_exotic_identity(y);
    assert(normalize_newlines(y) == y);
    assert(spec_sanitize_ok(y, p).0 == y);
}

} // verus!
