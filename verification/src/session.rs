//! Per-agent input-sanitize state: a base policy, categories kept for this
//! session only, the last submitted text and result, and a strip report
//! kept from the composer for the next send.
use vstd::prelude::*;

use crate::category::{all_categories, spec_allow_user_keep, spec_cat_name, RiskCategory};
use crate::policy::{
    is_terminal_policy, lemma_policy_ext, spec_action_name, CategoryAction, PolicyError,
    SanitizePolicy,
};
use crate::sanitize::{spec_needs_note, ResultV, SanitizeResult};
use crate::text::{dec, push_dec, push_str};

verus! {

/// Per-agent state: base policy, session keeps, last raw submit, last result.
#[derive(Debug, Clone)]
pub struct InputSanitizeSession {
    base: SanitizePolicy,
    /// Categories kept for this session only (capability).
    session_keeps: Vec<RiskCategory>,
    /// Report of a composer-side strip, for a later send of the clean text.
    pending: Option<SanitizeResult>,
    pub last_raw: Option<String>,
    pub last_result: Option<SanitizeResult>,
}

/// Action of a category under a base policy and session keeps: kept when
/// the session keeps it and users may keep it, else as in the base.
pub open spec fn session_action(base: SanitizePolicy, keeps: Seq<RiskCategory>, c: RiskCategory) -> CategoryAction {
    if keeps.contains(c) && spec_allow_user_keep(c) {
        CategoryAction::Keep
    } else {
        base.spec_action(c)
    }
}

/// `p` is the base policy with the session keeps applied.
pub open spec fn is_session_policy(
    p: SanitizePolicy,
    base: SanitizePolicy,
    keeps: Seq<RiskCategory>,
) -> bool {
    &&& p.enabled == base.enabled
    &&& p.notify_when_stripped == base.notify_when_stripped
    &&& p.analyze_enabled == base.analyze_enabled
    &&& forall|c: RiskCategory| #[trigger] p.spec_action(c) == session_action(base, keeps, c)
}

/// The effective policy of a base policy and session keeps.
pub open spec fn session_policy(base: SanitizePolicy, keeps: Seq<RiskCategory>) -> SanitizePolicy {
    choose|p: SanitizePolicy| #[trigger] is_session_policy(p, base, keeps)
}

/// `s` without any occurrence of `cat`.
pub open spec fn remove_cat(s: Seq<RiskCategory>, cat: RiskCategory) -> Seq<RiskCategory>
    decreases s.len(),
{
    if s.len() == 0 {
        seq![]
    } else if s.last() == cat {
        remove_cat(s.drop_last(), cat)
    } else {
        remove_cat(s.drop_last(), cat).push(s.last())
    }
}

pub open spec fn opt_text(o: Option<String>) -> Option<Seq<char>> {
    match o {
        Some(s) => Some(s@),
        None => None,
    }
}

pub open spec fn opt_result(o: Option<SanitizeResult>) -> Option<ResultV> {
    match o {
        Some(r) => Some(r@),
        None => None,
    }
}

pub open spec fn bool_name(b: bool) -> Seq<char> {
    if b {
        "true"@
    } else {
        "false"@
    }
}

/// One category line of the status text.
pub open spec fn status_line(c: RiskCategory, a: CategoryAction, keeps: Seq<RiskCategory>) -> Seq<
    char,
> {
    "  "@ + spec_cat_name(c) + " = "@ + spec_action_name(a) + if keeps.contains(c) && a
        == CategoryAction::Keep {
        " (session)"@
    } else {
        ""@
    }
}

/// The category lines of the first `k` categories, each after a line break.
pub open spec fn status_lines(p: SanitizePolicy, keeps: Seq<RiskCategory>, k: int) -> Seq<char>
    decreases k,
{
    if k <= 0 {
        seq![]
    } else {
        let c = all_categories()[k - 1];
        status_lines(p, keeps, k - 1) + "\n"@ + status_line(c, p.spec_action(c), keeps)
    }
}

/// Status text: switches, every category with its action (marked when kept
/// for the session only) and a summary of the last result.
pub open spec fn spec_status_text(p: SanitizePolicy, keeps: Seq<RiskCategory>, last: Option<ResultV>) -> Seq<char> {
    "input_sanitize enabled="@ + bool_name(p.enabled) + "\nnotify_when_stripped="@ + bool_name(
        p.notify_when_stripped,
    ) + "\ncategories:"@ + status_lines(p, keeps, 12) + match last {
        Some(r) => "\nlast: "@ + dec(r.2 as nat) + " → "@ + dec(r.3 as nat) + " chars, "@ + dec(
            r.1.len(),
        ) + " categories flagged"@,
        None => ""@,
    }
}

fn contains_cat(v: &Vec<RiskCategory>, cat: RiskCategory) -> (b: bool)
    ensures
        b == v@.contains(cat),
{
    let mut i: usize = 0;
    while i < v.len()
        invariant
            i <= v@.len(),
            forall|j: int| 0 <= j < i ==> v@[j] != cat,
        decreases v@.len() - i,
    {
        if v[i] == cat {
            assert(v@[i as int] == cat);
            return true;
        }
        i = i + 1;
    }
    false
}

impl InputSanitizeSession {
    pub closed spec fn base_policy(&self) -> SanitizePolicy {
        self.base
    }

    pub closed spec fn keeps(&self) -> Seq<RiskCategory> {
        self.session_keeps@
    }

    pub closed spec fn pending_report(&self) -> Option<ResultV> {
        opt_result(self.pending)
    }

    pub closed spec fn last_raw_text(&self) -> Option<Seq<char>> {
        opt_text(self.last_raw)
    }

    pub closed spec fn last_report(&self) -> Option<ResultV> {
        opt_result(self.last_result)
    }

    pub fn new(base: SanitizePolicy) -> (s: InputSanitizeSession)
        ensures
            s.base_policy() == base,
            s.keeps() == Seq::<RiskCategory>::empty(),
            s.pending_report() is None,
            s.last_raw_text() is None,
            s.last_report() is None,
    {
        InputSanitizeSession {
            base,
            session_keeps: Vec::new(),
            pending: None,
            last_raw: None,
            last_result: None,
        }
    }

    /// Effective policy = base + session keeps.
    pub fn policy(&self) -> (p: SanitizePolicy)
        ensures
            is_session_policy(p, self.base_policy(), self.keeps()),
            p == session_policy(self.base_policy(), self.keeps()),
    {
        let mut p = self.base;
        let mut i: usize = 0;
        while i < self.session_keeps.len()
            invariant
                i <= self.session_keeps@.len(),
                is_session_policy(p, self.base, self.session_keeps@.take(i as int)),
            decreases self.session_keeps@.len() - i,
        {
            let cat = self.session_keeps[i];
            let ghost before = p;
            let _ = p.allow_keep(cat);
            let ghost t = self.session_keeps@.take(i as int);
            let ghost t1 = self.session_keeps@.take(i + 1);
            assert(t1 =~= t.push(cat));
            assert forall|c: RiskCategory| #[trigger] p.spec_action(c) == session_action(
                self.base,
                t1,
                c,
            ) by {
                assert(t1.contains(c) <==> (t.contains(c) || c == cat)) by {
                    if c == cat {
                        assert(t1[i as int] == cat);
                    }
                    if t.contains(c) {
                        let j = choose|j: int| 0 <= j < t.len() && #[trigger] t[j] == c;
                        assert(t1[j] == c);
                    }
                    if t1.contains(c) && c != cat {
                        let j = choose|j: int| 0 <= j < t1.len() && #[trigger] t1[j] == c;
                        assert(t[j] == c);
                    }
                }
            }
            i = i + 1;
        }
        assert(self.session_keeps@.take(self.session_keeps@.len() as int) =~= self.session_keeps@);
        proof {
            let q = session_policy(self.base, self.session_keeps@);
            assert(is_session_policy(p, self.base, self.session_keeps@));
            assert(is_session_policy(q, self.base, self.session_keeps@));
            lemma_policy_ext(p, q);
        }
        p
    }

    pub fn set_base(&mut self, base: SanitizePolicy)
        ensures
            final(self).base_policy() == base,
            final(self).keeps() == old(self).keeps(),
            final(self).pending_report() == old(self).pending_report(),
            final(self).last_raw_text() == old(self).last_raw_text(),
            final(self).last_report() == old(self).last_report(),
    {
        self.base = base;
    }

    /// Keep a capability category for this session; security categories are refused.
    pub fn allow_session(&mut self, cat: RiskCategory) -> (r: Result<(), PolicyError>)
        ensures
            !spec_allow_user_keep(cat) ==> r == Err::<(), PolicyError>(
                PolicyError::SecurityKeepForbidden(cat),
            ) && final(self).keeps() == old(self).keeps(),
            spec_allow_user_keep(cat) ==> r is Ok && final(self).keeps() == if old(
                self,
            ).keeps().contains(cat) {
                old(self).keeps()
            } else {
                old(self).keeps().push(cat)
            },
            final(self).base_policy() == old(self).base_policy(),
            final(self).pending_report() == old(self).pending_report(),
            final(self).last_raw_text() == old(self).last_raw_text(),
            final(self).last_report() == old(self).last_report(),
    {
        if !cat.allow_user_keep() {
            return Err(PolicyError::SecurityKeepForbidden(cat));
        }
        if !contains_cat(&self.session_keeps, cat) {
            self.session_keeps.push(cat);
        }
        Ok(())
    }

    /// Stop keeping a category: dropped from the session keeps and set to
    /// strip in the base policy.
    pub fn deny_session(&mut self, cat: RiskCategory)
        ensures
            final(self).keeps() == remove_cat(old(self).keeps(), cat),
            final(self).base_policy().enabled == old(self).base_policy().enabled,
            final(self).base_policy().notify_when_stripped == old(
                self,
            ).base_policy().notify_when_stripped,
            final(self).base_policy().analyze_enabled == old(self).base_policy().analyze_enabled,
            final(self).base_policy().spec_action(cat) == CategoryAction::Strip,
            forall|c: RiskCategory|
                c != cat ==> #[trigger] final(self).base_policy().spec_action(c) == old(
                    self,
                ).base_policy().spec_action(c),
            final(self).pending_report() == old(self).pending_report(),
            final(self).last_raw_text() == old(self).last_raw_text(),
            final(self).last_report() == old(self).last_report(),
    {
        let mut kept: Vec<RiskCategory> = Vec::new();
        let mut i: usize = 0;
        while i < self.session_keeps.len()
            invariant
                i <= self.session_keeps@.len(),
                kept@ == remove_cat(self.session_keeps@.take(i as int), cat),
            decreases self.session_keeps@.len() - i,
        {
            assert(self.session_keeps@.take(i + 1).drop_last() =~= self.session_keeps@.take(
                i as int,
            ));
            let c = self.session_keeps[i];
            if c != cat {
                kept.push(c);
            }
            i = i + 1;
        }
        assert(self.session_keeps@.take(self.session_keeps@.len() as int) =~= self.session_keeps@);
        self.session_keeps = kept;
        self.base.deny_keep(cat);
    }

    pub fn record(&mut self, raw: String, result: SanitizeResult)
        ensures
            final(self).last_raw_text() == Some(raw@),
            final(self).last_report() == Some(result@),
            final(self).base_policy() == old(self).base_policy(),
            final(self).keeps() == old(self).keeps(),
            final(self).pending_report() == old(self).pending_report(),
    {
        self.last_raw = Some(raw);
        self.last_result = Some(result);
    }

    /// Keep the report of a composer-side sanitize that owes the model a
    /// note, so that sending the already clean text still carries it.
    pub fn note_ui_strip(&mut self, result: &SanitizeResult)
        ensures
            final(self).pending_report() == if spec_needs_note(result@) {
                Some(result@)
            } else {
                old(self).pending_report()
            },
            final(self).base_policy() == old(self).base_policy(),
            final(self).keeps() == old(self).keeps(),
            final(self).last_raw_text() == old(self).last_raw_text(),
            final(self).last_report() == old(self).last_report(),
    {
        if result.needs_model_note() {
            self.pending = Some(result.copy_result());
        }
    }

    /// The kept composer-side report, if any.
    pub fn pending_strip_report(&self) -> (r: Option<&SanitizeResult>)
        ensures
            match r {
                Some(x) => self.pending_report() == Some(x@),
                None => self.pending_report() is None,
            },
    {
        match &self.pending {
            Some(x) => Some(x),
            None => None,
        }
    }

    /// Drop the kept composer-side report (after a send was enqueued).
    pub fn clear_pending_strip_report(&mut self)
        ensures
            final(self).pending_report() is None,
            final(self).base_policy() == old(self).base_policy(),
            final(self).keeps() == old(self).keeps(),
            final(self).last_raw_text() == old(self).last_raw_text(),
            final(self).last_report() == old(self).last_report(),
    {
        self.pending = None;
    }

    pub fn status_text(&self) -> (s: String)
        ensures
            s@ == spec_status_text(
                session_policy(self.base_policy(), self.keeps()),
                self.keeps(),
                self.last_report(),
            ),
    {
        let p = self.policy();
        let mut s = crate::text::owned("input_sanitize enabled=");
        push_str(&mut s, if p.enabled {
            "true"
        } else {
            "false"
        });
        push_str(&mut s, "\nnotify_when_stripped=");
        push_str(&mut s, if p.notify_when_stripped {
            "true"
        } else {
            "false"
        });
        push_str(&mut s, "\ncategories:");
        let ghost head = s@;
        proof {
            reveal_strlit("");
        }
        let actions = p.actions_iter();
        let mut i: usize = 0;
        while i < actions.len()
            invariant
                i <= 12,
                actions@.len() == 12,
                forall|j: int|
                    0 <= j < 12 ==> #[trigger] actions@[j] == (all_categories()[j], p.spec_action(
                        all_categories()[j],
                    )),
                s@ == head + status_lines(p, self.session_keeps@, i as int),
            decreases 12 - i,
        {
            let (cat, action) = actions[i];
            assert(actions@[i as int] == (cat, action));
            assert(cat == all_categories()[i as int]);
            let ghost s0 = s@;
            let in_session = contains_cat(&self.session_keeps, cat);
            push_str(&mut s, "\n");
            push_str(&mut s, "  ");
            push_str(&mut s, cat.as_str());
            push_str(&mut s, " = ");
            push_str(&mut s, action.as_str());
            proof {
                reveal_strlit("");
            }
            let tail: &str = if in_session && action == CategoryAction::Keep {
                " (session)"
            } else {
                ""
            };
            push_str(&mut s, tail);
            assert(s@ =~= s0 + "\n"@ + status_line(cat, action, self.session_keeps@));
            assert(s@ =~= head + status_lines(p, self.session_keeps@, i + 1));
            i = i + 1;
        }
        let ghost body = s@;
        match &self.last_result {
            Some(r) => {
                push_str(&mut s, "\nlast: ");
                push_dec(&mut s, r.original_len as u128);
                push_str(&mut s, " → ");
                push_dec(&mut s, r.cleaned_len as u128);
                push_str(&mut s, " chars, ");
                push_dec(&mut s, r.hits.len() as u128);
                push_str(&mut s, " categories flagged");
            },
            None => {},
        }
        assert(s@ =~= spec_status_text(p, self.session_keeps@, opt_result(self.last_result)));
        s
    }
}

impl Default for InputSanitizeSession {
    /// A session over the terminal default policy.
    fn default() -> (s: InputSanitizeSession)
        ensures
            is_terminal_policy(s.base_policy()),
            s.keeps() == Seq::<RiskCategory>::empty(),
            s.pending_report() is None,
            s.last_raw_text() is None,
            s.last_report() is None,
    {
        InputSanitizeSession::new(SanitizePolicy::default())
    }
}

} // verus!
