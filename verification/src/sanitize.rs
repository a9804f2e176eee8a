//! The single-pass filter and its results.
use vstd::prelude::*;

use crate::analyze::{analyze_chars, hits_total, spec_analyze, spec_warns, AnalysisReport, ReportV};
use crate::category::{
    cat_at, cat_index, lemma_cat_index, spec_severity, RiskCategory, Severity,
};
use crate::classify::{classify, is_base_allowed, spec_classify, spec_is_base_allowed};
use crate::policy::{CategoryAction, SanitizePolicy};
use crate::text::{chars_of, string_of};

verus! {

/// One category that contributed stripped/kept/rejected characters.
#[derive(Debug, Clone, Copy, PartialEq, Eq, Structural)]
pub struct CategoryHit {
    pub category: RiskCategory,
    pub severity: Severity,
    pub count: usize,
    pub action: CategoryAction,
}

// ── the filter, as a function of the input ───────────────────────────────

/// CR/LF normalization, left to right: CR becomes LF, and an LF directly after
/// a CR is absorbed. Returns the normalized text and whether the last input
/// character was a CR.
pub open spec fn norm_state(s: Seq<char>) -> (Seq<char>, bool)
    decreases s.len(),
{
    if s.len() == 0 {
        (seq![], false)
    } else {
        let (n, cr) = norm_state(s.drop_last());
        let c = s.last();
        if c == '\r' {
            (n.push('\n'), true)
        } else if c == '\n' && cr {
            (n, false)
        } else {
            (n.push(c), false)
        }
    }
}

/// `s` with CRLF and lone CR turned into LF.
pub open spec fn normalize_newlines(s: Seq<char>) -> Seq<char> {
    norm_state(s).0
}

/// Whether the filter keeps `c` under `p`: base characters always, others when
/// the category's action is keep.
pub open spec fn spec_kept(p: SanitizePolicy, c: char) -> bool {
    spec_is_base_allowed(c) || p.spec_action(spec_classify(c)) == CategoryAction::Keep
}

/// The characters of `t` the filter keeps, in order.
pub open spec fn keep_filter(p: SanitizePolicy, t: Seq<char>) -> Seq<char>
    decreases t.len(),
{
    if t.len() == 0 {
        seq![]
    } else if spec_kept(p, t.last()) {
        keep_filter(p, t.drop_last()).push(t.last())
    } else {
        keep_filter(p, t.drop_last())
    }
}

/// Number of non-base characters of `t` in category `cat`.
pub open spec fn cat_count(t: Seq<char>, cat: RiskCategory) -> nat
    decreases t.len(),
{
    if t.len() == 0 {
        0
    } else {
        cat_count(t.drop_last(), cat) + if !spec_is_base_allowed(t.last()) && spec_classify(
            t.last(),
        ) == cat {
            1nat
        } else {
            0nat
        }
    }
}

/// Category of the first non-base character of `t` whose action is reject.
pub open spec fn first_reject(p: SanitizePolicy, t: Seq<char>) -> Option<RiskCategory>
    decreases t.len(),
{
    if t.len() == 0 {
        None
    } else {
        match first_reject(p, t.drop_last()) {
            Some(c) => Some(c),
            None => if !spec_is_base_allowed(t.last()) && p.spec_action(spec_classify(t.last()))
                == CategoryAction::Reject {
                Some(spec_classify(t.last()))
            } else {
                None
            },
        }
    }
}

/// The hit for the category at position `k`.
pub open spec fn hit_for(p: SanitizePolicy, t: Seq<char>, k: int) -> CategoryHit {
    CategoryHit {
        category: cat_at(k),
        severity: spec_severity(cat_at(k)),
        count: cat_count(t, cat_at(k)) as usize,
        action: p.spec_action(cat_at(k)),
    }
}

/// Hits of the first `k` categories (in declaration order) that occur in `t`.
pub open spec fn hits_upto(p: SanitizePolicy, t: Seq<char>, k: int) -> Seq<CategoryHit>
    decreases k,
{
    if k <= 0 {
        seq![]
    } else if cat_count(t, cat_at(k - 1)) > 0 {
        hits_upto(p, t, k - 1).push(hit_for(p, t, k - 1))
    } else {
        hits_upto(p, t, k - 1)
    }
}

/// Hits of a pass over (normalized) text `t`: one per category that occurs, in
/// category declaration order.
pub open spec fn spec_hits(p: SanitizePolicy, t: Seq<char>) -> Seq<CategoryHit> {
    hits_upto(p, t, 12)
}

// ── results ─────────────────────────────────────────────────────────────

/// Outcome of a successful sanitize.
#[derive(Debug, Clone)]
pub struct SanitizeResult {
    pub text: String,
    pub hits: Vec<CategoryHit>,
    pub original_len: usize,
    pub cleaned_len: usize,
    pub analysis: AnalysisReport,
}

/// A result as plain values: text, hits, original length, cleaned length, analysis.
pub type ResultV = (Seq<char>, Seq<CategoryHit>, usize, usize, ReportV);

impl View for SanitizeResult {
    type V = ResultV;

    open spec fn view(&self) -> ResultV {
        (self.text@, self.hits@, self.original_len, self.cleaned_len, self.analysis@)
    }
}

/// What a successful enabled pass returns.
pub open spec fn spec_sanitize_ok(input: Seq<char>, p: SanitizePolicy) -> ResultV {
    let t = normalize_newlines(input);
    let text = keep_filter(p, t);
    let hits = spec_hits(p, t);
    (text, hits, input.len() as usize, text.len() as usize, spec_analyze(input, text, hits, p))
}

/// What `sanitize` returns.
pub open spec fn spec_sanitize(input: Seq<char>, p: SanitizePolicy) -> Result<ResultV, SanitizeError> {
    if !p.enabled {
        Ok((input, seq![], input.len() as usize, input.len() as usize, crate::analyze::empty_report()))
    } else {
        let t = normalize_newlines(input);
        match first_reject(p, t) {
            Some(cat) => Err(SanitizeError::Rejected { category: cat, count: cat_count(t, cat) as usize }),
            None => Ok(spec_sanitize_ok(input, p)),
        }
    }
}

pub open spec fn result_view(r: Result<SanitizeResult, SanitizeError>) -> Result<ResultV, SanitizeError> {
    match r {
        Ok(res) => Ok(res@),
        Err(e) => Err(e),
    }
}

pub open spec fn hits_any(hits: Seq<CategoryHit>, sev: Severity) -> bool {
    exists|i: int| 0 <= i < hits.len() && hits[i].severity == sev && hits[i].count > 0
}

/// Hits that were stripped or rejected (not kept) and counted something.
pub open spec fn stripped_of(hits: Seq<CategoryHit>) -> Seq<CategoryHit>
    decreases hits.len(),
{
    if hits.len() == 0 {
        seq![]
    } else if hits.last().action != CategoryAction::Keep && hits.last().count > 0 {
        stripped_of(hits.drop_last()).push(hits.last())
    } else {
        stripped_of(hits.drop_last())
    }
}

/// A model note is owed: something was stripped, or the analysis warns.
pub open spec fn spec_needs_note(r: ResultV) -> bool {
    stripped_of(r.1).len() > 0 || spec_warns(r.4.1)
}

/// Sum of the counts of hits of the given severity.
pub open spec fn severity_total(hits: Seq<CategoryHit>, sev: Severity) -> nat
    decreases hits.len(),
{
    if hits.len() == 0 {
        0
    } else {
        severity_total(hits.drop_last(), sev) + if hits.last().severity == sev {
            hits.last().count as nat
        } else {
            0
        }
    }
}

impl SanitizeResult {
    pub fn was_modified(&self) -> (b: bool)
        ensures
            b == (self.hits@.len() > 0 || self.original_len != self.cleaned_len),
    {
        self.hits.len() > 0 || self.original_len != self.cleaned_len
    }

    fn any_hit(&self, sev: Severity) -> (b: bool)
        ensures
            b == hits_any(self.hits@, sev),
    {
        let mut i: usize = 0;
        while i < self.hits.len()
            invariant
                i <= self.hits@.len(),
                forall|j: int|
                    0 <= j < i ==> !(self.hits@[j].severity == sev && self.hits@[j].count > 0),
            decreases self.hits@.len() - i,
        {
            if self.hits[i].severity == sev && self.hits[i].count > 0 {
                return true;
            }
            i = i + 1;
        }
        false
    }

    pub fn has_security_hits(&self) -> (b: bool)
        ensures
            b == hits_any(self.hits@, Severity::Security),
    {
        self.any_hit(Severity::Security)
    }

    pub fn has_capability_hits(&self) -> (b: bool)
        ensures
            b == hits_any(self.hits@, Severity::Capability),
    {
        self.any_hit(Severity::Capability)
    }

    /// Categories that were stripped (not kept).
    pub fn stripped_hits(&self) -> (v: Vec<CategoryHit>)
        ensures
            v@ == stripped_of(self.hits@),
    {
        let mut v: Vec<CategoryHit> = Vec::new();
        let mut i: usize = 0;
        while i < self.hits.len()
            invariant
                i <= self.hits@.len(),
                v@ == stripped_of(self.hits@.take(i as int)),
            decreases self.hits@.len() - i,
        {
            assert(self.hits@.take(i + 1).drop_last() =~= self.hits@.take(i as int));
            let h = self.hits[i];
            if h.action != CategoryAction::Keep && h.count > 0 {
                v.push(h);
            }
            i = i + 1;
        }
        assert(self.hits@.take(self.hits@.len() as int) =~= self.hits@);
        v
    }

    /// Whether the model should get a note (strip happened or analysis warns).
    /// An equal result.
    pub fn copy_result(&self) -> (r: SanitizeResult)
        ensures
            r@ == self@,
    {
        let mut hits: Vec<CategoryHit> = Vec::new();
        let mut i: usize = 0;
        while i < self.hits.len()
            invariant
                i <= self.hits@.len(),
                hits@ == self.hits@.take(i as int),
            decreases self.hits@.len() - i,
        {
            hits.push(self.hits[i]);
            assert(hits@ =~= self.hits@.take(i + 1));
            i = i + 1;
        }
        assert(self.hits@.take(self.hits@.len() as int) =~= self.hits@);
        SanitizeResult {
            text: self.text.clone(),
            hits,
            original_len: self.original_len,
            cleaned_len: self.cleaned_len,
            analysis: self.analysis.copy_report(),
        }
    }

    pub fn needs_model_note(&self) -> (b: bool)
        ensures
            b == spec_needs_note(self@),
    {
        self.stripped_hits().len() > 0 || self.analysis.should_warn()
    }
}

/// Sanitize failure.
#[derive(Debug, Clone, Copy, PartialEq, Eq, Structural)]
pub enum SanitizeError {
    /// A character of a category set to reject occurred.
    Rejected { category: RiskCategory, count: usize },
}

// ── the pass ─────────────────────────────────────────────────────────────

proof fn lemma_step(p: SanitizePolicy, n: Seq<char>, c: char)
    ensures
        keep_filter(p, n.push(c)) == if spec_kept(p, c) {
            keep_filter(p, n).push(c)
        } else {
            keep_filter(p, n)
        },
        forall|cat: RiskCategory| #[trigger]
            cat_count(n.push(c), cat) == cat_count(n, cat) + if !spec_is_base_allowed(c)
                && spec_classify(c) == cat {
                1nat
            } else {
                0nat
            },
        first_reject(p, n.push(c)) == match first_reject(p, n) {
            Some(x) => Some(x),
            None => if !spec_is_base_allowed(c) && p.spec_action(spec_classify(c))
                == CategoryAction::Reject {
                Some(spec_classify(c))
            } else {
                None
            },
        },
{
    assert(n.push(c).drop_last() =~= n);
}

proof fn lemma_count_le(t: Seq<char>, cat: RiskCategory)
    ensures
        cat_count(t, cat) <= t.len(),
    decreases t.len(),
{
    if t.len() > 0 {
        lemma_count_le(t.drop_last(), cat);
    }
}

/// Normalization never lengthens the text.
pub proof fn lemma_norm_len(s: Seq<char>)
    ensures
        norm_state(s).0.len() <= s.len(),
    decreases s.len(),
{
    if s.len() > 0 {
        lemma_norm_len(s.drop_last());
    }
}

proof fn lemma_hits_total(p: SanitizePolicy, t: Seq<char>, k: int)
    requires
        0 <= k <= 12,
        t.len() <= usize::MAX,
    ensures
        hits_total(hits_upto(p, t, k)) <= t.len(),
        hits_total(hits_upto(p, t, k)) == crate::sanitize::counts_upto(t, k),
    decreases k,
{
    if k > 0 {
        lemma_hits_total(p, t, k - 1);
        let h = hits_upto(p, t, k);
        lemma_counts_upto(t, k);
        lemma_count_le(t, cat_at(k - 1));
        if cat_count(t, cat_at(k - 1)) > 0 {
            assert(h.drop_last() =~= hits_upto(p, t, k - 1));
            assert(h.last() == hit_for(p, t, k - 1));
            assert(hits_total(h) == hits_total(hits_upto(p, t, k - 1)) + cat_count(t, cat_at(k - 1)));
        }
    }
}

/// Sum of the counts of the first `k` categories.
pub open spec fn counts_upto(t: Seq<char>, k: int) -> nat
    decreases k,
{
    if k <= 0 {
        0
    } else {
        counts_upto(t, k - 1) + cat_count(t, cat_at(k - 1))
    }
}

proof fn lemma_counts_upto(t: Seq<char>, k: int)
    requires
        0 <= k <= 12,
    ensures
        counts_upto(t, k) <= t.len(),
    decreases t.len(),
{
    if t.len() > 0 {
        lemma_counts_upto(t.drop_last(), k);
        lemma_counts_step(t.drop_last(), t.last(), k);
        assert(t.drop_last().push(t.last()) =~= t);
    } else {
        lemma_counts_zero(t, k);
    }
}

proof fn lemma_counts_zero(t: Seq<char>, k: int)
    requires
        t.len() == 0,
        0 <= k,
    ensures
        counts_upto(t, k) == 0,
    decreases k,
{
    if k > 0 {
        lemma_counts_zero(t, k - 1);
    }
}

proof fn lemma_counts_step(t: Seq<char>, c: char, k: int)
    requires
        0 <= k <= 12,
    ensures
        counts_upto(t.push(c), k) <= counts_upto(t, k) + 1,
        (spec_is_base_allowed(c) || cat_index(spec_classify(c)) >= k) ==> counts_upto(t.push(c), k)
            == counts_upto(t, k),
    decreases k,
{
    if k > 0 {
        lemma_counts_step(t, c, k - 1);
        assert(t.push(c).drop_last() =~= t);
        lemma_cat_index(spec_classify(c));
        if !spec_is_base_allowed(c) && spec_classify(c) == cat_at(k - 1) {
            assert(cat_index(spec_classify(c)) == k - 1);
        }
    }
}

/// Sanitize `input` under `policy`.
///
/// Disabled policy: the input comes back unchanged with no hits and an empty
/// report. Otherwise the input is CR/LF-normalized, every base character is
/// kept, every other character is counted under its category and kept or
/// dropped by the category's action; a reject action makes the whole call
/// fail with the first rejecting category and its total count.
pub fn sanitize(input: &str, policy: &SanitizePolicy) -> (r: Result<SanitizeResult, SanitizeError>)
    ensures
        result_view(r) == spec_sanitize(input@, *policy),
        // No character of a stripped or rejected category, and no character of a
        // security category, survives an enabled pass.
        policy.enabled ==> (r matches Ok(res) ==> forall|i: int|
            0 <= i < res.text@.len() ==> spec_kept(*policy, #[trigger] res.text@[i]) && (
            spec_is_base_allowed(res.text@[i]) || spec_severity(spec_classify(res.text@[i]))
                == Severity::Capability)),
{
    let raw = chars_of(input);
    let original_len = raw.len();
    if !policy.enabled {
        let analysis = AnalysisReport::empty();
        return Ok(
            SanitizeResult {
                text: input.to_owned(),
                hits: Vec::new(),
                original_len,
                cleaned_len: original_len,
                analysis,
            },
        );
    }
    let mut out: Vec<char> = Vec::new();
    let mut counts: Vec<usize> = Vec::new();
    let mut k: usize = 0;
    while k < 12
        invariant
            k <= 12,
            counts@.len() == k,
            forall|j: int| 0 <= j < k ==> counts@[j] == 0,
        decreases 12 - k,
    {
        counts.push(0);
        k = k + 1;
    }
    let mut reject: Option<RiskCategory> = None;
    let mut prev_cr = false;
    let mut i: usize = 0;
    proof {
        assert(raw@.take(0) =~= seq![]);
    }
    while i < raw.len()
        invariant
            i <= raw@.len(),
            original_len == raw@.len(),
            counts@.len() == 12,
            norm_state(raw@.take(i as int)).0.len() <= i,
            out@ == keep_filter(*policy, norm_state(raw@.take(i as int)).0),
            prev_cr == norm_state(raw@.take(i as int)).1,
            forall|j: int|
                0 <= j < 12 ==> #[trigger] counts@[j] == cat_count(
                    norm_state(raw@.take(i as int)).0,
                    cat_at(j),
                ),
            reject == first_reject(*policy, norm_state(raw@.take(i as int)).0),
        decreases raw@.len() - i,
    {
        let ghost pre = raw@.take(i as int);
        let ghost n = norm_state(pre).0;
        proof {
            assert(raw@.take(i + 1).drop_last() =~= pre);
            assert(raw@.take(i + 1).last() == raw@[i as int]);
        }
        let c = raw[i];
        if c == '\r' {
            proof {
                lemma_step(*policy, n, '\n');
            }
            out.push('\n');
            prev_cr = true;
        } else if c == '\n' && prev_cr {
            prev_cr = false;
        } else {
            proof {
                lemma_step(*policy, n, c);
            }
            prev_cr = false;
            if is_base_allowed(c) {
                out.push(c);
            } else {
                let cat = classify(c, policy);
                let action = policy.action(cat);
                let idx = cat.index();
                proof {
                    lemma_cat_index(cat);
                    lemma_count_le(n, cat);
                    assert(counts@[idx as int] == cat_count(n, cat_at(idx as int)));
                }
                let old_count = counts[idx];
                counts.set(idx, old_count + 1);
                match action {
                    CategoryAction::Keep => {
                        out.push(c);
                    },
                    CategoryAction::Strip => {},
                    CategoryAction::Reject => {
                        if reject.is_none() {
                            reject = Some(cat);
                        }
                    },
                }
                proof {
                    assert forall|j: int| 0 <= j < 12 implies #[trigger] counts@[j] == cat_count(
                        norm_state(raw@.take(i + 1)).0,
                        cat_at(j),
                    ) by {
                        lemma_cat_index(cat_at(j));
                        if j != idx {
                            assert(cat_at(j) != cat) by {
                                lemma_cat_index(cat);
                            }
                        }
                    }
                }
            }
        }
        i = i + 1;
    }
    proof {
        assert(raw@.take(raw@.len() as int) =~= raw@);
    }
    let ghost t = normalize_newlines(input@);
    proof {
        assert(t == norm_state(raw@).0);
    }
    if let Some(category) = reject {
        proof {
            lemma_cat_index(category);
        }
        let count = counts[category.index()];
        return Err(SanitizeError::Rejected { category, count });
    }
    let mut hits: Vec<CategoryHit> = Vec::new();
    let cats = RiskCategory::all();
    let mut k: usize = 0;
    while k < 12
        invariant
            k <= 12,
            cats@ == crate::category::all_categories(),
            counts@.len() == 12,
            forall|j: int| 0 <= j < 12 ==> #[trigger] counts@[j] == cat_count(t, cat_at(j)),
            hits@ == hits_upto(*policy, t, k as int),
        decreases 12 - k,
    {
        let cat = cats[k];
        if counts[k] > 0 {
            hits.push(
                CategoryHit {
                    category: cat,
                    severity: cat.severity(),
                    count: counts[k],
                    action: policy.action(cat),
                },
            );
        }
        k = k + 1;
    }
    let text = string_of(&out);
    let cleaned_len = out.len();
    proof {
        lemma_norm_len(input@);
        lemma_hits_total(*policy, t, 12);
        lemma_kept_all(*policy, t);
        use_type_invariant(&policy.actions);
    }
    proof {
        crate::analyze::lemma_sec_le_total(hits@);
    }
    let analysis = analyze_chars(&raw, &out, text.as_str().as_bytes(), hits.as_slice(), policy);
    Ok(SanitizeResult { text, hits, original_len, cleaned_len, analysis })
}

/// Every character of the filtered text is kept by the policy.
proof fn lemma_kept_all(p: SanitizePolicy, t: Seq<char>)
    ensures
        forall|i: int| 0 <= i < keep_filter(p, t).len() ==> spec_kept(p, #[trigger] keep_filter(p, t)[i]),
    decreases t.len(),
{
    if t.len() > 0 {
        lemma_kept_all(p, t.drop_last());
        let r = keep_filter(p, t.drop_last());
        if spec_kept(p, t.last()) {
            assert forall|i: int| 0 <= i < keep_filter(p, t).len() implies spec_kept(
                p,
                #[trigger] keep_filter(p, t)[i],
            ) by {
                if i < r.len() {
                    assert(keep_filter(p, t)[i] == r[i]);
                }
            }
        }
    }
}


pub open spec fn spec_model_payload(r: ResultV) -> Seq<char> {
    if spec_needs_note(r) {
        crate::note::spec_model_note(r) + "\n\n"@ + r.0
    } else {
        r.0
    }
}

/// Clean text for the model: cleaned body, preceded by the structured note when
/// something was stripped or the analysis warns.
pub fn model_payload(result: &SanitizeResult) -> (s: String)
    ensures
        s@ == spec_model_payload(result@),
{
    if !result.needs_model_note() {
        return result.text.clone();
    }
    let mut s = crate::note::format_model_note(result);
    crate::text::push_str(&mut s, "\n\n");
    crate::text::push_str(&mut s, result.text.as_str());
    s
}

/// The note of `r` followed by `body`, or `body` alone when `r` owes no note.
pub open spec fn spec_payload_with_body(r: ResultV, body: Seq<char>) -> Seq<char> {
    if spec_needs_note(r) {
        crate::note::spec_model_note(r) + "\n\n"@ + body
    } else {
        body
    }
}

/// The note of an earlier report (e.g. taken at paste time) followed by `body`;
/// just `body` when that report owes no note.
pub fn model_payload_with_body(result: &SanitizeResult, body: &str) -> (s: String)
    ensures
        s@ == spec_payload_with_body(result@, body@),
{
    if !result.needs_model_note() {
        return crate::text::owned(body);
    }
    let mut s = crate::note::format_model_note(result);
    crate::text::push_str(&mut s, "\n\n");
    crate::text::push_str(&mut s, body);
    s
}

pub open spec fn spec_security_toast(r: ResultV) -> Option<Seq<char>> {
    if hits_any(r.1, Severity::Security) {
        Some(
            "Removed "@ + crate::text::dec(severity_total(r.1, Severity::Security))
                + " invisible/deceptive character(s) (possible prompt injection)."@,
        )
    } else {
        None
    }
}

proof fn lemma_severity_total_bound(hits: Seq<CategoryHit>, sev: Severity)
    ensures
        severity_total(hits, sev) <= hits.len() * 0xffff_ffff_ffff_ffff,
    decreases hits.len(),
{
    if hits.len() > 0 {
        lemma_severity_total_bound(hits.drop_last(), sev);
        assert(hits.last().count <= 0xffff_ffff_ffff_ffff);
    }
}

/// Short TUI toast for security hits.
pub fn security_toast(result: &SanitizeResult) -> (t: Option<String>)
    ensures
        match t {
            Some(s) => spec_security_toast(result@) == Some(s@),
            None => spec_security_toast(result@) is None,
        },
{
    if !result.has_security_hits() {
        return None;
    }
    let mut n: u128 = 0;
    let mut i: usize = 0;
    while i < result.hits.len()
        invariant
            i <= result.hits@.len(),
            n == severity_total(result.hits@.take(i as int), Severity::Security),
            n <= i * 0xffff_ffff_ffff_ffff,
        decreases result.hits@.len() - i,
    {
        proof {
            assert(result.hits@.take(i + 1).drop_last() =~= result.hits@.take(i as int));
        }
        let h = result.hits[i];
        if h.severity == Severity::Security {
            assert(n + h.count <= (i + 1) * 0xffff_ffff_ffff_ffff) by (nonlinear_arith)
                requires
                    n <= i * 0xffff_ffff_ffff_ffff,
                    h.count <= 0xffff_ffff_ffff_ffff,
            ;
            assert((i + 1) * 0xffff_ffff_ffff_ffff <= 0xffff_ffff_ffff_ffff * 0x1_0000_0000_0000_0000) by (nonlinear_arith)
                requires
                    i < 0xffff_ffff_ffff_ffff,
            ;
            n = n + h.count as u128;
        }
        i = i + 1;
    }
    assert(result.hits@.take(result.hits@.len() as int) =~= result.hits@);
    let mut s = crate::text::owned("Removed ");
    crate::text::push_dec(&mut s, n);
    crate::text::push_str(&mut s, " invisible/deceptive character(s) (possible prompt injection).");
    Some(s)
}

pub open spec fn spec_error_message(e: SanitizeError) -> Seq<char> {
    match e {
        SanitizeError::Rejected { category, count } => "input rejected: category `"@
            + crate::category::spec_cat_name(category) + "` ("@ + crate::text::dec(count as nat)
            + " character(s)) is set to reject"@,
    }
}

impl SanitizeError {
    /// Human-readable message.
    pub fn message(&self) -> (s: String)
        ensures
            s@ == spec_error_message(*self),
    {
        match self {
            SanitizeError::Rejected { category, count } => {
                let mut s = crate::text::owned("input rejected: category `");
                crate::text::push_str(&mut s, category.as_str());
                crate::text::push_str(&mut s, "` (");
                crate::text::push_dec(&mut s, *count as u128);
                crate::text::push_str(&mut s, " character(s)) is set to reject");
                s
            },
        }
    }
}

} // verus!
