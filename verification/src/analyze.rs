//! Residual-risk analysis of prompts: structure of the strip transform,
//! steganography carriers on the raw stream, statistics and injection
//! heuristics on the cleaned text.
//!
//! Thresholds are exact rational comparisons done in integer arithmetic.
use vstd::prelude::*;

use crate::category::{RiskCategory, Severity};
use crate::classify::{classify, is_base_allowed, spec_classify, spec_is_base_allowed};
use crate::policy::{CategoryAction, SanitizePolicy};
use crate::sanitize::CategoryHit;
use crate::stats::{
    sig_compress, sig_dual, sig_letters, sig_lsb, sig_trailing, sig_whitespace, spec_sig_compress,
    spec_sig_dual, spec_sig_letters, spec_sig_lsb, spec_sig_trailing, spec_sig_whitespace,
    spec_token_signals, token_signals,
};
use vstd::utf8::encode_utf8;
use crate::text::{
    ascii_alnum, ascii_alpha, ascii_digit, ascii_hex, char_is_whitespace, chars_of, contains_seq,
    contains_vec, dec, fixed, is_ascii, is_ascii_alnum, is_ascii_alpha, is_ascii_digit,
    is_ascii_hex, lower_seq, push_dec, push_fixed, push_str, round_div, round_div_exec,
    round_half_up, unicode_white_space,
};

verus! {

/// Aggregate analysis for one sanitize pass.
#[derive(Debug, Clone)]
pub struct AnalysisReport {
    /// 0-100 composite risk.
    pub score: u8,
    pub level: AnalysisLevel,
    pub signals: Vec<AnalysisSignal>,
}

#[derive(Debug, Clone, Copy, PartialEq, Eq, Structural, PartialOrd, Ord)]
pub enum AnalysisLevel {
    /// Score 0-14 (printed as `none`).
    NoRisk,
    Low,
    Medium,
    High,
    Critical,
}

#[derive(Debug, Clone)]
pub struct AnalysisSignal {
    pub kind: SignalKind,
    /// Contribution toward the composite score.
    pub weight: u8,
    pub detail: String,
}

#[derive(Debug, Clone, Copy, PartialEq, Eq, Structural, Hash)]
pub enum SignalKind {
    /// Security-category density on raw vs length.
    SecurityCarrierDensity,
    /// Cleaned text still substantial after heavy security strip (co-located payload).
    StripRevealsPayload,
    /// Zero-width / format chars interleaved between printable letters.
    ZeroWidthInterleave,
    /// Whitespace used as a bit channel (runs of 1 vs 2+ spaces).
    WhitespaceBitChannel,
    /// Raw "visible ASCII projection" vs cleaned diverge in structure.
    DualChannelDivergence,
    /// Cleaned text entropy in suspicious band (encoded / packed).
    HighEntropyCleaned,
    /// Long base64 / hex / mixed encoded spans.
    EncodedBlob,
    /// Classic injection / jailbreak phrases on cleaned text.
    InjectionPhrase,
    /// Role / instruction-override language density.
    RoleOverrideDensity,
    /// Character distribution far from English-like prose.
    CharDistributionAnomaly,
    /// Odd digit/symbol ratio for claimed natural language.
    SymbolDigitSkew,
    /// Trailing spaces / tabs on lines used as a bit channel.
    TrailingWhitespaceChannel,
    /// Low compressibility ratio (near-random / packed payload).
    LowCompressibility,
    /// Uniformity of printable-byte LSBs (stego / packed bits).
    LsbBias,
    /// Homogeneous word-length / token statistics atypical of prose.
    TokenLengthAnomaly,
    /// Image payload: high entropy / uniform bytes / LSB bias / odd containers.
    ImageStatisticalAnomaly,
    /// Image payload: suspicious PNG ancillary / oversized non-IDAT mass.
    ImageContainerAnomaly,
}

/// A signal as plain values: kind, weight, detail text.
pub type SigV = (SignalKind, u8, Seq<char>);

/// A report as plain values: score, level, signals.
pub type ReportV = (u8, AnalysisLevel, Seq<SigV>);

impl View for AnalysisSignal {
    type V = SigV;

    open spec fn view(&self) -> SigV {
        (self.kind, self.weight, self.detail@)
    }
}

pub open spec fn sig_views(v: Seq<AnalysisSignal>) -> Seq<SigV> {
    v.map_values(|s: AnalysisSignal| s@)
}

impl View for AnalysisReport {
    type V = ReportV;

    open spec fn view(&self) -> ReportV {
        (self.score, self.level, sig_views(self.signals@))
    }
}

pub open spec fn spec_level_name(l: AnalysisLevel) -> Seq<char> {
    match l {
        AnalysisLevel::NoRisk => "none"@,
        AnalysisLevel::Low => "low"@,
        AnalysisLevel::Medium => "medium"@,
        AnalysisLevel::High => "high"@,
        AnalysisLevel::Critical => "critical"@,
    }
}

/// Level band of a score: 0-14 none, 15-34 low, 35-54 medium, 55-74 high, 75+ critical.
pub open spec fn spec_level_of(score: int) -> AnalysisLevel {
    if score <= 14 {
        AnalysisLevel::NoRisk
    } else if score <= 34 {
        AnalysisLevel::Low
    } else if score <= 54 {
        AnalysisLevel::Medium
    } else if score <= 74 {
        AnalysisLevel::High
    } else {
        AnalysisLevel::Critical
    }
}

/// Whether a level asks for a warning (medium and above).
pub open spec fn spec_warns(l: AnalysisLevel) -> bool {
    l == AnalysisLevel::Medium || l == AnalysisLevel::High || l == AnalysisLevel::Critical
}

pub open spec fn weight_sum(s: Seq<SigV>) -> nat
    decreases s.len(),
{
    if s.len() == 0 {
        0
    } else {
        weight_sum(s.drop_last()) + s.last().1 as nat
    }
}

pub open spec fn min_int(a: int, b: int) -> int {
    if a <= b {
        a
    } else {
        b
    }
}

/// Report of a signal list: score is the weight sum capped at 100.
pub open spec fn report_of(s: Seq<SigV>) -> ReportV {
    let score = min_int(weight_sum(s) as int, 100);
    (score as u8, spec_level_of(score), s)
}

pub open spec fn empty_report() -> ReportV {
    (0, AnalysisLevel::NoRisk, seq![])
}

/// Signal list that contributes `o` (one signal or none).
pub open spec fn opt_seq(o: Option<SigV>) -> Seq<SigV> {
    match o {
        Some(v) => seq![v],
        None => seq![],
    }
}

impl AnalysisSignal {
    /// An equal signal.
    pub fn copy_signal(&self) -> (r: AnalysisSignal)
        ensures
            r@ == self@,
    {
        AnalysisSignal { kind: self.kind, weight: self.weight, detail: self.detail.clone() }
    }
}

impl AnalysisReport {
    /// An equal report.
    pub fn copy_report(&self) -> (r: AnalysisReport)
        ensures
            r@ == self@,
    {
        let mut signals: Vec<AnalysisSignal> = Vec::new();
        let mut i: usize = 0;
        while i < self.signals.len()
            invariant
                i <= self.signals@.len(),
                sig_views(signals@) == sig_views(self.signals@).take(i as int),
            decreases self.signals@.len() - i,
        {
            let ghost before = signals@;
            let c = self.signals[i].copy_signal();
            signals.push(c);
            assert(signals@ == before.push(c));
            assert(sig_views(signals@) =~= sig_views(before).push(c@));
            assert(sig_views(self.signals@)[i as int] == self.signals@[i as int]@);
            assert(sig_views(signals@) =~= sig_views(self.signals@).take(i + 1));
            i = i + 1;
        }
        assert(sig_views(self.signals@).take(self.signals@.len() as int) =~= sig_views(
            self.signals@,
        ));
        AnalysisReport { score: self.score, level: self.level, signals }
    }

    pub fn empty() -> (r: AnalysisReport)
        ensures
            r@ == empty_report(),
    {
        let r = AnalysisReport { score: 0, level: AnalysisLevel::NoRisk, signals: Vec::new() };
        assert(sig_views(r.signals@) =~= seq![]);
        r
    }

    pub fn should_warn(&self) -> (b: bool)
        ensures
            b == spec_warns(self.level),
    {
        match self.level {
            AnalysisLevel::Medium | AnalysisLevel::High | AnalysisLevel::Critical => true,
            _ => false,
        }
    }

    pub fn is_elevated(&self) -> (b: bool)
        ensures
            b == spec_warns(self.level),
    {
        self.should_warn()
    }
}

impl AnalysisLevel {
    pub fn as_str(self) -> (s: &'static str)
        ensures
            s@ == spec_level_name(self),
    {
        match self {
            AnalysisLevel::NoRisk => "none",
            AnalysisLevel::Low => "low",
            AnalysisLevel::Medium => "medium",
            AnalysisLevel::High => "high",
            AnalysisLevel::Critical => "critical",
        }
    }

    pub fn from_score(score: u8) -> (l: AnalysisLevel)
        ensures
            l == spec_level_of(score as int),
    {
        if score <= 14 {
            AnalysisLevel::NoRisk
        } else if score <= 34 {
            AnalysisLevel::Low
        } else if score <= 54 {
            AnalysisLevel::Medium
        } else if score <= 74 {
            AnalysisLevel::High
        } else {
            AnalysisLevel::Critical
        }
    }
}

pub open spec fn spec_kind_name(k: SignalKind) -> Seq<char> {
    match k {
        SignalKind::SecurityCarrierDensity => "security_carrier_density"@,
        SignalKind::StripRevealsPayload => "strip_reveals_payload"@,
        SignalKind::ZeroWidthInterleave => "zero_width_interleave"@,
        SignalKind::WhitespaceBitChannel => "whitespace_bit_channel"@,
        SignalKind::DualChannelDivergence => "dual_channel_divergence"@,
        SignalKind::HighEntropyCleaned => "high_entropy_cleaned"@,
        SignalKind::EncodedBlob => "encoded_blob"@,
        SignalKind::InjectionPhrase => "injection_phrase"@,
        SignalKind::RoleOverrideDensity => "role_override_density"@,
        SignalKind::CharDistributionAnomaly => "char_distribution_anomaly"@,
        SignalKind::SymbolDigitSkew => "symbol_digit_skew"@,
        SignalKind::TrailingWhitespaceChannel => "trailing_whitespace_channel"@,
        SignalKind::LowCompressibility => "low_compressibility"@,
        SignalKind::LsbBias => "lsb_bias"@,
        SignalKind::TokenLengthAnomaly => "token_length_anomaly"@,
        SignalKind::ImageStatisticalAnomaly => "image_statistical_anomaly"@,
        SignalKind::ImageContainerAnomaly => "image_container_anomaly"@,
    }
}

impl SignalKind {
    pub fn as_str(self) -> (s: &'static str)
        ensures
            s@ == spec_kind_name(self),
    {
        match self {
            SignalKind::SecurityCarrierDensity => "security_carrier_density",
            SignalKind::StripRevealsPayload => "strip_reveals_payload",
            SignalKind::ZeroWidthInterleave => "zero_width_interleave",
            SignalKind::WhitespaceBitChannel => "whitespace_bit_channel",
            SignalKind::DualChannelDivergence => "dual_channel_divergence",
            SignalKind::HighEntropyCleaned => "high_entropy_cleaned",
            SignalKind::EncodedBlob => "encoded_blob",
            SignalKind::InjectionPhrase => "injection_phrase",
            SignalKind::RoleOverrideDensity => "role_override_density",
            SignalKind::CharDistributionAnomaly => "char_distribution_anomaly",
            SignalKind::SymbolDigitSkew => "symbol_digit_skew",
            SignalKind::TrailingWhitespaceChannel => "trailing_whitespace_channel",
            SignalKind::LowCompressibility => "low_compressibility",
            SignalKind::LsbBias => "lsb_bias",
            SignalKind::TokenLengthAnomaly => "token_length_anomaly",
            SignalKind::ImageStatisticalAnomaly => "image_statistical_anomaly",
            SignalKind::ImageContainerAnomaly => "image_container_anomaly",
        }
    }
}

/// Build a report from a signal list (shared with image analysis).
pub fn finish_report(signals: Vec<AnalysisSignal>) -> (r: AnalysisReport)
    ensures
        r@ == report_of(sig_views(signals@)),
{
    let ghost sv = sig_views(signals@);
    let mut score: u8 = 0;
    let mut i: usize = 0;
    while i < signals.len()
        invariant
            i <= signals@.len(),
            sv == sig_views(signals@),
            score as int == min_int(weight_sum(sv.take(i as int)) as int, 100),
        decreases signals@.len() - i,
    {
        let w = signals[i].weight;
        proof {
            assert(sv.take(i + 1).drop_last() =~= sv.take(i as int));
            assert(sv.take(i + 1).last() == sv[i as int]);
        }
        if (score as u16) + (w as u16) >= 100 {
            score = 100;
        } else {
            score = score + w;
        }
        i = i + 1;
    }
    assert(sv.take(signals@.len() as int) =~= sv);
    let level = AnalysisLevel::from_score(score);
    AnalysisReport { score, level, signals }
}

/// Merge two reports (e.g. text sanitize + image check).
pub fn merge_reports(a: AnalysisReport, b: AnalysisReport) -> (r: AnalysisReport)
    ensures
        a@.2.len() == 0 ==> r@ == b@,
        a@.2.len() != 0 && b@.2.len() == 0 ==> r@ == a@,
        a@.2.len() != 0 && b@.2.len() != 0 ==> r@ == report_of(a@.2 + b@.2),
{
    if a.signals.len() == 0 {
        return b;
    }
    if b.signals.len() == 0 {
        return a;
    }
    let mut signals = a.signals;
    let mut more = b.signals;
    let ghost sa = signals@;
    let ghost sb = more@;
    signals.append(&mut more);
    assert(sig_views(signals@) =~= sig_views(sa) + sig_views(sb));
    finish_report(signals)
}


// ── entropy (measured by the caller) ─────────────────────────────────────

/// The bytes whose Shannon entropy is measured: each non-white-space
/// character truncated to its low byte, kept when that byte is ASCII.
pub open spec fn entropy_bytes(s: Seq<char>) -> Seq<u8>
    decreases s.len(),
{
    if s.len() == 0 {
        seq![]
    } else {
        let r = entropy_bytes(s.drop_last());
        let b = ((s.last() as u32) % 256) as u8;
        if !unicode_white_space(s.last()) && b < 128 {
            r.push(b)
        } else {
            r
        }
    }
}

/// The sample to measure, when the analysis is enabled and the sample has
/// at least 40 bytes.
pub open spec fn spec_entropy_sample(cleaned: Seq<char>, policy: SanitizePolicy) -> Option<
    Seq<u8>,
> {
    let b = entropy_bytes(cleaned);
    if policy.analyze_enabled && b.len() >= 40 {
        Some(b)
    } else {
        None
    }
}

/// Bytes of the cleaned text to measure the entropy of, or `None` when the
/// entropy signal does not apply.
pub fn entropy_sample(cleaned: &str, policy: &SanitizePolicy) -> (r: Option<Vec<u8>>)
    ensures
        r matches Some(v) ==> spec_entropy_sample(cleaned@, *policy) == Some(v@),
        r is None ==> spec_entropy_sample(cleaned@, *policy) is None,
{
    if !policy.analyze_enabled {
        return None;
    }
    let cs = chars_of(cleaned);
    let mut v: Vec<u8> = Vec::new();
    let mut i: usize = 0;
    while i < cs.len()
        invariant
            i <= cs@.len(),
            v@ == entropy_bytes(cs@.take(i as int)),
        decreases cs@.len() - i,
    {
        assert(cs@.take(i + 1).drop_last() =~= cs@.take(i as int));
        let c = cs[i];
        let b = ((c as u32) % 256) as u8;
        if !char_is_whitespace(c) && b < 128 {
            v.push(b);
        }
        i = i + 1;
    }
    assert(cs@.take(cs@.len() as int) =~= cs@);
    if v.len() >= 40 {
        Some(v)
    } else {
        None
    }
}

/// Entropy signal from the entropy in thousandths of a bit per byte
/// (rounded down): from 5.2 bits, weight 30 from 5.8 bits.
pub open spec fn spec_entropy_sig(milli: nat) -> Option<SigV> {
    if milli >= 5200 {
        Some(
            (
                SignalKind::HighEntropyCleaned,
                if milli >= 5800 {
                    30u8
                } else {
                    18u8
                },
                "Cleaned non-space ASCII entropy ≈ "@ + fixed(round_half_up(milli as int, 10) as nat, 2)
                    + " bits/char (high — packed/encoded-like)"@,
            ),
        )
    } else {
        None
    }
}

/// Kinds that the analysis emits before the entropy signal.
pub open spec fn before_entropy(k: SignalKind) -> bool {
    k == SignalKind::SecurityCarrierDensity || k == SignalKind::StripRevealsPayload || k
        == SignalKind::ZeroWidthInterleave || k == SignalKind::WhitespaceBitChannel || k
        == SignalKind::TrailingWhitespaceChannel || k == SignalKind::DualChannelDivergence
}

/// Length of the longest prefix of `s` made of kinds emitted before entropy.
pub open spec fn entropy_slot(s: Seq<SigV>) -> nat
    decreases s.len(),
{
    if s.len() > 0 && before_entropy(s[0].0) {
        1 + entropy_slot(s.drop_first())
    } else {
        0
    }
}

fn emitted_before_entropy(k: SignalKind) -> (b: bool)
    ensures
        b == before_entropy(k),
{
    match k {
        SignalKind::SecurityCarrierDensity | SignalKind::StripRevealsPayload
        | SignalKind::ZeroWidthInterleave | SignalKind::WhitespaceBitChannel
        | SignalKind::TrailingWhitespaceChannel | SignalKind::DualChannelDivergence => true,
        _ => false,
    }
}

proof fn lemma_entropy_slot(s: Seq<SigV>, k: int)
    requires
        0 <= k <= s.len(),
        forall|j: int| 0 <= j < k ==> before_entropy(#[trigger] s[j].0),
        k == s.len() || !before_entropy(s[k].0),
    ensures
        entropy_slot(s) == k,
    decreases k,
{
    if k > 0 {
        assert forall|j: int| 0 <= j < k - 1 implies before_entropy(#[trigger] s.drop_first()[j].0) by {
            assert(s.drop_first()[j] == s[j + 1]);
        }
        lemma_entropy_slot(s.drop_first(), k - 1);
    }
}

/// Adds the entropy signal, measured on `entropy_sample`, to a text report
/// at its place among the signals, and recomputes score and level.
pub fn add_entropy(report: AnalysisReport, milli_bits: u32) -> (r: AnalysisReport)
    ensures
        spec_entropy_sig(milli_bits as nat) is None ==> r@ == report@,
        spec_entropy_sig(milli_bits as nat) matches Some(sig) ==> r@ == report_of(
            report@.2.take(entropy_slot(report@.2) as int).push(sig) + report@.2.skip(
                entropy_slot(report@.2) as int,
            ),
        ),
{
    if milli_bits < 5200 {
        return report;
    }
    let weight: u8 = if milli_bits >= 5800 {
        30
    } else {
        18
    };
    let mut d = crate::text::owned("Cleaned non-space ASCII entropy ≈ ");
    push_fixed(&mut d, ((milli_bits as u128) * 2 + 10) / 20, 2);
    push_str(&mut d, " bits/char (high — packed/encoded-like)");
    let sig = AnalysisSignal { kind: SignalKind::HighEntropyCleaned, weight, detail: d };
    assert(sig@.2 =~= spec_entropy_sig(milli_bits as nat).unwrap().2);
    let old = report.signals;
    let ghost ov = sig_views(old@);
    let mut k: usize = 0;
    while k < old.len() && emitted_before_entropy(old[k].kind)
        invariant
            k <= old@.len(),
            ov == sig_views(old@),
            forall|j: int| 0 <= j < k ==> before_entropy(#[trigger] ov[j].0),
        decreases old@.len() - k,
    {
        k = k + 1;
    }
    proof {
        lemma_entropy_slot(ov, k as int);
    }
    let mut signals = old;
    signals.insert(k, sig);
    assert(sig_views(signals@) =~= ov.take(k as int).push(sig@) + ov.skip(k as int));
    finish_report(signals)
}

// ── hit sums ─────────────────────────────────────────────────────────────

/// Characters of a security category that were not kept.
pub open spec fn sec_removed(hits: Seq<CategoryHit>) -> nat
    decreases hits.len(),
{
    if hits.len() == 0 {
        0
    } else {
        sec_removed(hits.drop_last()) + if hits.last().severity == Severity::Security
            && hits.last().action != CategoryAction::Keep {
            hits.last().count as nat
        } else {
            0
        }
    }
}

/// Sum of all hit counts.
pub open spec fn hits_total(hits: Seq<CategoryHit>) -> nat
    decreases hits.len(),
{
    if hits.len() == 0 {
        0
    } else {
        hits_total(hits.drop_last()) + hits.last().count as nat
    }
}

pub(crate) proof fn lemma_sec_le_total(hits: Seq<CategoryHit>)
    ensures
        sec_removed(hits) <= hits_total(hits),
    decreases hits.len(),
{
    if hits.len() > 0 {
        lemma_sec_le_total(hits.drop_last());
    }
}

fn count_sec_removed(hits: &[CategoryHit]) -> (n: usize)
    requires
        sec_removed(hits@) <= usize::MAX,
    ensures
        n == sec_removed(hits@),
{
    let mut n: usize = 0;
    let mut i: usize = 0;
    while i < hits.len()
        invariant
            i <= hits@.len(),
            n == sec_removed(hits@.take(i as int)),
            sec_removed(hits@) <= usize::MAX,
        decreases hits@.len() - i,
    {
        proof {
            assert(hits@.take(i + 1).drop_last() =~= hits@.take(i as int));
            lemma_prefix_sec(hits@, i as int + 1);
        }
        let h = hits[i];
        if h.severity == Severity::Security && h.action != CategoryAction::Keep {
            n = n + h.count;
        }
        i = i + 1;
    }
    assert(hits@.take(hits@.len() as int) =~= hits@);
    n
}

proof fn lemma_prefix_sec(hits: Seq<CategoryHit>, k: int)
    requires
        0 <= k <= hits.len(),
    ensures
        sec_removed(hits.take(k)) <= sec_removed(hits),
    decreases hits.len() - k,
{
    if k < hits.len() {
        lemma_prefix_sec(hits, k + 1);
        assert(hits.take(k + 1).drop_last() =~= hits.take(k));
    } else {
        assert(hits.take(k) =~= hits);
    }
}

// ── 1. security carrier density ─────────────────────────────────────────

pub open spec fn max1(n: nat) -> nat {
    if n == 0 {
        1
    } else {
        n
    }
}

fn sig_security_density(raw_len: usize, sec: usize) -> (r: Option<AnalysisSignal>)
    ensures
        r matches Some(s) ==> Some(s@) == spec_sig_security_density_n(raw_len as nat, sec as nat),
        r is None ==> spec_sig_security_density_n(raw_len as nat, sec as nat) is None,
{
    if sec == 0 {
        return None;
    }
    let n: u128 = if raw_len == 0 {
        1
    } else {
        raw_len as u128
    };
    let s = sec as u128;
    let weight: u8 = if 4 * s >= n {
        40
    } else if 10 * s >= n {
        28
    } else if 100 * s >= 3 * n {
        16
    } else if s >= 3 {
        12
    } else {
        6
    };
    assert(s <= 0xffff_ffff_ffff_ffff && n <= 0xffff_ffff_ffff_ffff);
    let pct10 = round_div_exec(1000 * s, n);
    let mut d = String::new();
    push_dec(&mut d, sec as u128);
    push_str(&mut d, " security-sensitive character(s) (");
    push_fixed(&mut d, pct10, 1);
    push_str(&mut d, "% of input) — typical stego/spoof carriers");
    let sig = AnalysisSignal { kind: SignalKind::SecurityCarrierDensity, weight, detail: d };
    assert(sig@.2 =~= spec_sig_security_density_n(raw_len as nat, sec as nat).unwrap().2);
    Some(sig)
}

/// Density signal from the raw length and the removed security count.
pub open spec fn spec_sig_security_density_n(raw_len: nat, sec: nat) -> Option<SigV> {
    let n = max1(raw_len);
    if sec == 0 {
        None
    } else {
        let weight: u8 = if 4 * sec >= n {
            40
        } else if 10 * sec >= n {
            28
        } else if 100 * sec >= 3 * n {
            16
        } else if sec >= 3 {
            12
        } else {
            6
        };
        let pct10 = round_div((1000 * sec) as int, n as int) as nat;
        Some(
            (
                SignalKind::SecurityCarrierDensity,
                weight,
                dec(sec) + " security-sensitive character(s) ("@ + fixed(pct10, 1)
                    + "% of input) — typical stego/spoof carriers"@,
            ),
        )
    }
}


// ── counting helpers ─────────────────────────────────────────────────────

/// Number of characters of `s` satisfying `f`.
pub open spec fn count_where(s: Seq<char>, f: spec_fn(char) -> bool) -> nat
    decreases s.len(),
{
    if s.len() == 0 {
        0
    } else {
        count_where(s.drop_last(), f) + if f(s.last()) {
            1nat
        } else {
            0nat
        }
    }
}

pub proof fn lemma_count_le(s: Seq<char>, f: spec_fn(char) -> bool)
    ensures
        count_where(s, f) <= s.len(),
    decreases s.len(),
{
    if s.len() > 0 {
        lemma_count_le(s.drop_last(), f);
    }
}

pub open spec fn alpha_pred() -> spec_fn(char) -> bool {
    |c: char| is_ascii_alpha(c)
}

pub open spec fn digit_pred() -> spec_fn(char) -> bool {
    |c: char| is_ascii_digit(c)
}

/// ASCII, not a letter, not a digit, not white space.
pub open spec fn symbol_pred() -> spec_fn(char) -> bool {
    |c: char| is_ascii(c) && !is_ascii_alpha(c) && !is_ascii_digit(c) && !unicode_white_space(c)
}

pub(crate) fn count_alpha(s: &Vec<char>) -> (n: usize)
    ensures
        n == count_where(s@, alpha_pred()),
{
    let mut n: usize = 0;
    let mut i: usize = 0;
    while i < s.len()
        invariant
            i <= s@.len(),
            n == count_where(s@.take(i as int), alpha_pred()),
            n <= i,
        decreases s@.len() - i,
    {
        assert(s@.take(i + 1).drop_last() =~= s@.take(i as int));
        if ascii_alpha(s[i]) {
            n = n + 1;
        }
        i = i + 1;
    }
    assert(s@.take(s@.len() as int) =~= s@);
    n
}

// ── 2. strip reveals payload ────────────────────────────────────────────

pub open spec fn spec_sig_strip_reveals(raw_len: nat, cleaned: Seq<char>, sec: nat) -> Option<
    SigV,
> {
    let alpha = count_where(cleaned, alpha_pred());
    if sec >= 2 && alpha >= 24 && 50 * sec >= max1(raw_len) {
        Some(
            (
                SignalKind::StripRevealsPayload,
                30u8,
                "After removing "@ + dec(sec) + " security carrier(s), cleaned text still has "@
                    + dec(alpha)
                    + " letters — treat cleaned body as potentially attacker-authored, not 'safe because stripped'"@,
            ),
        )
    } else {
        None
    }
}

fn sig_strip_reveals(raw_len: usize, cleaned: &Vec<char>, sec: usize) -> (r: Option<AnalysisSignal>)
    ensures
        r matches Some(s) ==> Some(s@) == spec_sig_strip_reveals(raw_len as nat, cleaned@, sec as nat),
        r is None ==> spec_sig_strip_reveals(raw_len as nat, cleaned@, sec as nat) is None,
{
    if sec < 2 {
        return None;
    }
    let alpha = count_alpha(cleaned);
    let n: u128 = if raw_len == 0 {
        1
    } else {
        raw_len as u128
    };
    if alpha >= 24 && 50 * (sec as u128) >= n {
        let mut d = crate::text::owned("After removing ");
        push_dec(&mut d, sec as u128);
        push_str(&mut d, " security carrier(s), cleaned text still has ");
        push_dec(&mut d, alpha as u128);
        push_str(
            &mut d,
            " letters — treat cleaned body as potentially attacker-authored, not 'safe because stripped'",
        );
        let sig = AnalysisSignal { kind: SignalKind::StripRevealsPayload, weight: 30, detail: d };
        assert(sig@.2 =~= spec_sig_strip_reveals(raw_len as nat, cleaned@, sec as nat).unwrap().2);
        Some(sig)
    } else {
        None
    }
}

// ── 3. zero-width interleave ─────────────────────────────────────────────

/// A raw character that is a zero-width or bidi carrier.
pub open spec fn is_zw_carrier(c: char) -> bool {
    !spec_is_base_allowed(c) && (spec_classify(c) == RiskCategory::ZeroWidthFormat
        || spec_classify(c) == RiskCategory::BidiControls)
}

/// Interleaves `letter carrier letter` counted by a left-to-right scan from
/// `i` that skips two positions after each match.
pub open spec fn zw_interleaves(s: Seq<char>, i: int) -> nat
    decreases s.len() - i,
{
    if i >= 0 && i + 2 < s.len() {
        if is_ascii_alnum(s[i]) && is_zw_carrier(s[i + 1]) && is_ascii_alnum(s[i + 2]) {
            1 + zw_interleaves(s, i + 2)
        } else {
            zw_interleaves(s, i + 1)
        }
    } else {
        0
    }
}

pub open spec fn spec_sig_zw_interleave(raw: Seq<char>) -> Option<SigV> {
    let n = zw_interleaves(raw, 0);
    if raw.len() >= 4 && n >= 2 {
        Some(
            (
                SignalKind::ZeroWidthInterleave,
                if n >= 8 {
                    45u8
                } else if n >= 4 {
                    32u8
                } else {
                    20u8
                },
                dec(n)
                    + " zero-width/bidi character(s) interleaved between letters (classic steganographic / homoglyph channel)"@,
            ),
        )
    } else {
        None
    }
}

proof fn lemma_zw_bound(s: Seq<char>, i: int)
    requires
        0 <= i <= s.len(),
    ensures
        zw_interleaves(s, i) + i <= s.len(),
    decreases s.len() - i,
{
    if i + 2 < s.len() {
        lemma_zw_bound(s, i + 1);
        lemma_zw_bound(s, i + 2);
    }
}

fn sig_zw_interleave(raw: &Vec<char>, policy: &SanitizePolicy) -> (r: Option<AnalysisSignal>)
    ensures
        r matches Some(s) ==> Some(s@) == spec_sig_zw_interleave(raw@),
        r is None ==> spec_sig_zw_interleave(raw@) is None,
{
    if raw.len() < 4 {
        return None;
    }
    let mut n: usize = 0;
    let mut i: usize = 0;
    proof {
        lemma_zw_bound(raw@, 0);
    }
    while i < raw.len() && raw.len() - i > 2
        invariant
            i <= raw@.len(),
            n + zw_interleaves(raw@, i as int) == zw_interleaves(raw@, 0),
            zw_interleaves(raw@, 0) <= raw@.len(),
            n <= i,
        decreases raw@.len() - i,
    {
        let a = raw[i];
        let b = raw[i + 1];
        let c = raw[i + 2];
        let b_zw = !is_base_allowed(b) && match classify(b, policy) {
            RiskCategory::ZeroWidthFormat | RiskCategory::BidiControls => true,
            _ => false,
        };
        if ascii_alnum(a) && b_zw && ascii_alnum(c) {
            n = n + 1;
            i = i + 2;
        } else {
            i = i + 1;
        }
    }
    if n >= 2 {
        let weight: u8 = if n >= 8 {
            45
        } else if n >= 4 {
            32
        } else {
            20
        };
        let mut d = String::new();
        push_dec(&mut d, n as u128);
        push_str(
            &mut d,
            " zero-width/bidi character(s) interleaved between letters (classic steganographic / homoglyph channel)",
        );
        let sig = AnalysisSignal { kind: SignalKind::ZeroWidthInterleave, weight, detail: d };
        assert(sig@.2 =~= spec_sig_zw_interleave(raw@).unwrap().2);
        Some(sig)
    } else {
        None
    }
}

// ── 11. encoded blobs ───────────────────────────────────────────────────

pub open spec fn is_b64_char(c: char) -> bool {
    is_ascii_alnum(c) || c == '+' || c == '/' || c == '='
}

/// (longest run so far, current run) of characters satisfying `f`.
pub open spec fn run_state(s: Seq<char>, f: spec_fn(char) -> bool) -> (nat, nat)
    decreases s.len(),
{
    if s.len() == 0 {
        (0, 0)
    } else {
        let (best, cur) = run_state(s.drop_last(), f);
        if f(s.last()) {
            let c2 = cur + 1;
            (if c2 > best {
                c2
            } else {
                best
            }, c2)
        } else {
            (best, 0)
        }
    }
}

/// Length of the longest run of consecutive characters satisfying `f`.
pub open spec fn longest_run_spec(s: Seq<char>, f: spec_fn(char) -> bool) -> nat {
    run_state(s, f).0
}

pub open spec fn b64_pred() -> spec_fn(char) -> bool {
    |c: char| is_b64_char(c)
}

pub open spec fn hex_pred() -> spec_fn(char) -> bool {
    |c: char| is_ascii_hex(c)
}

/// Which characters a run is made of.
#[derive(Clone, Copy)]
pub enum RunClass {
    Base64,
    Hex,
}

pub open spec fn run_pred(k: RunClass) -> spec_fn(char) -> bool {
    match k {
        RunClass::Base64 => b64_pred(),
        RunClass::Hex => hex_pred(),
    }
}

proof fn lemma_run_bound(s: Seq<char>, f: spec_fn(char) -> bool)
    ensures
        run_state(s, f).0 <= s.len(),
        run_state(s, f).1 <= run_state(s, f).0,
    decreases s.len(),
{
    if s.len() > 0 {
        lemma_run_bound(s.drop_last(), f);
    }
}

/// Length of the longest run of characters of the given class.
pub fn longest_run(s: &Vec<char>, class: RunClass) -> (n: usize)
    ensures
        n == longest_run_spec(s@, run_pred(class)),
{
    let ghost f = run_pred(class);
    let mut best: usize = 0;
    let mut cur: usize = 0;
    let mut i: usize = 0;
    while i < s.len()
        invariant
            i <= s@.len(),
            f == run_pred(class),
            (best as nat, cur as nat) == run_state(s@.take(i as int), f),
            best <= i,
        decreases s@.len() - i,
    {
        proof {
            assert(s@.take(i + 1).drop_last() =~= s@.take(i as int));
            lemma_run_bound(s@.take(i as int), f);
        }
        let c = s[i];
        let hit = match class {
            RunClass::Base64 => ascii_alnum(c) || c == '+' || c == '/' || c == '=',
            RunClass::Hex => ascii_hex(c),
        };
        if hit {
            cur = cur + 1;
            if cur > best {
                best = cur;
            }
        } else {
            cur = 0;
        }
        i = i + 1;
    }
    assert(s@.take(s@.len() as int) =~= s@);
    best
}

pub open spec fn spec_sig_encoded(cleaned: Seq<char>) -> Option<SigV> {
    let b64 = longest_run_spec(cleaned, b64_pred());
    let hex = longest_run_spec(cleaned, hex_pred());
    let (best, is_hex) = if hex >= 48 && hex > (if b64 >= 48 {
        b64
    } else {
        0
    }) {
        (hex, true)
    } else if b64 >= 48 {
        (b64, false)
    } else {
        (0nat, false)
    };
    if best >= 48 {
        Some(
            (
                SignalKind::EncodedBlob,
                if best >= 120 {
                    32u8
                } else if best >= 72 {
                    24u8
                } else {
                    16u8
                },
                "Long "@ + (if is_hex {
                    "hex"@
                } else {
                    "base64-like"@
                }) + " span of "@ + dec(best) + " characters in cleaned text"@,
            ),
        )
    } else {
        None
    }
}

fn sig_encoded(cleaned: &Vec<char>) -> (r: Option<AnalysisSignal>)
    ensures
        r matches Some(s) ==> Some(s@) == spec_sig_encoded(cleaned@),
        r is None ==> spec_sig_encoded(cleaned@) is None,
{
    let mut best: usize = 0;
    let mut kind: &str = "base64";
    let b64 = longest_run(cleaned, RunClass::Base64);
    if b64 >= 48 {
        best = b64;
        kind = "base64-like";
    }
    let hex = longest_run(cleaned, RunClass::Hex);
    if hex >= 48 && hex > best {
        best = hex;
        kind = "hex";
    }
    if best >= 48 {
        let weight: u8 = if best >= 120 {
            32
        } else if best >= 72 {
            24
        } else {
            16
        };
        let mut d = crate::text::owned("Long ");
        push_str(&mut d, kind);
        push_str(&mut d, " span of ");
        push_dec(&mut d, best as u128);
        push_str(&mut d, " characters in cleaned text");
        let sig = AnalysisSignal { kind: SignalKind::EncodedBlob, weight, detail: d };
        assert(sig@.2 =~= spec_sig_encoded(cleaned@).unwrap().2);
        Some(sig)
    } else {
        None
    }
}

// ── 12. injection phrases ───────────────────────────────────────────────

/// Compact, high-precision injection / jailbreak phrases (lowercase).
pub open spec fn injection_phrase_list() -> Seq<Seq<char>> {
    seq![
        "ignore previous instructions"@,
        "ignore all previous"@,
        "ignore all instructions"@,
        "disregard previous"@,
        "disregard all prior"@,
        "forget previous instructions"@,
        "forget your instructions"@,
        "you are now"@,
        "you are no longer"@,
        "do not follow"@,
        "override your"@,
        "system prompt"@,
        "reveal your system"@,
        "show your system prompt"@,
        "developer mode"@,
        "jailbreak"@,
        "dan mode"@,
        "act as if you have no restrictions"@,
        "without any restrictions"@,
        "bypass safety"@,
        "bypass your guidelines"@,
        "ignore your guidelines"@,
        "new instructions:"@,
        "from now on you will"@,
        "enter roleplay"@,
        "sudo mode"@,
        "admin override"@,
        "</system>"@,
        "<|system|>"@,
        "[system]"@,
        "### instruction"@,
        "### system"@,
    ]
}

fn injection_phrases() -> (v: Vec<&'static str>)
    ensures
        v@.map_values(|p: &str| p@) == injection_phrase_list(),
{
    let v = vec![
        "ignore previous instructions",
        "ignore all previous",
        "ignore all instructions",
        "disregard previous",
        "disregard all prior",
        "forget previous instructions",
        "forget your instructions",
        "you are now",
        "you are no longer",
        "do not follow",
        "override your",
        "system prompt",
        "reveal your system",
        "show your system prompt",
        "developer mode",
        "jailbreak",
        "dan mode",
        "act as if you have no restrictions",
        "without any restrictions",
        "bypass safety",
        "bypass your guidelines",
        "ignore your guidelines",
        "new instructions:",
        "from now on you will",
        "enter roleplay",
        "sudo mode",
        "admin override",
        "</system>",
        "<|system|>",
        "[system]",
        "### instruction",
        "### system",
    ];
    assert(v@.map_values(|p: &str| p@) =~= injection_phrase_list());
    v
}

/// Role / instruction-control markers (lowercase).
pub open spec fn role_marker_list() -> Seq<Seq<char>> {
    seq![
        "you must"@,
        "you will"@,
        "always obey"@,
        "obey me"@,
        "as an uncensored"@,
        "no moral"@,
        "no ethics"@,
        "ignore safety"@,
        "disable filter"@,
        "pretend you are"@,
        "roleplay as"@,
        "simulate a"@,
        "your new role"@,
        "instructions above"@,
        "instructions below"@,
        "begin your response"@,
        "output only"@,
        "do not mention"@,
        "do not warn"@,
        "hidden instruction"@,
        "tool call"@,
        "function call"@,
    ]
}

fn role_markers() -> (v: Vec<&'static str>)
    ensures
        v@.map_values(|p: &str| p@) == role_marker_list(),
{
    let v = vec![
        "you must",
        "you will",
        "always obey",
        "obey me",
        "as an uncensored",
        "no moral",
        "no ethics",
        "ignore safety",
        "disable filter",
        "pretend you are",
        "roleplay as",
        "simulate a",
        "your new role",
        "instructions above",
        "instructions below",
        "begin your response",
        "output only",
        "do not mention",
        "do not warn",
        "hidden instruction",
        "tool call",
        "function call",
    ];
    assert(v@.map_values(|p: &str| p@) =~= role_marker_list());
    v
}

/// The entries of `list` that occur in `hay`, in list order.
pub open spec fn phrases_in(hay: Seq<char>, list: Seq<Seq<char>>) -> Seq<Seq<char>>
    decreases list.len(),
{
    if list.len() == 0 {
        seq![]
    } else {
        let r = phrases_in(hay, list.drop_last());
        if contains_seq(hay, list.last()) {
            r.push(list.last())
        } else {
            r
        }
    }
}

/// `"p1", "p2", ...` (each entry quoted, separated by comma and space).
pub open spec fn quoted_join(s: Seq<Seq<char>>) -> Seq<char>
    decreases s.len(),
{
    if s.len() == 0 {
        seq![]
    } else if s.len() == 1 {
        "\""@ + s[0] + "\""@
    } else {
        quoted_join(s.drop_last()) + ", "@ + "\""@ + s.last() + "\""@
    }
}

proof fn lemma_phrases_len(hay: Seq<char>, list: Seq<Seq<char>>)
    ensures
        phrases_in(hay, list).len() <= list.len(),
    decreases list.len(),
{
    if list.len() > 0 {
        lemma_phrases_len(hay, list.drop_last());
    }
}

/// Entries of `list` (views of `words`) found in `hay`.
fn find_phrases(hay: &Vec<char>, words: &Vec<&'static str>) -> (found: Vec<&'static str>)
    ensures
        found@.map_values(|p: &str| p@) == phrases_in(hay@, words@.map_values(|p: &str| p@)),
{
    let ghost list = words@.map_values(|p: &str| p@);
    let mut found: Vec<&'static str> = Vec::new();
    let mut i: usize = 0;
    while i < words.len()
        invariant
            i <= words@.len(),
            list == words@.map_values(|p: &str| p@),
            found@.map_values(|p: &str| p@) == phrases_in(hay@, list.take(i as int)),
        decreases words@.len() - i,
    {
        proof {
            assert(list.take(i + 1).drop_last() =~= list.take(i as int));
            assert(list.take(i + 1).last() == words@[i as int]@);
        }
        let w = chars_of(words[i]);
        if contains_vec(hay, &w) {
            let ghost before = found@;
            found.push(words[i]);
            assert(found@.map_values(|p: &str| p@) =~= before.map_values(|p: &str| p@).push(
                words@[i as int]@,
            ));
        }
        i = i + 1;
    }
    assert(list.take(words@.len() as int) =~= list);
    found
}

fn sig_injection(lower: &Vec<char>) -> (r: Option<AnalysisSignal>)
    ensures
        r matches Some(s) ==> Some(s@) == spec_sig_injection_lower(lower@),
        r is None ==> spec_sig_injection_lower(lower@) is None,
{
    let phrases = injection_phrases();
    let hits = find_phrases(lower, &phrases);
    let ghost hv = hits@.map_values(|p: &str| p@);
    if hits.len() == 0 {
        return None;
    }
    let weight: u8 = if hits.len() >= 3 {
        40 + 10
    } else if hits.len() == 2 {
        40
    } else {
        32
    };
    let mut d = crate::text::owned("Cleaned text matches injection/jailbreak phrase(s): ");
    let ghost d0 = d@;
    let take = if hits.len() < 4 {
        hits.len()
    } else {
        4
    };
    let mut j: usize = 0;
    while j < take
        invariant
            j <= take,
            take <= hits@.len(),
            hv == hits@.map_values(|p: &str| p@),
            d@ == d0 + quoted_join(hv.take(j as int)),
        decreases take - j,
    {
        proof {
            assert(hv.take(j + 1).drop_last() =~= hv.take(j as int));
        }
        if j > 0 {
            push_str(&mut d, ", ");
        }
        push_str(&mut d, "\"");
        push_str(&mut d, hits[j]);
        push_str(&mut d, "\"");
        proof {
            if j == 0 {
                assert(hv.take(1)[0] == hv[0]);
            }
        }
        j = j + 1;
        assert(d@ =~= d0 + quoted_join(hv.take(j as int)));
    }
    let sig = AnalysisSignal { kind: SignalKind::InjectionPhrase, weight, detail: d };
    assert(sig@.2 =~= spec_sig_injection_lower(lower@).unwrap().2);
    Some(sig)
}

/// Injection signal over already-lowercased cleaned text.
pub open spec fn spec_sig_injection_lower(lower: Seq<char>) -> Option<SigV> {
    let hits = phrases_in(lower, injection_phrase_list());
    if hits.len() == 0 {
        None
    } else {
        Some(
            (
                SignalKind::InjectionPhrase,
                if hits.len() >= 3 {
                    50u8
                } else if hits.len() == 2 {
                    40u8
                } else {
                    32u8
                },
                "Cleaned text matches injection/jailbreak phrase(s): "@ + quoted_join(
                    hits.take(min_int(hits.len() as int, 4)),
                ),
            ),
        )
    }
}

// ── 13. role override density ───────────────────────────────────────────

pub open spec fn spec_sig_role_override_lower(lower: Seq<char>) -> Option<SigV> {
    let n = phrases_in(lower, role_marker_list()).len();
    if lower.len() >= 40 && n >= 3 {
        Some(
            (
                SignalKind::RoleOverrideDensity,
                if n >= 5 {
                    28u8
                } else {
                    18u8
                },
                dec(n) + " instruction-override / role-control markers in cleaned text"@,
            ),
        )
    } else {
        None
    }
}

fn sig_role_override(lower: &Vec<char>) -> (r: Option<AnalysisSignal>)
    ensures
        r matches Some(s) ==> Some(s@) == spec_sig_role_override_lower(lower@),
        r is None ==> spec_sig_role_override_lower(lower@) is None,
{
    if lower.len() < 40 {
        return None;
    }
    let markers = role_markers();
    let found = find_phrases(lower, &markers);
    let n = found.len();
    proof {
        lemma_phrases_len(lower@, role_marker_list());
        assert(found@.map_values(|p: &str| p@).len() == n);
    }
    if n >= 3 {
        let mut d = String::new();
        push_dec(&mut d, n as u128);
        push_str(&mut d, " instruction-override / role-control markers in cleaned text");
        let sig = AnalysisSignal {
            kind: SignalKind::RoleOverrideDensity,
            weight: if n >= 5 {
                28
            } else {
                18
            },
            detail: d,
        };
        assert(sig@.2 =~= spec_sig_role_override_lower(lower@).unwrap().2);
        Some(sig)
    } else {
        None
    }
}

// ── 15. symbol / digit skew ─────────────────────────────────────────────

pub open spec fn spec_sig_symbol_skew(cleaned: Seq<char>) -> Option<SigV> {
    let letters = count_where(cleaned, alpha_pred());
    let digits = count_where(cleaned, digit_pred());
    let symbols = count_where(cleaned, symbol_pred());
    let total = max1(letters + digits + symbols);
    if total >= 40 && 100 * (digits + symbols) >= 55 * total && letters >= 10 {
        Some(
            (
                SignalKind::SymbolDigitSkew,
                16u8,
                "Cleaned text is "@ + dec(
                    round_div((100 * (digits + symbols)) as int, total as int) as nat,
                ) + "% digits/symbols (high for natural-language prompts)"@,
            ),
        )
    } else {
        None
    }
}

fn sig_symbol_skew(cleaned: &Vec<char>) -> (r: Option<AnalysisSignal>)
    ensures
        r matches Some(s) ==> Some(s@) == spec_sig_symbol_skew(cleaned@),
        r is None ==> spec_sig_symbol_skew(cleaned@) is None,
{
    let mut letters: usize = 0;
    let mut digits: usize = 0;
    let mut symbols: usize = 0;
    let mut i: usize = 0;
    while i < cleaned.len()
        invariant
            i <= cleaned@.len(),
            letters == count_where(cleaned@.take(i as int), alpha_pred()),
            digits == count_where(cleaned@.take(i as int), digit_pred()),
            symbols == count_where(cleaned@.take(i as int), symbol_pred()),
            letters + digits + symbols <= i,
        decreases cleaned@.len() - i,
    {
        assert(cleaned@.take(i + 1).drop_last() =~= cleaned@.take(i as int));
        let c = cleaned[i];
        if ascii_alpha(c) {
            letters = letters + 1;
        } else if ascii_digit(c) {
            digits = digits + 1;
        } else if (c as u32) < 128 && !char_is_whitespace(c) {
            symbols = symbols + 1;
        }
        i = i + 1;
    }
    assert(cleaned@.take(cleaned@.len() as int) =~= cleaned@);
    let t = letters + digits + symbols;
    let total: u128 = if t == 0 {
        1
    } else {
        t as u128
    };
    let nl = (digits + symbols) as u128;
    assert(nl <= 0xffff_ffff_ffff_ffff && total <= 0xffff_ffff_ffff_ffff);
    if total >= 40 && 100 * nl >= 55 * total && letters >= 10 {
        let pct = round_div_exec(100 * nl, total);
        let mut d = crate::text::owned("Cleaned text is ");
        push_dec(&mut d, pct as u128);
        push_str(&mut d, "% digits/symbols (high for natural-language prompts)");
        let sig = AnalysisSignal { kind: SignalKind::SymbolDigitSkew, weight: 16, detail: d };
        assert(sig@.2 =~= spec_sig_symbol_skew(cleaned@).unwrap().2);
        Some(sig)
    } else {
        None
    }
}


// ── aggregate ────────────────────────────────────────────────────────────

/// View of an optional signal as a list of at most one signal.
pub open spec fn opt_sig_view(o: Option<AnalysisSignal>) -> Seq<SigV> {
    match o {
        Some(s) => seq![s@],
        None => seq![],
    }
}

pub(crate) fn push_opt(v: &mut Vec<AnalysisSignal>, o: Option<AnalysisSignal>)
    ensures
        sig_views(final(v)@) == sig_views(old(v)@) + opt_sig_view(o),
{
    match o {
        Some(s) => {
            v.push(s);
            assert(sig_views(v@) =~= sig_views(old(v)@) + opt_sig_view(o));
        },
        None => {
            assert(sig_views(v@) =~= sig_views(old(v)@) + opt_sig_view(o));
        },
    }
}

pub(crate) proof fn lemma_opt_view(o: Option<AnalysisSignal>, sv: Option<SigV>)
    requires
        o matches Some(s) ==> Some(s@) == sv,
        o is None ==> sv is None,
    ensures
        opt_sig_view(o) == opt_seq(sv),
{
}

/// Every text signal, in the order they are computed. The entropy signal
/// is measured outside the library (it needs floating point) and added with
/// `add_entropy`.
pub open spec fn spec_text_signals(
    raw: Seq<char>,
    cleaned: Seq<char>,
    hits: Seq<CategoryHit>,
) -> Seq<SigV> {
    let sec = sec_removed(hits);
    let lower = lower_seq(cleaned);
    opt_seq(spec_sig_security_density_n(raw.len(), sec)) + opt_seq(
        spec_sig_strip_reveals(raw.len(), cleaned, sec),
    ) + opt_seq(spec_sig_zw_interleave(raw)) + opt_seq(spec_sig_whitespace(raw, cleaned)) + opt_seq(
        spec_sig_trailing(cleaned),
    ) + opt_seq(spec_sig_dual(raw, cleaned)) + opt_seq(spec_sig_compress(encode_utf8(cleaned)))
        + opt_seq(spec_sig_lsb(cleaned)) + spec_token_signals(cleaned) + opt_seq(
        spec_sig_encoded(cleaned),
    ) + opt_seq(spec_sig_injection_lower(lower)) + opt_seq(spec_sig_role_override_lower(lower))
        + opt_seq(spec_sig_letters(cleaned)) + opt_seq(spec_sig_symbol_skew(cleaned))
}

/// Residual-risk report for one sanitize pass.
pub open spec fn spec_analyze(
    raw: Seq<char>,
    cleaned: Seq<char>,
    hits: Seq<CategoryHit>,
    policy: SanitizePolicy,
) -> ReportV {
    if !policy.analyze_enabled {
        empty_report()
    } else {
        report_of(spec_text_signals(raw, cleaned, hits))
    }
}

/// Run the full analysis on raw input, cleaned output (as characters and
/// as UTF-8 bytes), and strip hits.
pub(crate) fn analyze_chars(
    raw: &Vec<char>,
    cleaned: &Vec<char>,
    cleaned_bytes: &[u8],
    hits: &[CategoryHit],
    policy: &SanitizePolicy,
) -> (r: AnalysisReport)
    requires
        policy.analyze_enabled ==> sec_removed(hits@) <= usize::MAX,
        cleaned_bytes@ == encode_utf8(cleaned@),
    ensures
        r@ == spec_analyze(raw@, cleaned@, hits@, *policy),
{
    if !policy.analyze_enabled {
        return AnalysisReport::empty();
    }
    let sec = count_sec_removed(hits);
    let lower = crate::text::lower_vec(cleaned);
    let mut signals: Vec<AnalysisSignal> = Vec::new();
    let ghost s0 = sig_views(signals@);
    let o1 = sig_security_density(raw.len(), sec);
    push_opt(&mut signals, o1);
    let o2 = sig_strip_reveals(raw.len(), cleaned, sec);
    push_opt(&mut signals, o2);
    let o3 = sig_zw_interleave(raw, policy);
    push_opt(&mut signals, o3);
    let o4 = sig_whitespace(raw, cleaned);
    push_opt(&mut signals, o4);
    let o5 = sig_trailing(cleaned);
    push_opt(&mut signals, o5);
    let o6 = sig_dual(raw, cleaned, policy);
    push_opt(&mut signals, o6);
    let o7 = sig_compress(cleaned_bytes);
    push_opt(&mut signals, o7);
    let o8 = sig_lsb(cleaned);
    push_opt(&mut signals, o8);
    let ghost before_tokens = sig_views(signals@);
    let mut toks = token_signals(cleaned);
    let ghost tv = sig_views(toks@);
    signals.append(&mut toks);
    assert(sig_views(signals@) =~= before_tokens + tv);
    let o9 = sig_encoded(cleaned);
    push_opt(&mut signals, o9);
    let o10 = sig_injection(&lower);
    push_opt(&mut signals, o10);
    let o11 = sig_role_override(&lower);
    push_opt(&mut signals, o11);
    let o12 = sig_letters(cleaned);
    push_opt(&mut signals, o12);
    let o13 = sig_symbol_skew(cleaned);
    push_opt(&mut signals, o13);
    proof {
        lemma_opt_view(o1, spec_sig_security_density_n(raw@.len(), sec as nat));
        lemma_opt_view(o2, spec_sig_strip_reveals(raw@.len(), cleaned@, sec as nat));
        lemma_opt_view(o3, spec_sig_zw_interleave(raw@));
        lemma_opt_view(o4, spec_sig_whitespace(raw@, cleaned@));
        lemma_opt_view(o5, spec_sig_trailing(cleaned@));
        lemma_opt_view(o6, spec_sig_dual(raw@, cleaned@));
        lemma_opt_view(o7, spec_sig_compress(cleaned_bytes@));
        lemma_opt_view(o8, spec_sig_lsb(cleaned@));
        lemma_opt_view(o9, spec_sig_encoded(cleaned@));
        lemma_opt_view(o10, spec_sig_injection_lower(lower@));
        lemma_opt_view(o11, spec_sig_role_override_lower(lower@));
        lemma_opt_view(o12, spec_sig_letters(cleaned@));
        lemma_opt_view(o13, spec_sig_symbol_skew(cleaned@));
        assert(s0 =~= seq![]);
        assert(sig_views(signals@) =~= spec_text_signals(raw@, cleaned@, hits@));
    }
    finish_report(signals)
}

/// Run the full analysis on raw input, cleaned output, and strip hits.
pub fn analyze(raw: &str, cleaned: &str, hits: &[CategoryHit], policy: &SanitizePolicy) -> (r:
    AnalysisReport)
    requires
        policy.analyze_enabled ==> sec_removed(hits@) <= usize::MAX,
    ensures
        r@ == spec_analyze(raw@, cleaned@, hits@, *policy),
{
    analyze_chars(&chars_of(raw), &chars_of(cleaned), cleaned.as_bytes(), hits, policy)
}

} // verus!
