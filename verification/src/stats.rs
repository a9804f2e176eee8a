//! Layout and statistics signals on the cleaned text: whitespace bit
//! channels, line-end blanks, printable-byte parity, token lengths,
//! compressibility, letter distribution and the visible/cleaned divergence.
//!
//! Every threshold of the form `x / y >= c` is compared exactly in integer
//! arithmetic, and decimals shown in a detail are rounded half up.
use vstd::prelude::*;

use crate::analyze::{alpha_pred, count_where, AnalysisSignal, SignalKind, SigV};
use crate::category::{spec_severity, Severity};
use crate::classify::{classify, is_base_allowed, spec_classify, spec_is_base_allowed};
use crate::policy::SanitizePolicy;
use crate::wide::{wide, wide_add, wide_isqrt, wide_lt, wide_mul, wide_round_div, wide_scale, wide_sub};
use crate::text::{
    ascii_alpha, ascii_graphic, ascii_punct, char_is_whitespace, dec, fixed, is_ascii_alpha,
    is_ascii_graphic, is_ascii_punct, lower, lower_char, trim, trim_vec,
    push_dec, push_fixed, push_str, round_div, round_div_exec, unicode_white_space,
};

verus! {

pub open spec fn min_nat(a: nat, b: nat) -> nat {
    if a <= b {
        a
    } else {
        b
    }
}

// ── whitespace bit channel ───────────────────────────────────────────────

/// Scan state over space runs: (current run, runs of one space, runs of two,
/// runs of three or four). Runs of five or more are not counted.
pub type SpaceTally = (nat, nat, nat, nat);

pub open spec fn close_run(t: SpaceTally) -> SpaceTally {
    if t.0 == 1 {
        (0, t.1 + 1, t.2, t.3)
    } else if t.0 == 2 {
        (0, t.1, t.2 + 1, t.3)
    } else if t.0 == 3 || t.0 == 4 {
        (0, t.1, t.2, t.3 + 1)
    } else {
        (0, t.1, t.2, t.3)
    }
}

pub open spec fn space_scan(s: Seq<char>) -> SpaceTally
    decreases s.len(),
{
    if s.len() == 0 {
        (0, 0, 0, 0)
    } else {
        let t = space_scan(s.drop_last());
        if s.last() == ' ' {
            (t.0 + 1, t.1, t.2, t.3)
        } else {
            close_run(t)
        }
    }
}

/// Counts of maximal runs of ASCII spaces of length 1, 2 and 3-4.
pub open spec fn space_runs(s: Seq<char>) -> SpaceTally {
    close_run(space_scan(s))
}

/// Alternating single and double spaces used as a bit channel. The cleaned
/// text is scanned when it has at least 8 characters, the raw one otherwise.
pub open spec fn spec_sig_whitespace(raw: Seq<char>, cleaned: Seq<char>) -> Option<SigV> {
    let text = if cleaned.len() >= 8 {
        cleaned
    } else {
        raw
    };
    let t = space_runs(text);
    let runs = t.1 + t.2 + t.3;
    let mixed = min_nat(t.1, t.2);
    if runs >= 8 && mixed >= 6 && t.3 <= mixed / 3 && 20 * mixed >= 7 * runs {
        Some(
            (
                SignalKind::WhitespaceBitChannel,
                28u8,
                "Whitespace run pattern looks channel-like ("@ + dec(t.1) + " single-space, "@
                    + dec(t.2) + " double-space runs) — possible space steganography"@,
            ),
        )
    } else {
        None
    }
}

proof fn lemma_space_bound(s: Seq<char>)
    ensures
        space_scan(s).0 + space_scan(s).1 + space_scan(s).2 + space_scan(s).3 <= s.len(),
    decreases s.len(),
{
    if s.len() > 0 {
        lemma_space_bound(s.drop_last());
    }
}

pub(crate) fn sig_whitespace(raw: &Vec<char>, cleaned: &Vec<char>) -> (r: Option<AnalysisSignal>)
    ensures
        r matches Some(s) ==> Some(s@) == spec_sig_whitespace(raw@, cleaned@),
        r is None ==> spec_sig_whitespace(raw@, cleaned@) is None,
{
    let text = if cleaned.len() >= 8 {
        cleaned
    } else {
        raw
    };
    let mut cur: usize = 0;
    let mut ones: usize = 0;
    let mut twos: usize = 0;
    let mut more: usize = 0;
    let mut i: usize = 0;
    while i < text.len()
        invariant
            i <= text@.len(),
            (cur as nat, ones as nat, twos as nat, more as nat) == space_scan(text@.take(i as int)),
            cur + ones + twos + more <= i,
        decreases text@.len() - i,
    {
        proof {
            assert(text@.take(i + 1).drop_last() =~= text@.take(i as int));
        }
        if text[i] == ' ' {
            cur = cur + 1;
        } else {
            if cur == 1 {
                ones = ones + 1;
            } else if cur == 2 {
                twos = twos + 1;
            } else if cur == 3 || cur == 4 {
                more = more + 1;
            }
            cur = 0;
        }
        i = i + 1;
    }
    assert(text@.take(text@.len() as int) =~= text@);
    if cur == 1 {
        ones = ones + 1;
    } else if cur == 2 {
        twos = twos + 1;
    } else if cur == 3 || cur == 4 {
        more = more + 1;
    }
    let runs = ones + twos + more;
    let mixed = if ones <= twos {
        ones
    } else {
        twos
    };
    if runs >= 8 && mixed >= 6 && more <= mixed / 3 && 20 * (mixed as u128) >= 7 * (runs as u128) {
        let mut d = crate::text::owned("Whitespace run pattern looks channel-like (");
        push_dec(&mut d, ones as u128);
        push_str(&mut d, " single-space, ");
        push_dec(&mut d, twos as u128);
        push_str(&mut d, " double-space runs) — possible space steganography");
        let sig = AnalysisSignal { kind: SignalKind::WhitespaceBitChannel, weight: 28, detail: d };
        assert(sig@.2 =~= spec_sig_whitespace(raw@, cleaned@).unwrap().2);
        Some(sig)
    } else {
        None
    }
}

// ── trailing whitespace channel ──────────────────────────────────────────

pub open spec fn is_blank(c: char) -> bool {
    c == ' ' || c == '\t'
}

/// Scan state over `\n`-separated lines: (non-empty lines, lines ending in
/// blanks, trailing blank characters, current line length, current run of
/// trailing blanks).
pub type LineTally = (nat, nat, nat, nat, nat);

pub open spec fn close_line(t: LineTally) -> LineTally {
    if t.3 == 0 {
        (t.0, t.1, t.2, 0, 0)
    } else if t.4 > 0 {
        (t.0 + 1, t.1 + 1, t.2 + t.4, 0, 0)
    } else {
        (t.0 + 1, t.1, t.2, 0, 0)
    }
}

pub open spec fn line_scan(s: Seq<char>) -> LineTally
    decreases s.len(),
{
    if s.len() == 0 {
        (0, 0, 0, 0, 0)
    } else {
        let t = line_scan(s.drop_last());
        let c = s.last();
        if c == '\n' {
            close_line(t)
        } else if is_blank(c) {
            (t.0, t.1, t.2, t.3 + 1, t.4 + 1)
        } else {
            (t.0, t.1, t.2, t.3 + 1, 0)
        }
    }
}

/// (non-empty lines, lines with trailing spaces or tabs, trailing characters).
pub open spec fn line_tally(s: Seq<char>) -> LineTally {
    close_line(line_scan(s))
}

/// Trailing spaces or tabs on many lines: a line-end bit channel.
pub open spec fn spec_sig_trailing(cleaned: Seq<char>) -> Option<SigV> {
    let t = line_tally(cleaned);
    if t.0 >= 6 && t.1 >= 4 && 5 * t.1 >= 2 * t.0 && t.2 >= 8 {
        Some(
            (
                SignalKind::TrailingWhitespaceChannel,
                if 10 * t.1 >= 7 * t.0 {
                    30u8
                } else {
                    20u8
                },
                dec(t.1) + "/"@ + dec(t.0) + " non-empty lines have trailing whitespace ("@
                    + dec(t.2) + " trail chars) — possible line-end steganography"@,
            ),
        )
    } else {
        None
    }
}

proof fn lemma_line_bound(s: Seq<char>)
    ensures
        line_scan(s).0 + line_scan(s).3 <= s.len(),
        line_scan(s).1 <= line_scan(s).0,
        line_scan(s).2 + line_scan(s).3 <= s.len(),
        line_scan(s).4 <= line_scan(s).3,
    decreases s.len(),
{
    if s.len() > 0 {
        lemma_line_bound(s.drop_last());
    }
}

pub(crate) fn sig_trailing(cleaned: &Vec<char>) -> (r: Option<AnalysisSignal>)
    ensures
        r matches Some(s) ==> Some(s@) == spec_sig_trailing(cleaned@),
        r is None ==> spec_sig_trailing(cleaned@) is None,
{
    let mut lines: usize = 0;
    let mut trailed: usize = 0;
    let mut bits: usize = 0;
    let mut len: usize = 0;
    let mut tail: usize = 0;
    let mut i: usize = 0;
    while i < cleaned.len()
        invariant
            i <= cleaned@.len(),
            (lines as nat, trailed as nat, bits as nat, len as nat, tail as nat) == line_scan(
                cleaned@.take(i as int),
            ),
            lines + len <= i,
            bits + len <= i,
            trailed <= lines,
            tail <= len,
        decreases cleaned@.len() - i,
    {
        proof {
            assert(cleaned@.take(i + 1).drop_last() =~= cleaned@.take(i as int));
        }
        let c = cleaned[i];
        if c == '\n' {
            if len > 0 {
                lines = lines + 1;
                if tail > 0 {
                    trailed = trailed + 1;
                    bits = bits + tail;
                }
            }
            len = 0;
            tail = 0;
        } else if c == ' ' || c == '\t' {
            len = len + 1;
            tail = tail + 1;
        } else {
            len = len + 1;
            tail = 0;
        }
        i = i + 1;
    }
    assert(cleaned@.take(cleaned@.len() as int) =~= cleaned@);
    if len > 0 {
        lines = lines + 1;
        if tail > 0 {
            trailed = trailed + 1;
            bits = bits + tail;
        }
    }
    let l = lines as u128;
    let t = trailed as u128;
    if lines >= 6 && trailed >= 4 && 5 * t >= 2 * l && bits >= 8 {
        let weight: u8 = if 10 * t >= 7 * l {
            30
        } else {
            20
        };
        let mut d = String::new();
        push_dec(&mut d, t);
        push_str(&mut d, "/");
        push_dec(&mut d, l);
        push_str(&mut d, " non-empty lines have trailing whitespace (");
        push_dec(&mut d, bits as u128);
        push_str(&mut d, " trail chars) — possible line-end steganography");
        let sig = AnalysisSignal { kind: SignalKind::TrailingWhitespaceChannel, weight, detail: d };
        assert(sig@.2 =~= spec_sig_trailing(cleaned@).unwrap().2);
        Some(sig)
    } else {
        None
    }
}

// ── printable-byte parity ────────────────────────────────────────────────

/// Printable ASCII characters. In UTF-8 these are exactly the printable
/// ASCII bytes, since every byte of a longer encoding is 0x80 or above.
pub open spec fn graphic_pred() -> spec_fn(char) -> bool {
    |c: char| is_ascii_graphic(c)
}

/// Printable ASCII characters whose lowest bit is set.
pub open spec fn odd_graphic_pred() -> spec_fn(char) -> bool {
    |c: char| is_ascii_graphic(c) && (c as u32) % 2 == 1
}

/// Parity of the printable bytes: suspiciously fair (`chi^2 = (ones -
/// zeros)^2 / n < 0.5` on at least 200 bytes with 48-52% ones) or extremely
/// biased (ones outside 35-65%), on at least 80 printable bytes.
pub open spec fn spec_sig_lsb(cleaned: Seq<char>) -> Option<SigV> {
    let n = count_where(cleaned, graphic_pred());
    let ones = count_where(cleaned, odd_graphic_pred());
    let dz = ones - (n - ones);
    let sq = dz * dz;
    if n < 80 {
        None
    } else if 25 * ones >= 12 * n && 25 * ones <= 13 * n && n >= 200 && 2 * sq < n {
        Some(
            (
                SignalKind::LsbBias,
                22u8,
                "Printable-byte LSBs are suspiciously fair ("@ + dec(ones) + "/"@ + dec(n)
                    + " ones, χ²="@ + fixed(round_div(100 * sq, n as int) as nat, 2)
                    + ") — possible packed/stego bit stream"@,
            ),
        )
    } else if 20 * ones < 7 * n || 20 * ones > 13 * n {
        Some(
            (
                SignalKind::LsbBias,
                14u8,
                "Printable-byte LSB bias extreme (p1="@ + fixed(
                    round_div((100 * ones) as int, n as int) as nat,
                    2,
                ) + ") — atypical for natural text"@,
            ),
        )
    } else {
        None
    }
}

pub(crate) fn sig_lsb(cleaned: &Vec<char>) -> (r: Option<AnalysisSignal>)
    ensures
        r matches Some(s) ==> Some(s@) == spec_sig_lsb(cleaned@),
        r is None ==> spec_sig_lsb(cleaned@) is None,
{
    let mut n: usize = 0;
    let mut ones: usize = 0;
    let mut i: usize = 0;
    while i < cleaned.len()
        invariant
            i <= cleaned@.len(),
            n == count_where(cleaned@.take(i as int), graphic_pred()),
            ones == count_where(cleaned@.take(i as int), odd_graphic_pred()),
            ones <= n <= i,
        decreases cleaned@.len() - i,
    {
        proof {
            assert(cleaned@.take(i + 1).drop_last() =~= cleaned@.take(i as int));
        }
        let c = cleaned[i];
        if ascii_graphic(c) {
            n = n + 1;
            if (c as u32) % 2 == 1 {
                ones = ones + 1;
            }
        }
        i = i + 1;
    }
    assert(cleaned@.take(cleaned@.len() as int) =~= cleaned@);
    if n < 80 {
        return None;
    }
    let zeros = n - ones;
    let nn = n as u128;
    let o = ones as u128;
    let dz: u128 = if ones >= zeros {
        (ones - zeros) as u128
    } else {
        (zeros - ones) as u128
    };
    let sq: u128 = if dz < 0x1_0000_0000 {
        assert(dz * dz < 0x1_0000_0000 * 0x1_0000_0000) by (nonlinear_arith)
            requires
                dz < 0x1_0000_0000,
        ;
        dz * dz
    } else {
        0
    };
    let fair = 25 * o >= 12 * nn && 25 * o <= 13 * nn && n >= 200 && dz < 0x1_0000_0000 && 2 * sq
        < nn;
    proof {
        let sdz = ones - (n - ones);
        assert(sdz * sdz == dz * dz) by (nonlinear_arith)
            requires
                sdz == dz || sdz == -dz,
        ;
        if dz >= 0x1_0000_0000 {
            assert(dz * dz >= 0x1_0000_0000 * 0x1_0000_0000) by (nonlinear_arith)
                requires
                    dz >= 0x1_0000_0000,
            ;
        }
    }
    if fair {
        let chi100 = round_div_exec(100 * sq, nn);
        let mut d = crate::text::owned("Printable-byte LSBs are suspiciously fair (");
        push_dec(&mut d, o);
        push_str(&mut d, "/");
        push_dec(&mut d, nn);
        push_str(&mut d, " ones, χ²=");
        push_fixed(&mut d, chi100, 2);
        push_str(&mut d, ") — possible packed/stego bit stream");
        let sig = AnalysisSignal { kind: SignalKind::LsbBias, weight: 22, detail: d };
        assert(sig@.2 =~= spec_sig_lsb(cleaned@).unwrap().2);
        Some(sig)
    } else if 20 * o < 7 * nn || 20 * o > 13 * nn {
        let p100 = round_div_exec(100 * o, nn);
        let mut d = crate::text::owned("Printable-byte LSB bias extreme (p1=");
        push_fixed(&mut d, p100, 2);
        push_str(&mut d, ") — atypical for natural text");
        let sig = AnalysisSignal { kind: SignalKind::LsbBias, weight: 14, detail: d };
        assert(sig@.2 =~= spec_sig_lsb(cleaned@).unwrap().2);
        Some(sig)
    } else {
        None
    }
}

// ── token lengths ────────────────────────────────────────────────────────

/// Token separators: Unicode white space and ASCII punctuation.
pub open spec fn is_token_sep(c: char) -> bool {
    unicode_white_space(c) || is_ascii_punct(c)
}

/// Scan state over tokens: (tokens, token characters, sum of squared
/// token lengths, length of the current token).
pub type TokTally = (nat, nat, nat, nat);

pub open spec fn close_tok(t: TokTally) -> TokTally {
    if t.3 > 0 {
        (t.0 + 1, t.1 + t.3, t.2 + t.3 * t.3, 0)
    } else {
        t
    }
}

pub open spec fn tok_scan(s: Seq<char>) -> TokTally
    decreases s.len(),
{
    if s.len() == 0 {
        (0, 0, 0, 0)
    } else {
        let t = tok_scan(s.drop_last());
        if is_token_sep(s.last()) {
            close_tok(t)
        } else {
            (t.0, t.1, t.2, t.3 + 1)
        }
    }
}

/// (number of tokens, total token length, sum of squared token lengths).
pub open spec fn tok_tally(s: Seq<char>) -> TokTally {
    close_tok(tok_scan(s))
}

/// `r` is the integer square root of `x`.
pub open spec fn is_isqrt(x: nat, r: nat) -> bool {
    r * r <= x && x < (r + 1) * (r + 1)
}

/// Integer square root.
pub open spec fn isqrt(x: nat) -> nat {
    choose|r: nat| #[trigger] is_isqrt(x, r)
}

/// Standard deviation of the token lengths times 100, rounded to nearest
/// (exact halves to even), from `d = T*Q - S^2` (the variance is `d / T^2`,
/// so the value is `sqrt(40000 * d) / (2 * T)`).
pub open spec fn std_centi(d: nat, t: nat) -> nat {
    let r = isqrt(40000 * d);
    if r * r == 40000 * d {
        round_div(r as int, (2 * t) as int) as nat
    } else {
        (r + t) / (2 * t)
    }
}

/// Token length statistics: uniform lengths (standard deviation below 1.2
/// with mean above 2, on at least 40 tokens) and an extreme mean (24 or
/// more); at least 20 tokens are needed.
pub open spec fn spec_token_signals(cleaned: Seq<char>) -> Seq<SigV> {
    let t = tok_tally(cleaned);
    let n = t.0;
    let s = t.1;
    let q = t.2;
    if n < 20 {
        seq![]
    } else {
        token_uniform_sig(n, s, q) + token_long_sig(n, s)
    }
}

/// Mean token length times ten, rounded half up.
pub open spec fn mean10(n: nat, s: nat) -> nat {
    round_div((10 * s) as int, n as int) as nat
}

pub open spec fn token_uniform_sig(n: nat, s: nat, q: nat) -> Seq<SigV> {
    let d = n * q - s * s;
    if n >= 40 && 25 * d < 36 * (n * n) && s > 2 * n {
        seq![
            (
                SignalKind::TokenLengthAnomaly,
                16u8,
                "Token lengths unusually uniform (mean="@ + fixed(mean10(n, s), 1) + ", std="@
                    + fixed(std_centi(d as nat, n), 2) + ") — atypical prose"@,
            ),
        ]
    } else {
        seq![]
    }
}

pub open spec fn token_long_sig(n: nat, s: nat) -> Seq<SigV> {
    if s >= 24 * n {
        seq![
            (
                SignalKind::TokenLengthAnomaly,
                20u8,
                "Mean token length "@ + fixed(mean10(n, s), 1)
                    + " is extreme — packed/encoded-like tokens"@,
            ),
        ]
    } else {
        seq![]
    }
}

proof fn lemma_close_tok(n: int, s: int, q: int, x: int)
    requires
        0 <= n <= s,
        0 <= q <= s * s,
        n * q >= s * s,
        x >= 1,
    ensures
        (n + 1) * (q + x * x) >= (s + x) * (s + x),
        q + x * x <= (s + x) * (s + x),
{
    assert(q + x * x <= (s + x) * (s + x)) by (nonlinear_arith)
        requires
            0 <= q <= s * s,
            x >= 1,
            s >= 0,
    ;
    if n == 0 {
        assert(s * s <= 0);
        assert(s == 0) by (nonlinear_arith)
            requires
                s * s <= 0,
                s >= 0,
        ;
        assert(q == 0);
    } else {
        assert(n * (n * x * x + q - 2 * s * x) == (n * x - s) * (n * x - s) + (n * q - s * s))
            by (nonlinear_arith);
        assert((n * x - s) * (n * x - s) >= 0) by (nonlinear_arith);
        assert(n * x * x + q - 2 * s * x >= 0) by (nonlinear_arith)
            requires
                n * (n * x * x + q - 2 * s * x) >= 0,
                n > 0,
        ;
        assert((n + 1) * (q + x * x) - (s + x) * (s + x) == (n * q - s * s) + (n * x * x + q - 2
            * s * x)) by (nonlinear_arith);
    }
}

proof fn lemma_tok_bound(s: Seq<char>)
    ensures
        tok_scan(s).0 <= tok_scan(s).1,
        tok_scan(s).1 + tok_scan(s).3 <= s.len(),
        tok_scan(s).2 <= tok_scan(s).1 * tok_scan(s).1,
        tok_scan(s).0 * tok_scan(s).2 >= tok_scan(s).1 * tok_scan(s).1,
    decreases s.len(),
{
    if s.len() > 0 {
        lemma_tok_bound(s.drop_last());
        let t = tok_scan(s.drop_last());
        if is_token_sep(s.last()) && t.3 > 0 {
            lemma_close_tok(t.0 as int, t.1 as int, t.2 as int, t.3 as int);
        }
    }
}

proof fn lemma_isqrt(x: nat, r: nat)
    requires
        r * r <= x,
        x < (r + 1) * (r + 1),
    ensures
        isqrt(x) == r,
{
    assert(is_isqrt(x, r));
    let c = isqrt(x);
    assert(is_isqrt(x, c));
    if c < r {
        assert((c + 1) * (c + 1) <= r * r) by (nonlinear_arith)
            requires
                c + 1 <= r,
        ;
    } else if c > r {
        assert((r + 1) * (r + 1) <= c * c) by (nonlinear_arith)
            requires
                r + 1 <= c,
        ;
    }
}

proof fn lemma_sq_bound(x: int)
    requires
        0 <= x <= usize::MAX,
    ensures
        x * x < 0x1_0000_0000_0000_0000 * 0x1_0000_0000_0000_0000,
{
    assert(x * x < 0x1_0000_0000_0000_0000 * 0x1_0000_0000_0000_0000) by (nonlinear_arith)
        requires
            0 <= x < 0x1_0000_0000_0000_0000,
    ;
}

pub(crate) fn token_signals(cleaned: &Vec<char>) -> (r: Vec<AnalysisSignal>)
    ensures
        crate::analyze::sig_views(r@) == spec_token_signals(cleaned@),
{
    let mut out: Vec<AnalysisSignal> = Vec::new();
    let mut n: u128 = 0;
    let mut s: u128 = 0;
    let mut q: u128 = 0;
    let mut cur: u128 = 0;
    let mut i: usize = 0;
    let _ = cleaned.len();
    while i < cleaned.len()
        invariant
            i <= cleaned@.len() <= usize::MAX,
            (n as nat, s as nat, q as nat, cur as nat) == tok_scan(cleaned@.take(i as int)),
        decreases cleaned@.len() - i,
    {
        proof {
            assert(cleaned@.take(i + 1).drop_last() =~= cleaned@.take(i as int));
            lemma_tok_bound(cleaned@.take(i as int));
            lemma_sq_bound(s + cur);
            assert(q + cur * cur <= (s + cur) * (s + cur)) by (nonlinear_arith)
                requires
                    q <= s * s,
                    s >= 0,
                    cur >= 0,
            ;
        }
        let c = cleaned[i];
        if char_is_whitespace(c) || ascii_punct(c) {
            if cur > 0 {
                n = n + 1;
                s = s + cur;
                q = q + cur * cur;
                cur = 0;
            }
        } else {
            cur = cur + 1;
        }
        i = i + 1;
    }
    assert(cleaned@.take(cleaned@.len() as int) =~= cleaned@);
    proof {
        lemma_tok_bound(cleaned@);
        lemma_sq_bound(s + cur);
        assert(q + cur * cur <= (s + cur) * (s + cur)) by (nonlinear_arith)
            requires
                q <= s * s,
                s >= 0,
                cur >= 0,
        ;
    }
    if cur > 0 {
        proof {
            lemma_close_tok(n as int, s as int, q as int, cur as int);
        }
        n = n + 1;
        s = s + cur;
        q = q + cur * cur;
    }
    let ghost t = tok_tally(cleaned@);
    assert(t == (n as nat, s as nat, q as nat, 0nat));
    if n < 20 {
        assert(crate::analyze::sig_views(out@) =~= spec_token_signals(cleaned@));
        return out;
    }
    assert(n <= s <= usize::MAX);
    assert(q <= s * s);
    assert(n * q >= s * s);
    let nq = wide_mul(n, q);
    let ss = wide_mul(s, s);
    let d = wide_sub(nq, ss);
    let ghost dv = d.val();
    assert(dv == n * q - s * s);
    let m10 = round_div_exec(10 * s, n);
    assert(m10 == mean10(n as nat, s as nat));
    proof {
        assert(dv <= n * q);
        assert(n * q <= 0x1_0000_0000_0000_0000 * (0x1_0000_0000_0000_0000 * 0x1_0000_0000_0000_0000))
            by (nonlinear_arith)
            requires
                n < 0x1_0000_0000_0000_0000,
                q < 0x1_0000_0000_0000_0000 * 0x1_0000_0000_0000_0000,
        ;
        assert(dv * 40000 < crate::wide::b256()) by (nonlinear_arith)
            requires
                dv <= 0x1_0000_0000_0000_0000 * (0x1_0000_0000_0000_0000 * 0x1_0000_0000_0000_0000),
                crate::wide::b256() == crate::wide::b128() * crate::wide::b128(),
                crate::wide::b128() == 0x1_0000_0000_0000_0000 * 0x1_0000_0000_0000_0000,
        ;
    }
    let d25 = wide_scale(d, 25);
    let n6 = wide_mul(6 * n, 6 * n);
    assert(n6.val() == 36 * (n * n)) by (nonlinear_arith)
        requires
            n6.val() == (6 * n) * (6 * n),
    ;
    if n >= 40 && wide_lt(d25, n6) && s > 2 * n {
        assert(25 * dv < 36 * (n * n));
        let d4 = wide_scale(d, 40000);
        assert(d4.val() < 57600 * (n * n)) by (nonlinear_arith)
            requires
                d4.val() == dv * 40000,
                25 * dv < 36 * (n * n),
        ;
        assert(57600 * (n * n) < 0x4000_0000_0000_0000_0000_0000_0000_0000 * crate::wide::b128())
            by (nonlinear_arith)
            requires
                n < 0x1_0000_0000_0000_0000,
                crate::wide::b128() == 0x1_0000_0000_0000_0000 * 0x1_0000_0000_0000_0000,
        ;
        let r = wide_isqrt(d4);
        proof {
            lemma_isqrt((40000 * dv) as nat, r as nat);
        }
        let rr = wide_mul(r, r);
        let exact = !wide_lt(rr, d4) && !wide_lt(d4, rr);
        assert(exact == (r * r == 40000 * dv));
        let sc = if exact {
            round_div_exec(r, 2 * n)
        } else {
            (r + n) / (2 * n)
        };
        assert(sc == std_centi(dv as nat, n as nat));
        let mut det = crate::text::owned("Token lengths unusually uniform (mean=");
        push_fixed(&mut det, m10, 1);
        push_str(&mut det, ", std=");
        push_fixed(&mut det, sc, 2);
        push_str(&mut det, ") — atypical prose");
        let sig = AnalysisSignal { kind: SignalKind::TokenLengthAnomaly, weight: 16, detail: det };
        assert(seq![sig@] =~= token_uniform_sig(n as nat, s as nat, q as nat));
        out.push(sig);
    }
    let ghost mid = crate::analyze::sig_views(out@);
    assert(mid =~= token_uniform_sig(n as nat, s as nat, q as nat));
    if s >= 24 * n {
        let mut det = crate::text::owned("Mean token length ");
        push_fixed(&mut det, m10, 1);
        push_str(&mut det, " is extreme — packed/encoded-like tokens");
        let sig = AnalysisSignal { kind: SignalKind::TokenLengthAnomaly, weight: 20, detail: det };
        assert(seq![sig@] =~= token_long_sig(n as nat, s as nat));
        out.push(sig);
    }
    assert(crate::analyze::sig_views(out@) =~= mid + token_long_sig(n as nat, s as nat));
    assert(crate::analyze::sig_views(out@) =~= spec_token_signals(cleaned@));
    out
}

// ── compressibility ──────────────────────────────────────────────────────

/// ASCII white space bytes (space, tab, line feed, form feed, carriage return).
pub open spec fn is_ascii_ws_byte(b: u8) -> bool {
    b == 0x20 || b == 0x09 || b == 0x0A || b == 0x0C || b == 0x0D
}

/// The bytes other than ASCII white space, in order.
pub open spec fn strip_ws_bytes(b: Seq<u8>) -> Seq<u8>
    decreases b.len(),
{
    if b.len() == 0 {
        seq![]
    } else {
        let r = strip_ws_bytes(b.drop_last());
        if is_ascii_ws_byte(b.last()) {
            r
        } else {
            r.push(b.last())
        }
    }
}

/// Length of the run of bytes equal to `b[i]` from `i`, at most 255; `r`
/// bytes are already matched.
pub open spec fn byte_run(b: Seq<u8>, i: int, r: int) -> int
    decreases 255 - r,
{
    if r < 255 && 0 <= i && i + r < b.len() && b[i + r] == b[i] {
        byte_run(b, i, r + 1)
    } else {
        r
    }
}

/// Length of the match of the bytes at `i` against those at `j < i`, at most
/// 16 and never reaching past `i`; `k` bytes are already matched.
pub open spec fn match_len(b: Seq<u8>, j: int, i: int, k: int) -> int
    decreases 16 - k,
{
    if k < 16 && 0 <= j && i + k < b.len() && b[j + k] == b[i + k] {
        if j + k + 1 >= i {
            k + 1
        } else {
            match_len(b, j, i, k + 1)
        }
    } else {
        k
    }
}

/// Longest match at `i` against the start positions `lo..j`.
pub open spec fn best_match(b: Seq<u8>, i: int, lo: int, j: int) -> int
    decreases j - lo,
{
    if j <= lo {
        0
    } else {
        let p = best_match(b, i, lo, j - 1);
        let m = match_len(b, j - 1, i, 0);
        if m > p {
            m
        } else {
            p
        }
    }
}

/// Start of the 32-byte look-back window at `i`.
pub open spec fn window_start(i: int) -> int {
    if i >= 32 {
        i - 32
    } else {
        0
    }
}

pub proof fn lemma_byte_run(b: Seq<u8>, i: int, r: int)
    requires
        0 <= i,
        1 <= r <= 255,
        i + r <= b.len(),
    ensures
        r <= byte_run(b, i, r) <= 255,
        i + byte_run(b, i, r) <= b.len(),
    decreases 255 - r,
{
    if r < 255 && i + r < b.len() && b[i + r] == b[i] {
        lemma_byte_run(b, i, r + 1);
    }
}

pub proof fn lemma_match_len(b: Seq<u8>, j: int, i: int, k: int)
    requires
        0 <= j < i <= b.len(),
        0 <= k <= 16,
        j + k <= i,
        i + k <= b.len(),
    ensures
        k <= match_len(b, j, i, k) <= 16,
        i + match_len(b, j, i, k) <= b.len(),
    decreases 16 - k,
{
    if k < 16 && i + k < b.len() && b[j + k] == b[i + k] && j + k + 1 < i {
        lemma_match_len(b, j, i, k + 1);
    }
}

pub proof fn lemma_best_match(b: Seq<u8>, i: int, lo: int, j: int)
    requires
        0 <= lo,
        j <= i <= b.len(),
    ensures
        0 <= best_match(b, i, lo, j) <= 16,
        i + best_match(b, i, lo, j) <= b.len(),
    decreases j - lo,
{
    if j > lo {
        lemma_best_match(b, i, lo, j - 1);
        lemma_match_len(b, j - 1, i, 0);
    }
}

/// Size of a crude run-length plus back-reference encoding of `b[i..]`: a
/// run of 3 or more equal bytes (at most 255) costs 2, a match of 3 or more
/// bytes within the previous 32 costs 2, any other byte costs 1.
pub open spec fn compress_cost(b: Seq<u8>, i: int) -> int
    decreases b.len() - i,
{
    if i < 0 || i >= b.len() {
        0
    } else {
        let run = byte_run(b, i, 1);
        let best = best_match(b, i, window_start(i), i);
        proof {
            lemma_byte_run(b, i, 1);
            lemma_best_match(b, i, window_start(i), i);
        }
        if run >= 3 {
            2 + compress_cost(b, i + run)
        } else if best >= 3 {
            2 + compress_cost(b, i + best)
        } else {
            1 + compress_cost(b, i + 1)
        }
    }
}

/// Text that barely compresses: cost / length of the non-white-space bytes
/// at least 0.92 (on at least 64 bytes); weight 28 from 0.97.
pub open spec fn spec_sig_compress(bytes: Seq<u8>) -> Option<SigV> {
    let b = strip_ws_bytes(bytes);
    let n = b.len();
    let out = compress_cost(b, 0);
    if n < 64 || 25 * out < 23 * n {
        None
    } else {
        let shown = round_div(100 * out, n as int);
        Some(
            (
                SignalKind::LowCompressibility,
                if 100 * out >= 97 * n {
                    28u8
                } else {
                    18u8
                },
                "Text compressibility residual ≈ "@ + fixed(
                    (if shown > 100 {
                        100
                    } else {
                        shown
                    }) as nat,
                    2,
                ) + " (near-random / packed — atypical prose)"@,
            ),
        )
    }
}

fn strip_ws_vec(b: &[u8]) -> (v: Vec<u8>)
    ensures
        v@ == strip_ws_bytes(b@),
{
    let mut v: Vec<u8> = Vec::new();
    let mut i: usize = 0;
    while i < b.len()
        invariant
            i <= b@.len(),
            v@ == strip_ws_bytes(b@.take(i as int)),
        decreases b@.len() - i,
    {
        assert(b@.take(i + 1).drop_last() =~= b@.take(i as int));
        let x = b[i];
        if !(x == 0x20 || x == 0x09 || x == 0x0A || x == 0x0C || x == 0x0D) {
            v.push(x);
        }
        i = i + 1;
    }
    assert(b@.take(b@.len() as int) =~= b@);
    v
}

fn match_len_exec(b: &Vec<u8>, j: usize, i: usize) -> (k: usize)
    requires
        j < i < b@.len(),
    ensures
        k == match_len(b@, j as int, i as int, 0),
{
    let mut k: usize = 0;
    while k < 16 && k < b.len() - i && b[j + k] == b[i + k]
        invariant
            j < i < b@.len(),
            k <= 16,
            j + k < i,
            match_len(b@, j as int, i as int, k as int) == match_len(b@, j as int, i as int, 0),
        decreases 16 - k,
    {
        k = k + 1;
        if j + k >= i {
            return k;
        }
    }
    k
}

fn compress_cost_exec(b: &Vec<u8>) -> (out: usize)
    ensures
        out == compress_cost(b@, 0),
{
    let mut out: usize = 0;
    let mut i: usize = 0;
    while i < b.len()
        invariant
            i <= b@.len(),
            out + compress_cost(b@, i as int) == compress_cost(b@, 0),
            out <= i,
        decreases b@.len() - i,
    {
        let x = b[i];
        let mut run: usize = 1;
        while run < b.len() - i && b[i + run] == x && run < 255
            invariant
                i < b@.len(),
                x == b@[i as int],
                1 <= run <= 255,
                i + run <= b@.len(),
                byte_run(b@, i as int, run as int) == byte_run(b@, i as int, 1),
            decreases 255 - run,
        {
            run = run + 1;
        }
        proof {
            lemma_byte_run(b@, i as int, 1);
            lemma_best_match(b@, i as int, window_start(i as int), i as int);
        }
        if run >= 3 {
            out = out + 2;
            i = i + run;
        } else {
            let ws: usize = if i >= 32 {
                i - 32
            } else {
                0
            };
            let mut best: usize = 0;
            let mut j: usize = ws;
            while j < i
                invariant
                    ws <= j <= i < b@.len(),
                    ws == window_start(i as int),
                    best == best_match(b@, i as int, ws as int, j as int),
                decreases i - j,
            {
                let k = match_len_exec(b, j, i);
                if k > best {
                    best = k;
                }
                j = j + 1;
            }
            if best >= 3 {
                out = out + 2;
                i = i + best;
            } else {
                out = out + 1;
                i = i + 1;
            }
        }
    }
    out
}

pub(crate) fn sig_compress(bytes: &[u8]) -> (r: Option<AnalysisSignal>)
    ensures
        r matches Some(s) ==> Some(s@) == spec_sig_compress(bytes@),
        r is None ==> spec_sig_compress(bytes@) is None,
{
    let b = strip_ws_vec(bytes);
    let n = b.len();
    if n < 64 {
        return None;
    }
    let out = compress_cost_exec(&b);
    let o = out as u128;
    let nn = n as u128;
    if 25 * o < 23 * nn {
        return None;
    }
    let weight: u8 = if 100 * o >= 97 * nn {
        28
    } else {
        18
    };
    let shown = round_div_exec(100 * o, nn);
    let mut d = crate::text::owned("Text compressibility residual ≈ ");
    push_fixed(
        &mut d,
        if shown > 100 {
            100
        } else {
            shown
        },
        2,
    );
    push_str(&mut d, " (near-random / packed — atypical prose)");
    let sig = AnalysisSignal { kind: SignalKind::LowCompressibility, weight, detail: d };
    assert(sig@.2 =~= spec_sig_compress(bytes@).unwrap().2);
    Some(sig)
}

// ── letter distribution ──────────────────────────────────────────────────

/// English letter frequencies in thousandths of a percent, `a` to `z`.
pub open spec fn eng_w(i: int) -> nat {
    if i == 0 {
        8200
    } else if i == 1 {
        1500
    } else if i == 2 {
        2800
    } else if i == 3 {
        4300
    } else if i == 4 {
        13000
    } else if i == 5 {
        2200
    } else if i == 6 {
        2000
    } else if i == 7 {
        6100
    } else if i == 8 {
        7000
    } else if i == 9 {
        150
    } else if i == 10 {
        770
    } else if i == 11 {
        4000
    } else if i == 12 {
        2400
    } else if i == 13 {
        6700
    } else if i == 14 {
        7500
    } else if i == 15 {
        1900
    } else if i == 16 {
        95
    } else if i == 17 {
        6000
    } else if i == 18 {
        6300
    } else if i == 19 {
        9100
    } else if i == 20 {
        2800
    } else if i == 21 {
        980
    } else if i == 22 {
        2400
    } else if i == 23 {
        150
    } else if i == 24 {
        2000
    } else {
        74
    }
}

/// Common multiple of all the English weights.
pub const ENG_LCM: u128 = 6388764764562180000;

/// `ENG_LCM / eng_w(i)`.
pub open spec fn eng_cof(i: int) -> nat {
    if i == 0 {
        779117654214900
    } else if i == 1 {
        4259176509708120
    } else if i == 2 {
        2281701701629350
    } else if i == 3 {
        1485759247572600
    } else if i == 4 {
        491443443427860
    } else if i == 5 {
        2903983983891900
    } else if i == 6 {
        3194382382281090
    } else if i == 7 {
        1047338485993800
    } else if i == 8 {
        912680680651740
    } else if i == 9 {
        42591765097081200
    } else if i == 10 {
        8297097096834000
    } else if i == 11 {
        1597191191140545
    } else if i == 12 {
        2661985318567575
    } else if i == 13 {
        953546979785400
    } else if i == 14 {
        851835301941624
    } else if i == 15 {
        3362507770822200
    } else if i == 16 {
        67250155416444000
    } else if i == 17 {
        1064794127427030
    } else if i == 18 {
        1014089645168600
    } else if i == 19 {
        702062062039800
    } else if i == 20 {
        2281701701629350
    } else if i == 21 {
        6519147718941000
    } else if i == 22 {
        2661985318567575
    } else if i == 23 {
        42591765097081200
    } else if i == 24 {
        3194382382281090
    } else {
        86334658980570000
    }
}

proof fn lemma_eng(i: int)
    requires
        0 <= i < 26,
    ensures
        eng_w(i) * eng_cof(i) == ENG_LCM,
        74 <= eng_w(i) <= 13000,
        eng_cof(i) <= 86334658980570000,
{
    if i == 0 {
        assert(eng_w(0) * eng_cof(0) == ENG_LCM);
    } else if i == 1 {
        assert(eng_w(1) * eng_cof(1) == ENG_LCM);
    } else if i == 2 {
        assert(eng_w(2) * eng_cof(2) == ENG_LCM);
    } else if i == 3 {
        assert(eng_w(3) * eng_cof(3) == ENG_LCM);
    } else if i == 4 {
        assert(eng_w(4) * eng_cof(4) == ENG_LCM);
    } else if i == 5 {
        assert(eng_w(5) * eng_cof(5) == ENG_LCM);
    } else if i == 6 {
        assert(eng_w(6) * eng_cof(6) == ENG_LCM);
    } else if i == 7 {
        assert(eng_w(7) * eng_cof(7) == ENG_LCM);
    } else if i == 8 {
        assert(eng_w(8) * eng_cof(8) == ENG_LCM);
    } else if i == 9 {
        assert(eng_w(9) * eng_cof(9) == ENG_LCM);
    } else if i == 10 {
        assert(eng_w(10) * eng_cof(10) == ENG_LCM);
    } else if i == 11 {
        assert(eng_w(11) * eng_cof(11) == ENG_LCM);
    } else if i == 12 {
        assert(eng_w(12) * eng_cof(12) == ENG_LCM);
    } else if i == 13 {
        assert(eng_w(13) * eng_cof(13) == ENG_LCM);
    } else if i == 14 {
        assert(eng_w(14) * eng_cof(14) == ENG_LCM);
    } else if i == 15 {
        assert(eng_w(15) * eng_cof(15) == ENG_LCM);
    } else if i == 16 {
        assert(eng_w(16) * eng_cof(16) == ENG_LCM);
    } else if i == 17 {
        assert(eng_w(17) * eng_cof(17) == ENG_LCM);
    } else if i == 18 {
        assert(eng_w(18) * eng_cof(18) == ENG_LCM);
    } else if i == 19 {
        assert(eng_w(19) * eng_cof(19) == ENG_LCM);
    } else if i == 20 {
        assert(eng_w(20) * eng_cof(20) == ENG_LCM);
    } else if i == 21 {
        assert(eng_w(21) * eng_cof(21) == ENG_LCM);
    } else if i == 22 {
        assert(eng_w(22) * eng_cof(22) == ENG_LCM);
    } else if i == 23 {
        assert(eng_w(23) * eng_cof(23) == ENG_LCM);
    } else if i == 24 {
        assert(eng_w(24) * eng_cof(24) == ENG_LCM);
    } else if i == 25 {
        assert(eng_w(25) * eng_cof(25) == ENG_LCM);
    }
}

fn eng_w_exec(i: usize) -> (w: u128)
    requires
        i < 26,
    ensures
        w == eng_w(i as int),
{
    if i == 0 {
        8200
    } else if i == 1 {
        1500
    } else if i == 2 {
        2800
    } else if i == 3 {
        4300
    } else if i == 4 {
        13000
    } else if i == 5 {
        2200
    } else if i == 6 {
        2000
    } else if i == 7 {
        6100
    } else if i == 8 {
        7000
    } else if i == 9 {
        150
    } else if i == 10 {
        770
    } else if i == 11 {
        4000
    } else if i == 12 {
        2400
    } else if i == 13 {
        6700
    } else if i == 14 {
        7500
    } else if i == 15 {
        1900
    } else if i == 16 {
        95
    } else if i == 17 {
        6000
    } else if i == 18 {
        6300
    } else if i == 19 {
        9100
    } else if i == 20 {
        2800
    } else if i == 21 {
        980
    } else if i == 22 {
        2400
    } else if i == 23 {
        150
    } else if i == 24 {
        2000
    } else {
        74
    }
}

fn eng_cof_exec(i: usize) -> (c: u128)
    requires
        i < 26,
    ensures
        c == eng_cof(i as int),
{
    if i == 0 {
        779117654214900
    } else if i == 1 {
        4259176509708120
    } else if i == 2 {
        2281701701629350
    } else if i == 3 {
        1485759247572600
    } else if i == 4 {
        491443443427860
    } else if i == 5 {
        2903983983891900
    } else if i == 6 {
        3194382382281090
    } else if i == 7 {
        1047338485993800
    } else if i == 8 {
        912680680651740
    } else if i == 9 {
        42591765097081200
    } else if i == 10 {
        8297097096834000
    } else if i == 11 {
        1597191191140545
    } else if i == 12 {
        2661985318567575
    } else if i == 13 {
        953546979785400
    } else if i == 14 {
        851835301941624
    } else if i == 15 {
        3362507770822200
    } else if i == 16 {
        67250155416444000
    } else if i == 17 {
        1064794127427030
    } else if i == 18 {
        1014089645168600
    } else if i == 19 {
        702062062039800
    } else if i == 20 {
        2281701701629350
    } else if i == 21 {
        6519147718941000
    } else if i == 22 {
        2661985318567575
    } else if i == 23 {
        42591765097081200
    } else if i == 24 {
        3194382382281090
    } else {
        86334658980570000
    }
}

/// ASCII letters whose lowercase is the `i`-th letter of the alphabet.
pub open spec fn letter_pred(i: int) -> spec_fn(char) -> bool {
    |c: char| is_ascii_alpha(c) && lower_char(c) as u32 == 97 + i
}

/// Scaled chi-square numerator over the first `i` letters, for `n`
/// letters: `sum (100000*o - n*w)^2 * (ENG_LCM / w)` over the letters whose
/// expected count `n*w/100000` is at least 0.5. The statistic itself is
/// this over `100000 * n * ENG_LCM`.
pub open spec fn chi_num(s: Seq<char>, n: nat, i: int) -> int
    decreases i,
{
    if i <= 0 {
        0
    } else {
        let w = eng_w(i - 1);
        let o = count_where(s, letter_pred(i - 1));
        let dev = 100000 * o - n * w;
        chi_num(s, n, i - 1) + if 2 * n * w >= 100000 {
            dev * dev * eng_cof(i - 1)
        } else {
            0
        }
    }
}

/// Letter frequencies far from English (chi-square at least 120 against
/// the English baseline, on at least 80 letters); weight 22 from 200.
pub open spec fn spec_sig_letters(cleaned: Seq<char>) -> Option<SigV> {
    let n = count_where(cleaned, alpha_pred());
    let num = chi_num(cleaned, n, 26);
    let den = 100000 * n * ENG_LCM;
    if n < 80 || num < 120 * den {
        None
    } else {
        Some(
            (
                SignalKind::CharDistributionAnomaly,
                if num >= 200 * den {
                    22u8
                } else {
                    14u8
                },
                "Letter distribution χ²≈"@ + dec(round_div(num, den) as nat)
                    + " vs English baseline (high — atypical for prose)"@,
            ),
        )
    }
}

fn count_letter(s: &Vec<char>, k: u32) -> (n: usize)
    requires
        k < 26,
    ensures
        n == count_where(s@, letter_pred(k as int)),
        n <= s@.len(),
{
    let mut n: usize = 0;
    let mut i: usize = 0;
    while i < s.len()
        invariant
            i <= s@.len(),
            k < 26,
            n == count_where(s@.take(i as int), letter_pred(k as int)),
            n <= i,
        decreases s@.len() - i,
    {
        assert(s@.take(i + 1).drop_last() =~= s@.take(i as int));
        let c = s[i];
        if ascii_alpha(c) && lower(c) as u32 == 97 + k {
            n = n + 1;
        }
        i = i + 1;
    }
    assert(s@.take(s@.len() as int) =~= s@);
    n
}

/// A letter count is at most the count of ASCII letters.
proof fn lemma_letter_le_alpha(s: Seq<char>, i: int)
    ensures
        count_where(s, letter_pred(i)) <= count_where(s, alpha_pred()),
    decreases s.len(),
{
    if s.len() > 0 {
        lemma_letter_le_alpha(s.drop_last(), i);
    }
}

/// One chi-square term is at most `den * 100000 * n` (the deviation is at
/// most `100000 * n` and the weight at least 1).
proof fn lemma_term_bound(a: int, n: int, w: int, cof: int)
    requires
        0 <= a <= 100000 * n,
        n >= 0,
        w >= 1,
        cof >= 0,
        w * cof == ENG_LCM,
    ensures
        a * a * cof <= (100000 * n * ENG_LCM) * (100000 * n),
{
    assert(a * a <= (100000 * n) * (100000 * n)) by (nonlinear_arith)
        requires
            0 <= a <= 100000 * n,
    ;
    assert(a * a * cof <= (100000 * n) * (100000 * n) * cof) by (nonlinear_arith)
        requires
            a * a <= (100000 * n) * (100000 * n),
            cof >= 0,
    ;
    assert((100000 * n) * (100000 * n) * cof <= (100000 * n) * (100000 * n) * (w * cof)) by (
    nonlinear_arith)
        requires
            w >= 1,
            cof >= 0,
            n >= 0,
    ;
    assert((100000 * n) * (100000 * n) * (w * cof) == (100000 * n * (w * cof)) * (100000 * n))
        by (nonlinear_arith);
}

pub(crate) fn sig_letters(cleaned: &Vec<char>) -> (r: Option<AnalysisSignal>)
    ensures
        r matches Some(s) ==> Some(s@) == spec_sig_letters(cleaned@),
        r is None ==> spec_sig_letters(cleaned@) is None,
{
    let n0 = crate::analyze::count_alpha(cleaned);
    if n0 < 80 {
        return None;
    }
    let n = n0 as u128;
    proof {
        crate::analyze::lemma_count_le(cleaned@, alpha_pred());
    }
    let _ = cleaned.len();
    assert(n <= usize::MAX);
    let den = wide_mul(100000 * n, ENG_LCM);
    let ghost dv = den.val();
    let ghost cap = dv * (100000 * n);
    assert(dv == 100000 * n * ENG_LCM);
    assert(dv > 0) by (nonlinear_arith)
        requires
            dv == 100000 * n * ENG_LCM,
            n >= 80,
    ;
    assert(26 * cap < crate::wide::b256()) by (nonlinear_arith)
        requires
            cap == dv * (100000 * n),
            dv == 100000 * n * ENG_LCM,
            n < 0x1_0000_0000_0000_0000,
            crate::wide::b256() == crate::wide::b128() * crate::wide::b128(),
            crate::wide::b128() == 0x1_0000_0000_0000_0000 * 0x1_0000_0000_0000_0000,
    ;
    let mut num = wide(0);
    let mut i: usize = 0;
    while i < 26
        invariant
            i <= 26,
            n == count_where(cleaned@, alpha_pred()),
            80 <= n <= usize::MAX,
            dv == den.val(),
            dv == 100000 * n * ENG_LCM,
            cap == dv * (100000 * n),
            26 * cap < crate::wide::b256(),
            num.val() == chi_num(cleaned@, n as nat, i as int),
            num.val() <= i * cap,
        decreases 26 - i,
    {
        let w = eng_w_exec(i);
        let cof = eng_cof_exec(i);
        proof {
            lemma_eng(i as int);
        }
        let o = count_letter(cleaned, i as u32) as u128;
        proof {
            crate::analyze::lemma_count_le(cleaned@, alpha_pred());
            lemma_letter_le_alpha(cleaned@, i as int);
        }
        assert(o <= n);
        assert(n * w <= n * 13000) by (nonlinear_arith)
            requires
                w <= 13000,
        ;
        if 2 * n * w >= 100000 {
            let a: u128 = if 100000 * o >= n * w {
                100000 * o - n * w
            } else {
                n * w - 100000 * o
            };
            assert(a <= 100000 * n);
            let a2 = wide_mul(a, a);
            proof {
                lemma_term_bound(a as int, n as int, w as int, cof as int);
                assert(a2.val() * cof == a * a * cof);
                assert(a2.val() * cof <= cap);
                assert(cap < crate::wide::b256());
            }
            let t = wide_scale(a2, cof);
            assert(num.val() + t.val() <= (i + 1) * cap) by (nonlinear_arith)
                requires
                    num.val() <= i * cap,
                    t.val() <= cap,
            ;
            assert((i + 1) * cap <= 26 * cap) by (nonlinear_arith)
                requires
                    i < 26,
                    cap >= 0,
            ;
            proof {
                let dev = 100000 * o - n * w;
                assert(dev * dev == a * a) by (nonlinear_arith)
                    requires
                        dev == a || dev == -a,
                ;
                assert(t.val() == a * a * cof);
            }
            num = wide_add(num, t);
            assert(chi_num(cleaned@, n as nat, i + 1) == chi_num(cleaned@, n as nat, i as int)
                + t.val());
        } else {
            assert(num.val() <= (i + 1) * cap) by (nonlinear_arith)
                requires
                    num.val() <= i * cap,
                    cap >= 0,
            ;
        }
        i = i + 1;
    }
    let ghost nv = chi_num(cleaned@, n as nat, 26);
    assert(120 * dv < crate::wide::b256()) by (nonlinear_arith)
        requires
            26 * cap < crate::wide::b256(),
            cap == dv * (100000 * n),
            n >= 80,
            dv > 0,
    ;
    let d120 = wide_scale(den, 120);
    if wide_lt(num, d120) {
        return None;
    }
    assert(200 * dv < crate::wide::b256()) by (nonlinear_arith)
        requires
            26 * cap < crate::wide::b256(),
            cap == dv * (100000 * n),
            n >= 80,
            dv > 0,
    ;
    let d200 = wide_scale(den, 200);
    let weight: u8 = if !wide_lt(num, d200) {
        22
    } else {
        14
    };
    assert(num.val() < dv * 0x4000_0000_0000_0000_0000_0000_0000_0000) by (nonlinear_arith)
        requires
            num.val() <= 26 * cap,
            cap == dv * (100000 * n),
            n < 0x1_0000_0000_0000_0000,
            dv > 0,
    ;
    let rounded = wide_round_div(num, den);
    let mut d = crate::text::owned("Letter distribution χ²≈");
    push_dec(&mut d, rounded);
    push_str(&mut d, " vs English baseline (high — atypical for prose)");
    let sig = AnalysisSignal { kind: SignalKind::CharDistributionAnomaly, weight, detail: d };
    assert(sig@.2 =~= spec_sig_letters(cleaned@).unwrap().2);
    Some(sig)
}

// ── visible projection vs cleaned text ──────────────────────────────────

/// How a raw character shows in the "what the user sees" projection: a
/// carriage return as a line feed, base ASCII as itself, security carriers
/// as nothing, anything else as a middle dot.
pub open spec fn proj_char(c: char) -> Seq<char> {
    if c == '\r' {
        seq!['\n']
    } else if spec_is_base_allowed(c) {
        seq![c]
    } else if spec_severity(spec_classify(c)) == Severity::Security {
        seq![]
    } else {
        seq!['·']
    }
}

pub open spec fn display_proj(s: Seq<char>) -> Seq<char>
    decreases s.len(),
{
    if s.len() == 0 {
        seq![]
    } else {
        display_proj(s.drop_last()) + proj_char(s.last())
    }
}

/// Runs of Unicode white space collapsed to one space; the flag says the
/// text ends in such a run.
pub open spec fn collapse_ws(s: Seq<char>) -> (Seq<char>, bool)
    decreases s.len(),
{
    if s.len() == 0 {
        (seq![], false)
    } else {
        let (o, p) = collapse_ws(s.drop_last());
        if unicode_white_space(s.last()) {
            if p {
                (o, true)
            } else {
                (o.push(' '), true)
            }
        } else {
            (o.push(s.last()), false)
        }
    }
}

/// White space runs collapsed to one space, then trimmed.
pub open spec fn normalize_ws(s: Seq<char>) -> Seq<char> {
    trim(collapse_ws(s).0)
}

/// Sum over the first `i` letters of `|count in a - count in b|`.
pub open spec fn letter_diff(a: Seq<char>, b: Seq<char>, i: int) -> nat
    decreases i,
{
    if i <= 0 {
        0
    } else {
        let x = count_where(a, letter_pred(i - 1));
        let y = count_where(b, letter_pred(i - 1));
        letter_diff(a, b, i - 1) + (if x >= y {
            x - y
        } else {
            y - x
        }) as nat
    }
}

/// Sum over the first `i` letters of the counts in `a` and in `b`.
pub open spec fn letter_total(a: Seq<char>, b: Seq<char>, i: int) -> nat
    decreases i,
{
    if i <= 0 {
        0
    } else {
        letter_total(a, b, i - 1) + count_where(a, letter_pred(i - 1)) + count_where(
            b,
            letter_pred(i - 1),
        )
    }
}

/// The visible-ish projection of the raw text and the cleaned text differ
/// in letter structure: `0.4 * |la - lb| / max(la, lb) + 0.6 * diff / sum`
/// is at least 0.25, where `la`, `lb` count the ASCII letters of the two
/// normalized texts and `diff`, `sum` compare their letter histograms. Both
/// normalized texts must be at least 12 bytes long in UTF-8.
pub open spec fn spec_sig_dual(raw: Seq<char>, cleaned: Seq<char>) -> Option<SigV> {
    let d = normalize_ws(display_proj(raw));
    let c = normalize_ws(cleaned);
    let la = count_where(d, alpha_pred());
    let lb = count_where(c, alpha_pred());
    let m = if la >= lb {
        la
    } else {
        lb
    };
    let delta = if la >= lb {
        la - lb
    } else {
        lb - la
    };
    let diff = letter_diff(d, c, 26);
    let sum = letter_total(d, c, 26);
    let (mn, md) = if sum == 0 {
        (0nat, 1nat)
    } else {
        (diff, sum)
    };
    if utf8_size(d) < 12 || utf8_size(c) < 12 || la == 0 || lb == 0 || 8 * delta * md + 12 * mn * m < 5
        * m * md {
        None
    } else {
        let shown = round_div((40 * delta * md + 60 * mn * m) as int, (m * md) as int);
        Some(
            (
                SignalKind::DualChannelDivergence,
                26u8,
                "Visible-ish projection and cleaned text diverge ("@ + dec(
                    (if shown > 100 {
                        100
                    } else {
                        shown
                    }) as nat,
                )
                    + "% letter-structure delta) — user may not see the same message the model receives"@,
            ),
        )
    }
}

fn project_display(raw: &Vec<char>, policy: &SanitizePolicy) -> (v: Vec<char>)
    ensures
        v@ == display_proj(raw@),
{
    let mut v: Vec<char> = Vec::new();
    let mut i: usize = 0;
    while i < raw.len()
        invariant
            i <= raw@.len(),
            v@ == display_proj(raw@.take(i as int)),
        decreases raw@.len() - i,
    {
        assert(raw@.take(i + 1).drop_last() =~= raw@.take(i as int));
        let c = raw[i];
        let ghost before = v@;
        if c == '\r' {
            v.push('\n');
        } else if is_base_allowed(c) {
            v.push(c);
        } else if classify(c, policy).severity() == Severity::Security {
        } else {
            v.push('·');
        }
        assert(v@ =~= before + proj_char(c));
        i = i + 1;
    }
    assert(raw@.take(raw@.len() as int) =~= raw@);
    v
}

fn collapse_ws_vec(s: &Vec<char>) -> (v: Vec<char>)
    ensures
        v@ == collapse_ws(s@).0,
{
    let mut v: Vec<char> = Vec::new();
    let mut prev = false;
    let mut i: usize = 0;
    while i < s.len()
        invariant
            i <= s@.len(),
            (v@, prev) == collapse_ws(s@.take(i as int)),
        decreases s@.len() - i,
    {
        assert(s@.take(i + 1).drop_last() =~= s@.take(i as int));
        let c = s[i];
        if char_is_whitespace(c) {
            if !prev {
                v.push(' ');
                prev = true;
            }
        } else {
            prev = false;
            v.push(c);
        }
        i = i + 1;
    }
    assert(s@.take(s@.len() as int) =~= s@);
    v
}

/// Number of bytes of the UTF-8 encoding of one character.
pub open spec fn utf8_width(c: char) -> nat {
    if (c as u32) < 0x80 {
        1
    } else if (c as u32) < 0x800 {
        2
    } else if (c as u32) < 0x10000 {
        3
    } else {
        4
    }
}

/// Number of bytes of the UTF-8 encoding of `s`.
pub open spec fn utf8_size(s: Seq<char>) -> nat
    decreases s.len(),
{
    if s.len() == 0 {
        0
    } else {
        utf8_size(s.drop_last()) + utf8_width(s.last())
    }
}

/// UTF-8 length of the text held in `v`.
fn utf8_len(v: &Vec<char>) -> (n: u128)
    ensures
        n == utf8_size(v@),
{
    let mut n: u128 = 0;
    let mut i: usize = 0;
    while i < v.len()
        invariant
            i <= v@.len(),
            n == utf8_size(v@.take(i as int)),
            n <= 4 * i,
        decreases v@.len() - i,
    {
        assert(v@.take(i + 1).drop_last() =~= v@.take(i as int));
        let c = v[i] as u32;
        if c < 0x80 {
            n = n + 1;
        } else if c < 0x800 {
            n = n + 2;
        } else if c < 0x10000 {
            n = n + 3;
        } else {
            n = n + 4;
        }
        i = i + 1;
    }
    assert(v@.take(v@.len() as int) =~= v@);
    n
}

pub(crate) fn sig_dual(raw: &Vec<char>, cleaned: &Vec<char>, policy: &SanitizePolicy) -> (r: Option<
    AnalysisSignal,
>)
    ensures
        r matches Some(s) ==> Some(s@) == spec_sig_dual(raw@, cleaned@),
        r is None ==> spec_sig_dual(raw@, cleaned@) is None,
{
    let d = trim_vec(&collapse_ws_vec(&project_display(raw, policy)));
    let c = trim_vec(&collapse_ws_vec(cleaned));
    if utf8_len(&d) < 12 || utf8_len(&c) < 12 {
        return None;
    }
    let la = crate::analyze::count_alpha(&d) as u128;
    let lb = crate::analyze::count_alpha(&c) as u128;
    if la == 0 || lb == 0 {
        return None;
    }
    proof {
        crate::analyze::lemma_count_le(d@, alpha_pred());
        crate::analyze::lemma_count_le(c@, alpha_pred());
    }
    let _ = d.len();
    let _ = c.len();
    let mut diff: u128 = 0;
    let mut sum: u128 = 0;
    let mut i: u32 = 0;
    while i < 26
        invariant
            i <= 26,
            d@.len() <= usize::MAX,
            c@.len() <= usize::MAX,
            diff == letter_diff(d@, c@, i as int),
            sum == letter_total(d@, c@, i as int),
            diff <= sum,
            sum <= 2 * i * 0x1_0000_0000_0000_0000,
        decreases 26 - i,
    {
        let x = count_letter(&d, i) as u128;
        let y = count_letter(&c, i) as u128;
        if x >= y {
            diff = diff + (x - y);
        } else {
            diff = diff + (y - x);
        }
        sum = sum + x + y;
        i = i + 1;
    }
    let m = if la >= lb {
        la
    } else {
        lb
    };
    let delta = if la >= lb {
        la - lb
    } else {
        lb - la
    };
    let mn: u128 = if sum == 0 {
        0
    } else {
        diff
    };
    let md: u128 = if sum == 0 {
        1
    } else {
        sum
    };
    assert(m < 0x1_0000_0000_0000_0000 && delta <= m && mn <= md && md <= 52 * 0x1_0000_0000_0000_0000);
    let p1 = wide_mul(8 * delta, md);
    let p2 = wide_mul(12 * mn, m);
    let p3 = wide_mul(40 * delta, md);
    let p4 = wide_mul(60 * mn, m);
    assert(p1.val() + p2.val() < crate::wide::b256() && p3.val() + p4.val() < crate::wide::b256())
        by (nonlinear_arith)
        requires
            p1.val() == (8 * delta) * md,
            p2.val() == (12 * mn) * m,
            p3.val() == (40 * delta) * md,
            p4.val() == (60 * mn) * m,
            delta <= m,
            m < 0x1_0000_0000_0000_0000,
            mn <= md,
            md <= 52 * 0x1_0000_0000_0000_0000,
            crate::wide::b256() == crate::wide::b128() * crate::wide::b128(),
            crate::wide::b128() == 0x1_0000_0000_0000_0000 * 0x1_0000_0000_0000_0000,
    ;
    let lhs = wide_add(p1, p2);
    let rhs = wide_mul(5 * m, md);
    assert(lhs.val() == 8 * delta * md + 12 * mn * m) by (nonlinear_arith)
        requires
            lhs.val() == (8 * delta) * md + (12 * mn) * m,
    ;
    assert(rhs.val() == 5 * m * md) by (nonlinear_arith)
        requires
            rhs.val() == (5 * m) * md,
    ;
    if wide_lt(lhs, rhs) {
        return None;
    }
    let num = wide_add(p3, p4);
    let den = wide_mul(m, md);
    assert(num.val() == 40 * delta * md + 60 * mn * m) by (nonlinear_arith)
        requires
            num.val() == (40 * delta) * md + (60 * mn) * m,
    ;
    assert(den.val() > 0 && num.val() <= 100 * den.val()) by (nonlinear_arith)
        requires
            den.val() == m * md,
            m > 0,
            md > 0,
            delta <= m,
            mn <= md,
            num.val() == 40 * delta * md + 60 * mn * m,
    ;
    let shown = wide_round_div(num, den);
    let mut det = crate::text::owned("Visible-ish projection and cleaned text diverge (");
    push_dec(
        &mut det,
        if shown > 100 {
            100
        } else {
            shown
        },
    );
    push_str(
        &mut det,
        "% letter-structure delta) — user may not see the same message the model receives",
    );
    let sig = AnalysisSignal { kind: SignalKind::DualChannelDivergence, weight: 26, detail: det };
    assert(sig@.2 =~= spec_sig_dual(raw@, cleaned@).unwrap().2);
    Some(sig)
}

} // verus!
