//! Statistical and container checks on image payloads, without decoding
//! the image: byte entropy and uniformity, fair low bits, PNG ancillary
//! chunk mass and bytes trailing a JPEG end-of-image marker.
//!
//! The Shannon entropy of the bytes needs floating point and is measured by
//! the caller; it is passed in millionths of a bit per byte, rounded down.
use vstd::prelude::*;

use crate::analyze::{
    empty_report, finish_report, lemma_opt_view, opt_seq, push_opt, report_of, sig_views, spec_warns,
    AnalysisReport, AnalysisSignal, ReportV, SigV, SignalKind,
};
use crate::note::{format_untrusted_note, spec_untrusted_note};
use crate::sanitize::{ResultV, SanitizeResult};
use crate::wide::{wide, wide_lt, wide_mul, wide_round_div, wide_scale, wide_sub};
use crate::text::{
    char_is_whitespace, chars_of, contains_seq, contains_vec, dec, fixed, push_dec, push_fixed,
    push_str, round_div, round_div_exec, round_half_up, unicode_white_space,
};
use crate::untrusted::UntrustedSource;

verus! {

// ── byte statistics ──────────────────────────────────────────────────────

/// Occurrences of the byte value `v` in `b`.
pub open spec fn byte_count(b: Seq<u8>, v: int) -> nat
    decreases b.len(),
{
    if b.len() == 0 {
        0
    } else {
        byte_count(b.drop_last(), v) + if b.last() as int == v {
            1nat
        } else {
            0nat
        }
    }
}

/// Sum of the counts of the byte values below `k`.
pub open spec fn count_sum(b: Seq<u8>, k: int) -> nat
    decreases k,
{
    if k <= 0 {
        0
    } else {
        count_sum(b, k - 1) + byte_count(b, k - 1)
    }
}

/// Sum of the squared counts of the byte values below `k`.
pub open spec fn square_sum(b: Seq<u8>, k: int) -> nat
    decreases k,
{
    if k <= 0 {
        0
    } else {
        square_sum(b, k - 1) + byte_count(b, k - 1) * byte_count(b, k - 1)
    }
}

/// Bytes with the lowest bit set.
pub open spec fn odd_count(b: Seq<u8>) -> nat
    decreases b.len(),
{
    if b.len() == 0 {
        0
    } else {
        odd_count(b.drop_last()) + if b.last() % 2 == 1 {
            1nat
        } else {
            0nat
        }
    }
}

proof fn lemma_count_sum_empty(b: Seq<u8>, k: int)
    requires
        b.len() == 0,
    ensures
        count_sum(b, k) == 0,
    decreases k,
{
    if k > 0 {
        lemma_count_sum_empty(b, k - 1);
    }
}

proof fn lemma_count_sum_push(b: Seq<u8>, x: u8, k: int)
    ensures
        count_sum(b.push(x), k) == count_sum(b, k) + if 0 <= (x as int) < k {
            1nat
        } else {
            0nat
        },
    decreases k,
{
    assert(b.push(x).drop_last() =~= b);
    if k > 0 {
        lemma_count_sum_push(b, x, k - 1);
    }
}

proof fn lemma_count_sum_len(b: Seq<u8>)
    ensures
        count_sum(b, 256) == b.len(),
    decreases b.len(),
{
    if b.len() == 0 {
        lemma_count_sum_empty(b, 256);
    } else {
        lemma_count_sum_len(b.drop_last());
        lemma_count_sum_push(b.drop_last(), b.last(), 256);
        assert(b.drop_last().push(b.last()) =~= b);
    }
}

/// One step of the Cauchy-Schwarz inequality `k * sum(x^2) >= sum(x)^2`.
proof fn lemma_cs_step(n: int, s: int, q: int, x: int)
    requires
        n >= 0,
        s >= 0,
        q >= 0,
        x >= 0,
        n * q >= s * s,
    ensures
        (n + 1) * (q + x * x) >= (s + x) * (s + x),
{
    if n == 0 {
        assert(s == 0) by (nonlinear_arith)
            requires
                s * s <= 0,
                s >= 0,
        ;
    } else {
        assert(n * (n * x * x + q - 2 * s * x) == (n * x - s) * (n * x - s) + (n * q - s * s))
            by (nonlinear_arith);
        assert((n * x - s) * (n * x - s) >= 0) by (nonlinear_arith);
        assert(n * x * x + q - 2 * s * x >= 0) by (nonlinear_arith)
            requires
                n * (n * x * x + q - 2 * s * x) >= 0,
                n > 0,
        ;
        assert((n + 1) * (q + x * x) - (s + x) * (s + x) == (n * q - s * s) + (n * x * x + q - 2
            * s * x)) by (nonlinear_arith);
    }
}

proof fn lemma_square_sum(b: Seq<u8>, k: int)
    requires
        k >= 0,
    ensures
        k * square_sum(b, k) >= count_sum(b, k) * count_sum(b, k),
        square_sum(b, k) <= count_sum(b, k) * count_sum(b, k),
    decreases k,
{
    if k > 0 {
        lemma_square_sum(b, k - 1);
        let s = count_sum(b, k - 1) as int;
        let q = square_sum(b, k - 1) as int;
        let x = byte_count(b, k - 1) as int;
        lemma_cs_step(k - 1, s, q, x);
        assert(q + x * x <= (s + x) * (s + x)) by (nonlinear_arith)
            requires
                q <= s * s,
                s >= 0,
                x >= 0,
        ;
    }
}

proof fn lemma_odd_le(b: Seq<u8>)
    ensures
        odd_count(b) <= b.len(),
    decreases b.len(),
{
    if b.len() > 0 {
        lemma_odd_le(b.drop_last());
    }
}

/// Sum of squared byte-value counts, and the number of odd bytes.
fn byte_stats(b: &[u8]) -> (r: (u128, u128))
    ensures
        r.0 == square_sum(b@, 256),
        r.1 == odd_count(b@),
{
    let mut counts: Vec<u64> = Vec::new();
    let mut v: usize = 0;
    while v < 256
        invariant
            v <= 256,
            counts@.len() == v,
            forall|j: int| 0 <= j < v ==> #[trigger] counts@[j] == 0,
        decreases 256 - v,
    {
        counts.push(0);
        v = v + 1;
    }
    let mut odd: u128 = 0;
    let mut i: usize = 0;
    let _ = b.len();
    while i < b.len()
        invariant
            i <= b@.len() <= usize::MAX,
            counts@.len() == 256,
            forall|j: int| 0 <= j < 256 ==> #[trigger] counts@[j] == byte_count(b@.take(i as int), j),
            forall|j: int| 0 <= j < 256 ==> #[trigger] counts@[j] <= i,
            odd == odd_count(b@.take(i as int)),
            odd <= i,
        decreases b@.len() - i,
    {
        assert(b@.take(i + 1).drop_last() =~= b@.take(i as int));
        let x = b[i];
        let c = counts[x as usize];
        counts.set(x as usize, c + 1);
        if x % 2 == 1 {
            odd = odd + 1;
        }
        i = i + 1;
    }
    assert(b@.take(b@.len() as int) =~= b@);
    let mut q: u128 = 0;
    let mut k: usize = 0;
    proof {
        lemma_count_sum_len(b@);
        lemma_square_sum(b@, 256);
    }
    while k < 256
        invariant
            k <= 256,
            b@.len() <= usize::MAX,
            counts@.len() == 256,
            forall|j: int| 0 <= j < 256 ==> #[trigger] counts@[j] == byte_count(b@, j),
            q == square_sum(b@, k as int),
            count_sum(b@, 256) == b@.len(),
            square_sum(b@, 256) <= b@.len() * b@.len(),
        decreases 256 - k,
    {
        proof {
            lemma_square_sum_mono(b@, k as int + 1, 256);
            assert(b@.len() * b@.len() < 0x1_0000_0000_0000_0000 * 0x1_0000_0000_0000_0000) by (
            nonlinear_arith)
                requires
                    b@.len() < 0x1_0000_0000_0000_0000,
            ;
        }
        let c = counts[k] as u128;
        q = q + c * c;
        k = k + 1;
    }
    (q, odd)
}

proof fn lemma_square_sum_mono(b: Seq<u8>, k: int, m: int)
    requires
        0 <= k <= m,
    ensures
        square_sum(b, k) <= square_sum(b, m),
    decreases m - k,
{
    if k < m {
        lemma_square_sum_mono(b, k, m - 1);
    }
}

/// Near-maximal entropy (from 7.85 bits per byte on at least 512 bytes);
/// weight 36 when the entropy reaches 7.95 and `chi^2` against the uniform
/// histogram is below 400, 28 from 7.90, 18 otherwise. `chi^2` is
/// `(256 * sum(count^2) - n^2) / n`.
pub open spec fn spec_image_entropy_sig(b: Seq<u8>, micro: nat) -> Option<SigV> {
    let n = b.len();
    let chi_num = 256 * square_sum(b, 256) - n * n;
    if n >= 512 && micro >= 7850000 {
        Some(
            (
                SignalKind::ImageStatisticalAnomaly,
                if micro >= 7950000 && chi_num < 400 * n {
                    36u8
                } else if micro >= 7900000 {
                    28u8
                } else {
                    18u8
                },
                "Image byte entropy ≈ "@ + fixed(round_half_up(micro as int, 1000) as nat, 3)
                    + " bits/byte (χ²_uniform≈"@ + dec(round_div(chi_num, n as int) as nat)
                    + ") — packed/encrypted/stego-like payload"@,
            ),
        )
    } else {
        None
    }
}

/// Low bits as fair as a coin: 48.5-51.5% odd bytes and `(odd - even)^2 / n`
/// below 1, on at least 1024 bytes.
pub open spec fn spec_image_lsb_sig(b: Seq<u8>) -> Option<SigV> {
    let n = b.len();
    let ones = odd_count(b);
    let dz = ones - (n - ones);
    let sq = dz * dz;
    if n >= 1024 && 200 * ones >= 97 * n && 200 * ones <= 103 * n && sq < n {
        Some(
            (
                SignalKind::ImageStatisticalAnomaly,
                24u8,
                "Image LSBs are suspiciously fair (p1="@ + fixed(
                    round_div((1000 * ones) as int, n as int) as nat,
                    3,
                ) + ", χ²="@ + fixed(round_div(100 * sq, n as int) as nat, 2)
                    + ") — possible LSB steganography"@,
            ),
        )
    } else {
        None
    }
}

fn image_stat_signals(b: &[u8], micro: u32) -> (r: (Option<AnalysisSignal>, Option<AnalysisSignal>))
    ensures
        r.0 matches Some(s) ==> Some(s@) == spec_image_entropy_sig(b@, micro as nat),
        r.0 is None ==> spec_image_entropy_sig(b@, micro as nat) is None,
        r.1 matches Some(s) ==> Some(s@) == spec_image_lsb_sig(b@),
        r.1 is None ==> spec_image_lsb_sig(b@) is None,
{
    let n = b.len();
    if n < 512 {
        return (None, None);
    }
    let (q, ones) = byte_stats(b);
    let nn = n as u128;
    proof {
        lemma_count_sum_len(b@);
        lemma_square_sum(b@, 256);
        lemma_odd_le(b@);
        assert(nn * nn < 0x1_0000_0000_0000_0000 * 0x1_0000_0000_0000_0000) by (nonlinear_arith)
            requires
                nn < 0x1_0000_0000_0000_0000,
        ;
    }
    let e = if micro >= 7850000 {
        let q256 = wide_scale(wide(q), 256);
        let n2 = wide_mul(nn, nn);
        let chi = wide_sub(q256, n2);
        let ghost chi_num = 256 * q - nn * nn;
        assert(chi.val() == chi_num);
        assert(chi_num < nn * 0x4000_0000_0000_0000_0000_0000_0000_0000) by (nonlinear_arith)
            requires
                chi_num <= 256 * q,
                q <= nn * nn,
                nn < 0x1_0000_0000_0000_0000,
                nn >= 512,
        ;
        let weight: u8 = if micro >= 7950000 && wide_lt(chi, wide(400 * nn)) {
            36
        } else if micro >= 7900000 {
            28
        } else {
            18
        };
        let mut d = crate::text::owned("Image byte entropy ≈ ");
        push_fixed(&mut d, ((micro as u128) * 2 + 1000) / 2000, 3);
        push_str(&mut d, " bits/byte (χ²_uniform≈");
        push_dec(&mut d, wide_round_div(chi, wide(nn)));
        push_str(&mut d, ") — packed/encrypted/stego-like payload");
        let sig = AnalysisSignal { kind: SignalKind::ImageStatisticalAnomaly, weight, detail: d };
        assert(sig@.2 =~= spec_image_entropy_sig(b@, micro as nat).unwrap().2);
        Some(sig)
    } else {
        None
    };
    let zeros = nn - ones;
    let dz: u128 = if ones >= zeros {
        ones - zeros
    } else {
        zeros - ones
    };
    let sq: u128 = if dz < 0x1_0000_0000 {
        assert(dz * dz < 0x1_0000_0000 * 0x1_0000_0000) by (nonlinear_arith)
            requires
                dz < 0x1_0000_0000,
        ;
        dz * dz
    } else {
        0
    };
    proof {
        let sdz = ones - (nn - ones);
        assert(sdz * sdz == dz * dz) by (nonlinear_arith)
            requires
                sdz == dz || sdz == -dz,
        ;
        if dz >= 0x1_0000_0000 {
            assert(dz * dz >= 0x1_0000_0000 * 0x1_0000_0000) by (nonlinear_arith)
                requires
                    dz >= 0x1_0000_0000,
            ;
        }
    }
    let l = if n >= 1024 && 200 * ones >= 97 * nn && 200 * ones <= 103 * nn && dz < 0x1_0000_0000
        && sq < nn {
        let mut d = crate::text::owned("Image LSBs are suspiciously fair (p1=");
        push_fixed(&mut d, round_div_exec(1000 * ones, nn), 3);
        push_str(&mut d, ", χ²=");
        push_fixed(&mut d, round_div_exec(100 * sq, nn), 2);
        push_str(&mut d, ") — possible LSB steganography");
        let sig = AnalysisSignal { kind: SignalKind::ImageStatisticalAnomaly, weight: 24, detail: d };
        assert(sig@.2 =~= spec_image_lsb_sig(b@).unwrap().2);
        Some(sig)
    } else {
        None
    };
    (e, l)
}

// ── PNG chunks ───────────────────────────────────────────────────────────

/// Big-endian 32-bit number at `b[i..i + 4]`.
pub open spec fn be32(b: Seq<u8>, i: int) -> int {
    b[i] as int * 16777216 + b[i + 1] as int * 65536 + b[i + 2] as int * 256 + b[i + 3] as int
}

/// The chunk type at `i` (bytes `i + 4 .. i + 8`) is the given four bytes.
pub open spec fn tag_is(b: Seq<u8>, i: int, t0: u8, t1: u8, t2: u8, t3: u8) -> bool {
    b[i + 4] == t0 && b[i + 5] == t1 && b[i + 6] == t2 && b[i + 7] == t3
}

/// Tallies of chunk data: (IDAT, ancillary, text chunks, large unknown).
pub type PngTally = (int, int, int, int);

/// What one chunk of data length `len` at `i` adds to the tallies.
pub open spec fn chunk_tally(b: Seq<u8>, i: int, len: int) -> PngTally {
    if tag_is(b, i, 0x49, 0x44, 0x41, 0x54) {
        (len, 0, 0, 0)
    } else if tag_is(b, i, 0x74, 0x45, 0x58, 0x74) || tag_is(b, i, 0x7A, 0x54, 0x58, 0x74)
        || tag_is(b, i, 0x69, 0x54, 0x58, 0x74) {
        (0, len, len, 0)
    } else if !(0x41 <= b[i + 4] <= 0x5A) {
        (0, len, 0, if len >= 4096 {
            len
        } else {
            0
        })
    } else {
        (0, 0, 0, 0)
    }
}

/// Chunk walk from offset `i` after `chunks` chunks: each chunk is a length,
/// a type, the data and a CRC; the walk stops at a chunk that does not fit,
/// after `IEND`, or after 10000 chunks.
pub open spec fn png_walk(b: Seq<u8>, i: int, chunks: int) -> PngTally
    decreases b.len() - i,
{
    if i < 0 || i + 12 > b.len() {
        (0, 0, 0, 0)
    } else {
        let len = be32(b, i);
        let end = i + 8 + len;
        if end + 4 > b.len() {
            (0, 0, 0, 0)
        } else {
            let here = chunk_tally(b, i, len);
            let rest = if tag_is(b, i, 0x49, 0x45, 0x4E, 0x44) || chunks + 1 > 10000 {
                (0, 0, 0, 0)
            } else {
                png_walk(b, end + 4, chunks + 1)
            };
            (here.0 + rest.0, here.1 + rest.1, here.2 + rest.2, here.3 + rest.3)
        }
    }
}

/// PNG container signals: text-chunk mass of 256 bytes or more; ancillary
/// mass of 4096 or more exceeding both twice the IDAT mass and 2048; and
/// 8192 or more bytes in large non-standard ancillary chunks.
pub open spec fn spec_png_signals(b: Seq<u8>) -> Seq<SigV> {
    let t = png_walk(b, 8, 0);
    let idat = t.0;
    let anc = t.1;
    let text = t.2;
    let big = t.3;
    let floor = if 2 * idat >= 2048 {
        2 * idat
    } else {
        2048
    };
    (if text >= 256 {
        seq![
            (
                SignalKind::ImageContainerAnomaly,
                if text >= 4096 {
                    30u8
                } else {
                    18u8
                },
                "PNG text/ztxt/itxt ancillary mass "@ + dec(text as nat)
                    + " bytes — possible hidden payload in metadata"@,
            ),
        ]
    } else {
        seq![]
    }) + (if b.len() > 0 && anc > floor && anc >= 4096 {
        seq![
            (
                SignalKind::ImageContainerAnomaly,
                26u8,
                "PNG ancillary mass "@ + dec(anc as nat) + "B dwarfs IDAT "@ + dec(idat as nat)
                    + "B — container stego / polyglot risk"@,
            ),
        ]
    } else {
        seq![]
    }) + (if big >= 8192 {
        seq![
            (
                SignalKind::ImageContainerAnomaly,
                22u8,
                "PNG has large non-standard ancillary chunk data ("@ + dec(big as nat) + "B)"@,
            ),
        ]
    } else {
        seq![]
    })
}

proof fn lemma_png_walk(b: Seq<u8>, i: int, chunks: int)
    requires
        i >= 0,
    ensures
        0 <= png_walk(b, i, chunks).0,
        0 <= png_walk(b, i, chunks).1,
        0 <= png_walk(b, i, chunks).2 <= png_walk(b, i, chunks).1,
        0 <= png_walk(b, i, chunks).3 <= png_walk(b, i, chunks).1,
        png_walk(b, i, chunks).0 + png_walk(b, i, chunks).1 <= if b.len() > i {
            b.len() - i
        } else {
            0
        },
    decreases b.len() - i,
{
    if i + 12 <= b.len() {
        let len = be32(b, i);
        let end = i + 8 + len;
        if end + 4 <= b.len() && !(tag_is(b, i, 0x49, 0x45, 0x4E, 0x44) || chunks + 1 > 10000) {
            lemma_png_walk(b, end + 4, chunks + 1);
        }
    }
}

fn tag_eq(b: &[u8], i: usize, t0: u8, t1: u8, t2: u8, t3: u8) -> (r: bool)
    requires
        i + 8 <= b@.len(),
    ensures
        r == tag_is(b@, i as int, t0, t1, t2, t3),
{
    let n = b.len();
    assert(i + 8 <= n);
    b[i + 4] == t0 && b[i + 5] == t1 && b[i + 6] == t2 && b[i + 7] == t3
}

fn png_signals(b: &[u8]) -> (r: Vec<AnalysisSignal>)
    ensures
        sig_views(r@) == spec_png_signals(b@),
{
    let n = b.len();
    let mut idat: u128 = 0;
    let mut anc: u128 = 0;
    let mut text: u128 = 0;
    let mut big: u128 = 0;
    let mut i: usize = 8;
    let mut chunks: usize = 0;
    let mut go = true;
    proof {
        lemma_png_walk(b@, 8, 0);
    }
    while go
        invariant
            n == b@.len(),
            8 <= i <= n + 8,
            chunks <= 10001,
            go ==> chunks <= 10000,
            go ==> (idat + png_walk(b@, i as int, chunks as int).0 == png_walk(b@, 8, 0).0 && anc
                + png_walk(b@, i as int, chunks as int).1 == png_walk(b@, 8, 0).1 && text
                + png_walk(b@, i as int, chunks as int).2 == png_walk(b@, 8, 0).2 && big
                + png_walk(b@, i as int, chunks as int).3 == png_walk(b@, 8, 0).3),
            !go ==> (idat == png_walk(b@, 8, 0).0 && anc == png_walk(b@, 8, 0).1 && text
                == png_walk(b@, 8, 0).2 && big == png_walk(b@, 8, 0).3),
            0 <= png_walk(b@, 8, 0).0,
            png_walk(b@, 8, 0).0 + png_walk(b@, 8, 0).1 <= n,
            0 <= png_walk(b@, 8, 0).3 <= png_walk(b@, 8, 0).1,
            0 <= png_walk(b@, 8, 0).2 <= png_walk(b@, 8, 0).1,
            idat <= n,
            anc <= n,
            text <= n,
            big <= n,
        decreases n + 9 - i + (if go {
            1int
        } else {
            0int
        }),
    {
        proof {
            lemma_png_walk(b@, i as int, chunks as int);
        }
        if i > n || n - i < 12 {
            go = false;
        } else {
            let len = (b[i] as u128) * 16777216 + (b[i + 1] as u128) * 65536 + (b[i + 2] as u128)
                * 256 + (b[i + 3] as u128);
            let end = (i as u128) + 8 + len;
            if end + 4 > n as u128 {
                go = false;
            } else {
                if tag_eq(b, i, 0x49, 0x44, 0x41, 0x54) {
                    idat = idat + len;
                } else if tag_eq(b, i, 0x74, 0x45, 0x58, 0x74) || tag_eq(b, i, 0x7A, 0x54, 0x58, 0x74)
                    || tag_eq(b, i, 0x69, 0x54, 0x58, 0x74) {
                    text = text + len;
                    anc = anc + len;
                } else if !(0x41 <= b[i + 4] && b[i + 4] <= 0x5A) {
                    anc = anc + len;
                    if len >= 4096 {
                        big = big + len;
                    }
                }
                chunks = chunks + 1;
                if tag_eq(b, i, 0x49, 0x45, 0x4E, 0x44) || chunks > 10000 {
                    go = false;
                } else {
                    i = (end + 4) as usize;
                    proof {
                        lemma_png_walk(b@, i as int, chunks as int);
                    }
                }
            }
        }
    }
    let mut out: Vec<AnalysisSignal> = Vec::new();
    let ghost s0 = sig_views(out@);
    if text >= 256 {
        let weight: u8 = if text >= 4096 {
            30
        } else {
            18
        };
        let mut d = crate::text::owned("PNG text/ztxt/itxt ancillary mass ");
        push_dec(&mut d, text);
        push_str(&mut d, " bytes — possible hidden payload in metadata");
        out.push(AnalysisSignal { kind: SignalKind::ImageContainerAnomaly, weight, detail: d });
    }
    let ghost s1 = sig_views(out@);
    let floor = if 2 * idat >= 2048 {
        2 * idat
    } else {
        2048
    };
    if n > 0 && anc > floor && anc >= 4096 {
        let mut d = crate::text::owned("PNG ancillary mass ");
        push_dec(&mut d, anc);
        push_str(&mut d, "B dwarfs IDAT ");
        push_dec(&mut d, idat);
        push_str(&mut d, "B — container stego / polyglot risk");
        out.push(AnalysisSignal { kind: SignalKind::ImageContainerAnomaly, weight: 26, detail: d });
    }
    let ghost s2 = sig_views(out@);
    if big >= 8192 {
        let mut d = crate::text::owned("PNG has large non-standard ancillary chunk data (");
        push_dec(&mut d, big);
        push_str(&mut d, "B)");
        out.push(AnalysisSignal { kind: SignalKind::ImageContainerAnomaly, weight: 22, detail: d });
    }
    assert(sig_views(out@) =~= spec_png_signals(b@));
    out
}

// ── JPEG trailer ─────────────────────────────────────────────────────────

/// First position at or after `p` of the end-of-image marker `FF D9`.
pub open spec fn eoi_from(b: Seq<u8>, p: int) -> Option<int>
    decreases b.len() - p,
{
    if p < 0 || p + 2 > b.len() {
        None
    } else if b[p] == 0xFF && b[p + 1] == 0xD9 {
        Some(p)
    } else {
        eoi_from(b, p + 1)
    }
}

/// 256 or more bytes after the first end-of-image marker; weight 28 from 4096.
pub open spec fn spec_jpeg_signals(b: Seq<u8>) -> Seq<SigV> {
    match eoi_from(b, 0) {
        Some(p) => {
            let tr = b.len() - (p + 2);
            if tr >= 256 {
                seq![
                    (
                        SignalKind::ImageContainerAnomaly,
                        if tr >= 4096 {
                            28u8
                        } else {
                            18u8
                        },
                        "JPEG has "@ + dec(tr as nat)
                            + " bytes after EOI — trailing stego/polyglot payload"@,
                    ),
                ]
            } else {
                seq![]
            }
        },
        None => seq![],
    }
}

proof fn lemma_eoi_from(b: Seq<u8>, p: int)
    requires
        p >= 0,
    ensures
        eoi_from(b, p) matches Some(q) ==> p <= q && q + 2 <= b.len(),
    decreases b.len() - p,
{
    if p + 2 <= b.len() && !(b[p] == 0xFF && b[p + 1] == 0xD9) {
        lemma_eoi_from(b, p + 1);
    }
}

fn jpeg_signals(b: &[u8]) -> (r: Vec<AnalysisSignal>)
    ensures
        sig_views(r@) == spec_jpeg_signals(b@),
{
    let mut out: Vec<AnalysisSignal> = Vec::new();
    let n = b.len();
    let mut p: usize = 0;
    proof {
        lemma_eoi_from(b@, 0);
    }
    while p < n && n - p >= 2 && !(b[p] == 0xFF && b[p + 1] == 0xD9)
        invariant
            n == b@.len(),
            p <= n,
            eoi_from(b@, p as int) == eoi_from(b@, 0),
        decreases n - p,
    {
        p = p + 1;
    }
    if p < n && n - p >= 2 {
        let tr = n - (p + 2);
        if tr >= 256 {
            let weight: u8 = if tr >= 4096 {
                28
            } else {
                18
            };
            let mut d = crate::text::owned("JPEG has ");
            push_dec(&mut d, tr as u128);
            push_str(&mut d, " bytes after EOI — trailing stego/polyglot payload");
            out.push(AnalysisSignal { kind: SignalKind::ImageContainerAnomaly, weight, detail: d });
        }
    }
    assert(sig_views(out@) =~= spec_jpeg_signals(b@));
    out
}

// ── report ───────────────────────────────────────────────────────────────

/// The MIME hint is present and mentions `needle`.
pub open spec fn mime_has(mime: Option<&str>, needle: Seq<char>) -> bool {
    match mime {
        Some(m) => contains_seq(m@, needle),
        None => false,
    }
}

fn mime_has_exec(mime: Option<&str>, needle: &str) -> (r: bool)
    ensures
        r == mime_has(mime, needle@),
{
    match mime {
        Some(m) => contains_vec(&chars_of(m), &chars_of(needle)),
        None => false,
    }
}

pub open spec fn is_png(b: Seq<u8>, mime: Option<&str>) -> bool {
    (b.len() >= 8 && b[0] == 0x89 && b[1] == 0x50 && b[2] == 0x4E && b[3] == 0x47 && b[4] == 0x0D
        && b[5] == 0x0A && b[6] == 0x1A && b[7] == 0x0A) || mime_has(mime, "png"@)
}

pub open spec fn is_jpeg(b: Seq<u8>, mime: Option<&str>) -> bool {
    (b.len() >= 3 && b[0] == 0xFF && b[1] == 0xD8 && b[2] == 0xFF) || mime_has(mime, "jpeg"@)
        || mime_has(mime, "jpg"@)
}

/// Signals of an image payload, in order: entropy, fair low bits, then the
/// PNG or JPEG container checks.
pub open spec fn spec_image_signals(b: Seq<u8>, mime: Option<&str>, micro: nat) -> Seq<SigV> {
    opt_seq(spec_image_entropy_sig(b, micro)) + opt_seq(spec_image_lsb_sig(b)) + if is_png(
        b,
        mime,
    ) {
        spec_png_signals(b)
    } else if is_jpeg(b, mime) {
        spec_jpeg_signals(b)
    } else {
        seq![]
    }
}

/// Report on an image payload; payloads under 32 bytes are not analyzed.
pub open spec fn spec_analyze_image(b: Seq<u8>, mime: Option<&str>, micro: nat) -> ReportV {
    if b.len() < 32 {
        empty_report()
    } else {
        report_of(spec_image_signals(b, mime, micro))
    }
}

/// Analyze raw image bytes with an optional MIME hint; `entropy_micro` is
/// the Shannon entropy of `bytes` in millionths of a bit per byte, rounded
/// down.
pub fn analyze_image_bytes(bytes: &[u8], mime: Option<&str>, entropy_micro: u32) -> (r:
    AnalysisReport)
    ensures
        r@ == spec_analyze_image(bytes@, mime, entropy_micro as nat),
{
    if bytes.len() < 32 {
        return AnalysisReport::empty();
    }
    let (e, l) = image_stat_signals(bytes, entropy_micro);
    let mut signals: Vec<AnalysisSignal> = Vec::new();
    push_opt(&mut signals, e);
    push_opt(&mut signals, l);
    let ghost head = sig_views(signals@);
    proof {
        lemma_opt_view(e, spec_image_entropy_sig(bytes@, entropy_micro as nat));
        lemma_opt_view(l, spec_image_lsb_sig(bytes@));
    }
    let png_sig = bytes.len() >= 8 && bytes[0] == 0x89 && bytes[1] == 0x50 && bytes[2] == 0x4E
        && bytes[3] == 0x47 && bytes[4] == 0x0D && bytes[5] == 0x0A && bytes[6] == 0x1A && bytes[7]
        == 0x0A;
    let mut tail = if png_sig || mime_has_exec(mime, "png") {
        png_signals(bytes)
    } else if (bytes.len() >= 3 && bytes[0] == 0xFF && bytes[1] == 0xD8 && bytes[2] == 0xFF)
        || mime_has_exec(mime, "jpeg") || mime_has_exec(mime, "jpg") {
        jpeg_signals(bytes)
    } else {
        Vec::new()
    };
    let ghost tv = sig_views(tail@);
    signals.append(&mut tail);
    assert(sig_views(signals@) =~= head + tv);
    assert(sig_views(signals@) =~= spec_image_signals(bytes@, mime, entropy_micro as nat));
    finish_report(signals)
}

// ── base64 ───────────────────────────────────────────────────────────────

/// Characters other than white space, with the URL-safe `-` and `_`
/// mapped to `+` and `/`.
pub open spec fn b64_prep(s: Seq<char>) -> Seq<char>
    decreases s.len(),
{
    if s.len() == 0 {
        seq![]
    } else {
        let r = b64_prep(s.drop_last());
        let c = s.last();
        if unicode_white_space(c) {
            r
        } else {
            r.push(
                if c == '-' {
                    '+'
                } else if c == '_' {
                    '/'
                } else {
                    c
                },
            )
        }
    }
}

/// Value of a character of the standard base64 alphabet.
pub open spec fn b64_val(c: char) -> Option<u8> {
    if 'A' <= c <= 'Z' {
        Some(((c as u32) - 65) as u8)
    } else if 'a' <= c <= 'z' {
        Some(((c as u32) - 97 + 26) as u8)
    } else if '0' <= c <= '9' {
        Some(((c as u32) - 48 + 52) as u8)
    } else if c == '+' {
        Some(62u8)
    } else if c == '/' {
        Some(63u8)
    } else {
        None
    }
}

/// Left-to-right scan: (no invalid character so far, values read, stopped
/// at `=` or at an invalid character).
pub open spec fn b64_scan(s: Seq<char>) -> (bool, Seq<u8>, bool)
    decreases s.len(),
{
    if s.len() == 0 {
        (true, seq![], false)
    } else {
        let (ok, v, stop) = b64_scan(s.drop_last());
        let c = s.last();
        if stop {
            (ok, v, stop)
        } else if c == '=' {
            (ok, v, true)
        } else {
            match b64_val(c) {
                Some(x) => (ok, v.push(x), false),
                None => (false, v, true),
            }
        }
    }
}

/// Bytes of a sequence of 6-bit values: each group of four gives three
/// bytes, a final group of three gives two, of two gives one.
pub open spec fn b64_bytes(v: Seq<u8>) -> Seq<u8>
    decreases v.len(),
{
    if v.len() >= 4 {
        seq![
            (v[0] * 4 + v[1] / 16) as u8,
            ((v[1] % 16) * 16 + v[2] / 4) as u8,
            ((v[2] % 4) * 64 + v[3]) as u8,
        ] + b64_bytes(v.skip(4))
    } else if v.len() == 3 {
        seq![(v[0] * 4 + v[1] / 16) as u8, ((v[1] % 16) * 16 + v[2] / 4) as u8]
    } else if v.len() == 2 {
        seq![(v[0] * 4 + v[1] / 16) as u8]
    } else {
        seq![]
    }
}

/// Decoding of standard or URL-safe base64, padding optional: input after
/// the first `=` is ignored; a character outside the alphabet before it
/// makes the input invalid.
pub open spec fn spec_decode_b64(data: Seq<char>) -> Option<Seq<u8>> {
    let (ok, v, _) = b64_scan(b64_prep(data));
    if ok {
        Some(b64_bytes(v))
    } else {
        None
    }
}

proof fn lemma_b64_scan_vals(s: Seq<char>)
    ensures
        forall|j: int| 0 <= j < b64_scan(s).1.len() ==> #[trigger] b64_scan(s).1[j] < 64,
    decreases s.len(),
{
    if s.len() > 0 {
        lemma_b64_scan_vals(s.drop_last());
        let c = s.last();
        let p = b64_scan(s.drop_last());
        if !p.2 && c != '=' {
            if let Some(x) = b64_val(c) {
                assert(x < 64);
                assert forall|j: int| 0 <= j < b64_scan(s).1.len() implies #[trigger] b64_scan(
                    s,
                ).1[j] < 64 by {
                    if j < p.1.len() {
                        assert(b64_scan(s).1[j] == p.1[j]);
                    }
                }
            }
        }
    }
}

fn b64_value(c: char) -> (r: Option<u8>)
    ensures
        r == b64_val(c),
{
    if 'A' <= c && c <= 'Z' {
        Some(((c as u32) - 65) as u8)
    } else if 'a' <= c && c <= 'z' {
        Some(((c as u32) - 97 + 26) as u8)
    } else if '0' <= c && c <= '9' {
        Some(((c as u32) - 48 + 52) as u8)
    } else if c == '+' {
        Some(62)
    } else if c == '/' {
        Some(63)
    } else {
        None
    }
}

/// Decode standard or URL-safe base64 (white space ignored, padding
/// optional); `None` when a character outside the alphabet comes before
/// any `=`.
pub fn decode_base64_image(data: &str) -> (r: Option<Vec<u8>>)
    ensures
        r matches Some(v) ==> spec_decode_b64(data@) == Some(v@),
        r is None ==> spec_decode_b64(data@) is None,
{
    let cs = chars_of(data);
    let mut prep: Vec<char> = Vec::new();
    let mut i: usize = 0;
    while i < cs.len()
        invariant
            i <= cs@.len(),
            prep@ == b64_prep(cs@.take(i as int)),
        decreases cs@.len() - i,
    {
        assert(cs@.take(i + 1).drop_last() =~= cs@.take(i as int));
        let c = cs[i];
        if !char_is_whitespace(c) {
            prep.push(
                if c == '-' {
                    '+'
                } else if c == '_' {
                    '/'
                } else {
                    c
                },
            );
        }
        i = i + 1;
    }
    assert(cs@.take(cs@.len() as int) =~= cs@);
    let mut ok = true;
    let mut vals: Vec<u8> = Vec::new();
    let mut stop = false;
    let mut j: usize = 0;
    while j < prep.len()
        invariant
            j <= prep@.len(),
            (ok, vals@, stop) == b64_scan(prep@.take(j as int)),
        decreases prep@.len() - j,
    {
        assert(prep@.take(j + 1).drop_last() =~= prep@.take(j as int));
        let c = prep[j];
        if !stop {
            if c == '=' {
                stop = true;
            } else {
                match b64_value(c) {
                    Some(x) => {
                        vals.push(x);
                    },
                    None => {
                        ok = false;
                        stop = true;
                    },
                }
            }
        }
        j = j + 1;
    }
    assert(prep@.take(prep@.len() as int) =~= prep@);
    if !ok {
        return None;
    }
    proof {
        lemma_b64_scan_vals(prep@);
    }
    let ghost v = vals@;
    let mut out: Vec<u8> = Vec::new();
    let mut k: usize = 0;
    assert(v.skip(0) =~= v);
    assert(out@ + b64_bytes(v.skip(0)) =~= b64_bytes(v));
    while vals.len() - k >= 4
        invariant
            v == vals@,
            k <= vals@.len(),
            forall|t: int| 0 <= t < v.len() ==> #[trigger] v[t] < 64,
            out@ + b64_bytes(v.skip(k as int)) == b64_bytes(v),
        decreases vals@.len() - k,
    {
        let a = vals[k];
        let b = vals[k + 1];
        let c = vals[k + 2];
        let d = vals[k + 3];
        let ghost w = v.skip(k as int);
        assert(w[0] == a && w[1] == b && w[2] == c && w[3] == d);
        assert(w.skip(4) =~= v.skip(k + 4));
        out.push(a * 4 + b / 16);
        out.push((b % 16) * 16 + c / 4);
        out.push((c % 4) * 64 + d);
        k = k + 4;
    }
    let rest = vals.len() - k;
    let ghost w = v.skip(k as int);
    if rest == 3 {
        assert(w[0] == vals[k as int] && w[1] == vals[k + 1] && w[2] == vals[k + 2]);
        out.push(vals[k] * 4 + vals[k + 1] / 16);
        out.push((vals[k + 1] % 16) * 16 + vals[k + 2] / 4);
    } else if rest == 2 {
        assert(w[0] == vals[k as int] && w[1] == vals[k + 1]);
        out.push(vals[k] * 4 + vals[k + 1] / 16);
    }
    assert(out@ =~= b64_bytes(v));
    Some(out)
}

// ── model note ───────────────────────────────────────────────────────────

/// A sanitize result that carries only an analysis report over `n` units.
pub open spec fn synthetic_result(n: usize, report: ReportV) -> ResultV {
    (seq![], seq![], n, n, report)
}

/// The note for an image whose analysis warns.
pub open spec fn spec_image_note(b: Seq<u8>, mime: Option<&str>, micro: nat) -> Option<
    Seq<char>,
> {
    let report = spec_analyze_image(b, mime, micro);
    if !spec_warns(report.1) {
        None
    } else {
        Some(spec_untrusted_note(synthetic_result(b.len() as usize, report), UntrustedSource::File))
    }
}

/// If the image analysis warns, a model-facing warning note (images are
/// treated as external files).
pub fn image_untrusted_note(bytes: &[u8], mime: Option<&str>, entropy_micro: u32) -> (r: Option<
    String,
>)
    ensures
        r matches Some(s) ==> spec_image_note(bytes@, mime, entropy_micro as nat) == Some(s@),
        r is None ==> spec_image_note(bytes@, mime, entropy_micro as nat) is None,
{
    let report = analyze_image_bytes(bytes, mime, entropy_micro);
    if !report.should_warn() {
        return None;
    }
    let synthetic = SanitizeResult {
        text: String::new(),
        hits: Vec::new(),
        original_len: bytes.len(),
        cleaned_len: bytes.len(),
        analysis: report,
    };
    assert(synthetic@ =~= synthetic_result(bytes@.len() as usize, synthetic.analysis@));
    Some(format_untrusted_note(&synthetic, UntrustedSource::File))
}

} // verus!
