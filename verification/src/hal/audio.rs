//! Audio source abstraction and energy voice-activity detection.
//!
//! `MockMic` generates a periodic square-wave burst pattern (quiet 200
//! samples, loud 80 samples) so the capture -> VAD -> counter pipeline can
//! run with no I2S hardware. A real microphone implements `AudioSource` and
//! swaps in unchanged.
use vstd::prelude::*;

verus! {

/// Mono PCM source. `read` fills the front of `buf` with i16 samples and
/// returns how many it wrote.
pub trait AudioSource {
    fn read(&mut self, buf: &mut [i16]) -> (n: usize)
        ensures
            final(buf)@.len() == old(buf)@.len(),
            n <= old(buf)@.len(),
    ;
}

/// RMS energy threshold (Q15-ish). ~512 = quiet room, ~4096 = loud voice.
pub const VAD_THRESHOLD: u32 = 2048;

/// The sum of the squared samples.
pub open spec fn spec_sum_sq(s: Seq<i16>) -> int
    decreases s.len(),
{
    if s.len() == 0 {
        0
    } else {
        spec_sum_sq(s.drop_last()) + s.last() * s.last()
    }
}

/// Voice activity: the RMS of the samples exceeds `VAD_THRESHOLD`, that is
/// the sum of squares exceeds `len * VAD_THRESHOLD^2`; never for an empty
/// buffer.
pub open spec fn spec_vad(s: Seq<i16>) -> bool {
    s.len() > 0 && spec_sum_sq(s) > s.len() * ((VAD_THRESHOLD as int) * (VAD_THRESHOLD as int))
}

proof fn lemma_sum_sq_nonneg(s: Seq<i16>)
    ensures
        spec_sum_sq(s) >= 0,
    decreases s.len(),
{
    if s.len() > 0 {
        lemma_sum_sq_nonneg(s.drop_last());
        let x = s.last() as int;
        assert(x * x >= 0) by (nonlinear_arith);
    }
}

/// True if the RMS energy of `buf` exceeds `VAD_THRESHOLD`. The sum of
/// squares is kept exactly (it needs at most 94 bits), so no rounding of the
/// mean decides the outcome.
pub fn vad_energy(buf: &[i16]) -> (r: bool)
    ensures
        r == spec_vad(buf@),
{
    if buf.len() == 0 {
        return false;
    }
    let mut acc: u128 = 0;
    let mut i: usize = 0;
    while i < buf.len()
        invariant
            i <= buf@.len(),
            acc as int == spec_sum_sq(buf@.subrange(0, i as int)),
            acc as int <= i * (32768 * 32768),
        decreases buf@.len() - i,
    {
        let v = buf[i] as i32;
        assert(v * v <= 32768 * 32768 && v * v >= 0) by (nonlinear_arith)
            requires
                -32768 <= v <= 32767,
        ;
        let sq = (v * v) as u128;
        proof {
            assert(buf@.subrange(0, i + 1).drop_last() == buf@.subrange(0, i as int));
            assert((i + 1) * (32768 * 32768) == i * (32768 * 32768) + 32768 * 32768) by (nonlinear_arith);
            assert(i * (32768 * 32768) <= 18446744073709551615 * (32768 * 32768)) by (nonlinear_arith)
                requires
                    i <= 18446744073709551615,
            ;
        }
        acc = acc + sq;
        i = i + 1;
    }
    assert(buf@.subrange(0, buf@.len() as int) == buf@);
    let len = buf.len() as u128;
    proof {
        assert(len * 4194304 <= 18446744073709551615 * 4194304) by (nonlinear_arith)
            requires
                len <= 18446744073709551615,
        ;
    }
    acc > len * (VAD_THRESHOLD as u128 * VAD_THRESHOLD as u128)
}

/// The sum of squares of samples that are each at most `m` in magnitude.
proof fn lemma_sum_sq_bounds(s: Seq<i16>, lo: int, hi: int)
    requires
        0 <= lo <= hi,
        forall|i: int| 0 <= i < s.len() ==> lo * lo <= #[trigger] s[i] * s[i] <= hi * hi,
    ensures
        s.len() * (lo * lo) <= spec_sum_sq(s) <= s.len() * (hi * hi),
    decreases s.len(),
{
    if s.len() > 0 {
        assert forall|i: int| 0 <= i < s.drop_last().len() implies lo * lo <= #[trigger] s.drop_last()[i]
            * s.drop_last()[i] <= hi * hi by {
            assert(s.drop_last()[i] == s[i]);
        }
        lemma_sum_sq_bounds(s.drop_last(), lo, hi);
        let n = s.len() as int;
        let x = s.last();
        assert(lo * lo <= x * x <= hi * hi) by {
            assert(s[n - 1] == x);
        }
        assert(n * (lo * lo) == (n - 1) * (lo * lo) + lo * lo) by (nonlinear_arith);
        assert(n * (hi * hi) == (n - 1) * (hi * hi) + hi * hi) by (nonlinear_arith);
        let prev = spec_sum_sq(s.drop_last());
        assert(s.drop_last().len() == n - 1);
        assert((n - 1) * (lo * lo) <= prev <= (n - 1) * (hi * hi));
        assert(spec_sum_sq(s) == prev + x * x);
        assert(n * (lo * lo) <= spec_sum_sq(s) <= n * (hi * hi));
    } else {
        assert(s.len() * (lo * lo) == 0) by (nonlinear_arith)
            requires
                s.len() == 0,
        ;
        assert(s.len() * (hi * hi) == 0) by (nonlinear_arith)
            requires
                s.len() == 0,
        ;
    }
}

/// Law: a buffer whose samples all stay within +-`VAD_THRESHOLD` never
/// counts as voice, and a non-empty buffer whose samples all exceed it in
/// magnitude always does.
pub proof fn lemma_vad_threshold(s: Seq<i16>)
    ensures
        (forall|i: int| 0 <= i < s.len() ==> -2048 <= #[trigger] s[i] <= 2048) ==> !spec_vad(s),
        (0 < s.len() && forall|i: int|
            0 <= i < s.len() ==> (#[trigger] s[i] > 2048 || s[i] < -2048)) ==> spec_vad(s),
{
    let n = s.len() as int;
    if forall|i: int| 0 <= i < s.len() ==> -2048 <= #[trigger] s[i] <= 2048 {
        assert forall|i: int| 0 <= i < s.len() implies 0 * 0 <= #[trigger] s[i] * s[i] <= 2048
            * 2048 by {
            let x = s[i] as int;
            assert(0 <= x * x <= 2048 * 2048) by (nonlinear_arith)
                requires
                    -2048 <= x <= 2048,
            ;
        }
        lemma_sum_sq_bounds(s, 0, 2048);
    }
    if 0 < s.len() && forall|i: int| 0 <= i < s.len() ==> (#[trigger] s[i] > 2048 || s[i] < -2048) {
        assert forall|i: int| 0 <= i < s.len() implies 2049 * 2049 <= #[trigger] s[i] * s[i]
            <= 32768 * 32768 by {
            let x = s[i] as int;
            assert(2049 * 2049 <= x * x <= 32768 * 32768) by (nonlinear_arith)
                requires
                    x > 2048 || x < -2048,
                    -32768 <= x <= 32767,
            ;
        }
        lemma_sum_sq_bounds(s, 2049, 32768);
        assert(n * (2049 * 2049) > n * (2048 * 2048)) by (nonlinear_arith)
            requires
                n > 0,
        ;
    }
}

// ─── mock microphone ────────────────────────────────

/// Counting on by one modulo `m`.
proof fn lemma_mod_succ(a: int, m: int)
    requires
        m > 0,
        a >= 0,
    ensures
        (a + 1) % m == if a % m == m - 1 {
            0
        } else {
            a % m + 1
        },
{
    let q = a / m;
    let r = a % m;
    vstd::arithmetic::div_mod::lemma_fundamental_div_mod(a, m);
    assert(0 <= r < m) by {
        vstd::arithmetic::div_mod::lemma_mod_pos_bound(a, m);
    }
    if r == m - 1 {
        assert((q + 1) * m == m * q + m) by (nonlinear_arith);
        vstd::arithmetic::div_mod::lemma_fundamental_div_mod_converse(a + 1, m, q + 1, 0);
    } else {
        assert(q * m == m * q) by (nonlinear_arith);
        vstd::arithmetic::div_mod::lemma_fundamental_div_mod_converse(a + 1, m, q, r + 1);
    }
}

/// Samples per quiet stretch.
pub const BURST_QUIET: usize = 200;
/// Samples per loud stretch.
pub const BURST_LOUD: usize = 80;
/// Length of one quiet + loud cycle.
pub const PERIOD: usize = BURST_QUIET + BURST_LOUD;

/// The sample the mock emits at position `p`: amplitude 200 in the quiet
/// part of each 280-sample cycle and 3277 (the loud burst's RMS) in the loud
/// part, with the sign flipping every 16 samples.
pub open spec fn spec_mock_sample(p: int) -> i16 {
    let amp: int = if p % 280 >= 200 { 3277 } else { 200 };
    (if (p / 16) % 2 == 0 { amp } else { -amp }) as i16
}

/// Law: in the quiet part of its cycle the mock stays within the voice
/// threshold, and in the loud part it exceeds it, so by
/// `lemma_vad_threshold` a buffer read entirely from one part is detected
/// as silence or as voice accordingly.
pub proof fn lemma_mock_levels(p: int)
    ensures
        p % 280 < 200 ==> -2048 <= spec_mock_sample(p) <= 2048,
        p % 280 >= 200 ==> (spec_mock_sample(p) > 2048 || spec_mock_sample(p) < -2048),
{
}

/// Mock mic: quiet 200 samples then loud 80 samples, looping; the loud
/// burst has an RMS of 3277 and so triggers the detector.
pub struct MockMic {
    pos: usize,
}

impl MockMic {
    /// The position of the next sample.
    pub closed spec fn position(&self) -> int {
        self.pos as int
    }

    /// A mock at the start of its pattern.
    pub fn new() -> (m: Self)
        ensures
            m.position() == 0,
    {
        Self { pos: 0 }
    }
}

impl AudioSource for MockMic {
    /// Fills all of `buf` with the pattern from the current position on; the
    /// position wraps at the end of the address range.
    fn read(&mut self, buf: &mut [i16]) -> (n: usize)
        ensures
            n == old(buf)@.len(),
            forall|i: int|
                0 <= i < n ==> final(buf)@[i] == spec_mock_sample(
                    (old(self).position() + i) % (usize::MAX as int + 1),
                ),
            final(self).position() == (old(self).position() + n) % (usize::MAX as int + 1),
    {
        let n = buf.len();
        let mut i: usize = 0;
        proof {
            vstd::arithmetic::div_mod::lemma_small_mod(self.pos as nat, (usize::MAX as int + 1) as nat);
        }
        while i < n
            invariant
                n == buf@.len(),
                n == old(buf)@.len(),
                i <= n,
                self.pos as int == (old(self).pos + i) % (usize::MAX as int + 1),
                forall|k: int|
                    0 <= k < i ==> buf@[k] == spec_mock_sample(
                        (old(self).pos + k) % (usize::MAX as int + 1),
                    ),
            decreases n - i,
        {
            let loud = self.pos % PERIOD >= BURST_QUIET;
            let amp: i32 = if loud { 3277 } else { 200 };
            let s = if (self.pos / 16) % 2 == 0 { amp } else { -amp };
            buf[i] = s as i16;
            proof {
                lemma_mod_succ(old(self).pos + i, usize::MAX as int + 1);
            }
            self.pos = self.pos.wrapping_add(1);
            i = i + 1;
        }
        n
    }
}

} // verus!
