use vstd::prelude::*;
use vstd::string::StringExecFns;
use crate::pcm::{pcm_of, bytes_to_pcm_i16, bytes_to_pcm_i16_drain_all};
use crate::natural::{from_u64, le, mul_small, value};

verus! {

/// `b` to the power `e`.
pub open spec fn power(b: int, e: nat) -> int
    decreases e,
{
    if e == 0 {
        1
    } else {
        b * power(b, (e - 1) as nat)
    }
}

/// A rate of one, in thousandths.
pub const UNIT_RATE: u32 = 1000;

/// The smallest step factor, 0.5, in millionths.
pub const MIN_FACTOR: u128 = 500_000;

/// The largest step factor, 2.0, in millionths.
pub const MAX_FACTOR: u128 = 2_000_000;

/// `n` steps of at most 1.35 each reach the rate (in thousandths): `1.35^n >= r` when
/// speeding up, `1.35^n >= 1 / r` when slowing down.
pub open spec fn steps_reach(rate: nat, n: nat) -> bool {
    if rate >= 1000 {
        rate * power(100, n) <= 1000 * power(135, n)
    } else {
        1000 * power(100, n) <= rate * power(135, n)
    }
}

/// The number of steps for a rate: the fewest, at least one, of at most 1.35 each, that
/// reach it (`ceil(log r / log 1.35)`).
pub open spec fn is_step_count(rate: nat, n: nat) -> bool {
    &&& n >= 1
    &&& steps_reach(rate, n)
    &&& forall|m: nat| 1 <= m < n ==> !#[trigger] steps_reach(rate, m)
}

/// `r^n` in millionths scaled to `n` factors: `f` millionths is the `n`-th root of the rate
/// when `f^n` equals it.
pub open spec fn root_target(rate: nat, n: nat) -> int {
    rate * 1000 * power(1_000_000, (n - 1) as nat)
}

/// The step factor for a rate over `n` steps, in millionths: `r^(1/n)` rounded down and
/// clamped to [0.5, 2.0].
pub open spec fn is_step_factor(f: int, rate: nat, n: nat) -> bool {
    let t = root_target(rate, n);
    if power(MAX_FACTOR as int, n) <= t {
        f == MAX_FACTOR
    } else if power(MIN_FACTOR as int, n) > t {
        f == MIN_FACTOR
    } else {
        MIN_FACTOR <= f < MAX_FACTOR && power(f, n) <= t < power(f + 1, n)
    }
}

proof fn lemma_power_add(b: int, x: nat, y: nat)
    ensures
        power(b, x + y) == power(b, x) * power(b, y),
    decreases x,
{
    if x > 0 {
        lemma_power_add(b, (x - 1) as nat, y);
        assert(power(b, x + y) == b * power(b, (x - 1 + y) as nat));
        assert(b * (power(b, (x - 1) as nat) * power(b, y)) == (b * power(b, (x - 1) as nat)) * power(
            b,
            y,
        )) by (nonlinear_arith);
    }
}

proof fn lemma_power_nonneg(b: int, e: nat)
    requires
        b >= 0,
    ensures
        power(b, e) >= 0,
    decreases e,
{
    if e > 0 {
        lemma_power_nonneg(b, (e - 1) as nat);
        assert(b * power(b, (e - 1) as nat) >= 0) by (nonlinear_arith)
            requires
                b >= 0,
                power(b, (e - 1) as nat) >= 0,
        ;
    }
}

/// Three steps of 1.35 more than double: `1.35^(3m) >= 2^m`.
proof fn lemma_steps_double(m: nat)
    ensures
        power(135, 3 * m) >= power(2, m) * power(100, 3 * m),
    decreases m,
{
    if m > 0 {
        let k = (m - 1) as nat;
        lemma_steps_double(k);
        lemma_power_add(135, 3, 3 * k);
        lemma_power_add(100, 3, 3 * k);
        assert(3 * m == 3 + 3 * k);
        assert(power(135, 3) == 2460375) by {
            assert(power(135, 0) == 1);
            assert(power(135, 1) == 135);
            assert(power(135, 2) == 135 * 135);
        }
        assert(power(100, 3) == 1000000) by {
            assert(power(100, 0) == 1);
            assert(power(100, 1) == 100);
            assert(power(100, 2) == 100 * 100);
        }
        assert(power(2, m) == 2 * power(2, k));
        lemma_power_nonneg(2, k);
        lemma_power_nonneg(100, 3 * k);
        let a = power(135, 3 * k);
        let p2 = power(2, k);
        let p1 = power(100, 3 * k);
        assert(2460375 * a >= (2 * p2) * (1000000 * p1)) by (nonlinear_arith)
            requires
                a >= p2 * p1,
                p2 >= 0,
                p1 >= 0,
        ;
    }
}

/// Sixty-nine steps of 1.35 reach every rate that a `u32` of thousandths holds.
proof fn lemma_steps_reach_all(rate: nat)
    requires
        1 <= rate <= 0xffff_ffff,
    ensures
        steps_reach(rate, 69),
{
    lemma_steps_double(23);
    assert(power(2, 0) == 1);
    assert(power(2, 1) == 2 * power(2, 0));
    assert(power(2, 2) == 2 * power(2, 1));
    assert(power(2, 3) == 2 * power(2, 2));
    assert(power(2, 4) == 2 * power(2, 3));
    assert(power(2, 5) == 2 * power(2, 4));
    assert(power(2, 6) == 2 * power(2, 5));
    assert(power(2, 7) == 2 * power(2, 6));
    assert(power(2, 8) == 2 * power(2, 7));
    assert(power(2, 9) == 2 * power(2, 8));
    assert(power(2, 10) == 2 * power(2, 9));
    assert(power(2, 11) == 2 * power(2, 10));
    assert(power(2, 12) == 2 * power(2, 11));
    assert(power(2, 13) == 2 * power(2, 12));
    assert(power(2, 14) == 2 * power(2, 13));
    assert(power(2, 15) == 2 * power(2, 14));
    assert(power(2, 16) == 2 * power(2, 15));
    assert(power(2, 17) == 2 * power(2, 16));
    assert(power(2, 18) == 2 * power(2, 17));
    assert(power(2, 19) == 2 * power(2, 18));
    assert(power(2, 20) == 2 * power(2, 19));
    assert(power(2, 21) == 2 * power(2, 20));
    assert(power(2, 22) == 2 * power(2, 21));
    assert(power(2, 23) == 2 * power(2, 22));
    assert(power(2, 23) == 8388608);
    lemma_power_nonneg(100, 69);
    let p = power(100, 69);
    let q = power(135, 69);
    assert(q >= 8388608 * p);
    if rate >= 1000 {
        assert(rate * p <= 1000 * q) by (nonlinear_arith)
            requires
                q >= 8388608 * p,
                p >= 0,
                rate <= 0xffff_ffff,
        ;
    } else {
        assert(1000 * p <= rate * q) by (nonlinear_arith)
            requires
                q >= 8388608 * p,
                p >= 0,
                rate >= 1,
        ;
    }
}

/// `b` to the power `e`, as a natural number of limbs.
fn power_of(b: u32, e: u32) -> (r: Vec<u32>)
    ensures
        value(r@) == power(b as int, e as nat),
{
    let mut r = from_u64(1);
    let mut i: u32 = 0;
    while i < e
        invariant
            i <= e,
            value(r@) == power(b as int, i as nat),
        decreases e - i,
    {
        let ghost v = value(r@);
        r = mul_small(&r, b);
        proof {
            assert(power(b as int, (i + 1) as nat) == b * power(b as int, i as nat));
            assert(v * b == b * v) by (nonlinear_arith);
        }
        i = i + 1;
    }
    r
}

/// The number of tempo steps for a positive rate in thousandths.
pub fn tempo_step_count(rate: u32) -> (n: u32)
    requires
        rate >= 1,
    ensures
        is_step_count(rate as nat, n as nat),
        n <= 69,
{
    let mut n: u32 = 1;
    loop
        invariant
            rate >= 1,
            1 <= n <= 69,
            forall|m: nat| 1 <= m < n ==> !#[trigger] steps_reach(rate as nat, m),
        decreases 69 - n,
    {
        let p100 = power_of(100, n);
        let p135 = power_of(135, n);
        let reach = if rate >= UNIT_RATE {
            le(&mul_small(&p100, rate), &mul_small(&p135, 1000))
        } else {
            le(&mul_small(&p100, 1000), &mul_small(&p135, rate))
        };
        proof {
            let a = power(100, n as nat);
            let b = power(135, n as nat);
            assert(a * rate == rate * a && b * 1000 == 1000 * b && a * 1000 == 1000 * a && b * rate
                == rate * b) by (nonlinear_arith);
            assert(reach == steps_reach(rate as nat, n as nat));
        }
        if reach {
            return n;
        }
        proof {
            if n == 69 {
                lemma_steps_reach_all(rate as nat);
            }
        }
        n = n + 1;
    }
}

/// The step factor over `n` steps for a positive rate in thousandths, in millionths.
pub fn tempo_step_factor(rate: u32, n: u32) -> (f: u128)
    requires
        rate >= 1,
        n >= 1,
    ensures
        is_step_factor(f as int, rate as nat, n as nat),
{
    let t = mul_small(&mul_small(&power_of(1_000_000, n - 1), rate), 1000);
    proof {
        let p = power(1_000_000, (n - 1) as nat);
        assert(p * rate * 1000 == rate * 1000 * p) by (nonlinear_arith);
    }
    let top = power_of(2_000_000, n);
    if le(&top, &t) {
        return MAX_FACTOR;
    }
    let bottom = power_of(500_000, n);
    if !le(&bottom, &t) {
        return MIN_FACTOR;
    }
    let mut lo: u32 = 500_000;
    let mut hi: u32 = 2_000_000;
    while hi - lo > 1
        invariant
            500_000 <= lo < hi <= 2_000_000,
            value(t@) == root_target(rate as nat, n as nat),
            power(lo as int, n as nat) <= root_target(rate as nat, n as nat) < power(hi as int, n as nat),
        decreases hi - lo,
    {
        let mid = lo + (hi - lo) / 2;
        if le(&power_of(mid, n), &t) {
            lo = mid;
        } else {
            hi = mid;
        }
    }
    lo as u128
}

/// Splits a rate in thousandths into equal tempo steps, each factor in millionths; a rate of
/// zero has no steps.
pub fn decompose_tempo_factors(rate: u32) -> (r: Vec<u128>)
    ensures
        rate == 0 ==> r@.len() == 0,
        rate > 0 ==> is_step_count(rate as nat, r@.len()),
        forall|i: int| 0 <= i < r@.len() ==> is_step_factor(#[trigger] r@[i] as int, rate as nat, r@.len()),
{
    if rate == 0 {
        return Vec::new();
    }
    let n = tempo_step_count(rate);
    let f = tempo_step_factor(rate, n);
    let mut r: Vec<u128> = Vec::new();
    let mut i: u32 = 0;
    while i < n
        invariant
            i <= n,
            r@.len() == i,
            forall|j: int| 0 <= j < i ==> #[trigger] r@[j] == f,
        decreases n - i,
    {
        r.push(f);
        i = i + 1;
    }
    r
}

/// Samples in one frame of adjusted audio: larger frames at higher rates.
pub open spec fn frame_samples_for(rate: nat) -> nat {
    if rate >= 3000 {
        24_576
    } else if rate >= 2000 {
        16_384
    } else {
        8_192
    }
}

/// The whole frames of `fb` bytes at the front of `b`, as samples.
pub open spec fn ready_frames(b: Seq<u8>, fb: nat) -> Seq<Seq<i16>> {
    Seq::new(b.len() / fb, |i: int| pcm_of(b.subrange(i * fb, (i + 1) * fb)))
}

/// The bytes left once the whole frames of `fb` bytes are taken from the front of `b`.
pub open spec fn after_frames(b: Seq<u8>, fb: nat) -> Seq<u8> {
    b.skip((b.len() / fb * fb) as int)
}

/// The bytes that the tempo process has written and that are not yet handed on as frames.
pub struct TempoFrameBuffer {
    pending: Vec<u8>,
    frame_samples: usize,
}

/// What a frame buffer holds: its pending bytes and its frame size in samples.
pub struct FrameBufferView {
    pub pending: Seq<u8>,
    pub frame_samples: nat,
}

impl View for TempoFrameBuffer {
    type V = FrameBufferView;

    closed spec fn view(&self) -> FrameBufferView {
        FrameBufferView { pending: self.pending@, frame_samples: self.frame_samples as nat }
    }
}

impl TempoFrameBuffer {
    /// The frame size is one of the three sizes that rates choose from.
    pub closed spec fn wf(&self) -> bool {
        self.frame_samples == 8_192 || self.frame_samples == 16_384 || self.frame_samples == 24_576
    }

    /// Bytes buffered.
    pub fn pending_len(&self) -> (r: usize)
        ensures
            r == self@.pending.len(),
    {
        self.pending.len()
    }

    /// An empty buffer framing audio adjusted to `rate` (in thousandths).
    pub fn new(rate: u32) -> (r: Self)
        ensures
            r.wf(),
            r@.pending == Seq::<u8>::empty(),
            r@.frame_samples == frame_samples_for(rate as nat),
    {
        let frame_samples: usize = if rate >= 3000 {
            24_576
        } else if rate >= 2000 {
            16_384
        } else {
            8_192
        };
        let r = TempoFrameBuffer { pending: Vec::new(), frame_samples };
        assert(r@.pending =~= Seq::<u8>::empty());
        r
    }

    pub fn frame_samples(&self) -> (r: usize)
        ensures
            r == self@.frame_samples,
    {
        self.frame_samples
    }

    /// Takes in bytes that the tempo process wrote.
    pub fn push_output(&mut self, bytes: &[u8])
        requires
            old(self).wf(),
            old(self)@.pending.len() + bytes@.len() <= usize::MAX,
        ensures
            final(self).wf(),
            final(self)@.frame_samples == old(self)@.frame_samples,
            final(self)@.pending == old(self)@.pending + bytes@,
    {
        let mut i: usize = 0;
        let ghost p0 = self.pending@;
        while i < bytes.len()
            invariant
                i <= bytes@.len(),
                self.pending@ == p0 + bytes@.take(i as int),
                p0.len() + bytes@.len() <= usize::MAX,
                self.wf(),
                self.frame_samples == old(self).frame_samples,
            decreases bytes@.len() - i,
        {
            self.pending.push(bytes[i]);
            assert(self.pending@ =~= p0 + bytes@.take(i + 1));
            i = i + 1;
        }
        assert(bytes@.take(bytes@.len() as int) =~= bytes@);
    }

    /// Hands on every whole frame that is buffered, oldest first, and keeps the rest.
    pub fn take_ready_frames(&mut self) -> (r: Vec<Vec<i16>>)
        requires
            old(self).wf(),
        ensures
            final(self).wf(),
            final(self)@.frame_samples == old(self)@.frame_samples,
            r@.map_values(|f: Vec<i16>| f@) == ready_frames(
                old(self)@.pending,
                2 * old(self)@.frame_samples,
            ),
            final(self)@.pending == after_frames(old(self)@.pending, 2 * old(self)@.frame_samples),
    {
        let fb: usize = self.frame_samples * 2;
        let len = self.pending.len();
        let ghost b = self.pending@;
        let mut frames: Vec<Vec<i16>> = Vec::new();
        let mut start: usize = 0;
        let mut k: usize = 0;
        while len - start >= fb
            invariant
                len == b.len(),
                b == self.pending@,
                fb == 2 * self.frame_samples,
                fb >= 2,
                start == k * fb,
                start <= len,
                k <= (len as nat) / (fb as nat),
                frames@.map_values(|f: Vec<i16>| f@) == ready_frames(b, fb as nat).take(k as int),
            decreases len - start,
        {
            let raw = vstd::slice::slice_subrange(self.pending.as_slice(), start, start + fb);
            let pcm = bytes_to_pcm_i16(raw);
            let ghost f0 = frames@;
            frames.push(pcm);
            proof {
                vstd::arithmetic::div_mod::lemma_fundamental_div_mod(len as int, fb as int);
                vstd::arithmetic::div_mod::lemma_mod_pos_bound(len as int, fb as int);
                assert(k < (len as nat) / (fb as nat)) by (nonlinear_arith)
                    requires
                        k * fb + fb <= len,
                        fb > 0,
                        len == fb * ((len as nat) / (fb as nat)) + (len as nat) % (fb as nat),
                        (len as nat) % (fb as nat) < fb,
                ;
                assert((k + 1) * fb == k * fb + fb) by (nonlinear_arith);
                let rf = ready_frames(b, fb as nat);
                assert(raw@ == b.subrange(start as int, start + fb));
                assert(rf[k as int] == pcm_of(b.subrange(k * fb, (k + 1) * fb)));
                assert(rf[k as int] == pcm@);
                assert(frames@.map_values(|f: Vec<i16>| f@) =~= f0.map_values(|f: Vec<i16>| f@).push(
                    pcm@,
                ));
                assert(rf.take(k + 1) =~= rf.take(k as int).push(rf[k as int]));
            }
            start = start + fb;
            k = k + 1;
        }
        proof {
            vstd::arithmetic::div_mod::lemma_fundamental_div_mod(len as int, fb as int);
            vstd::arithmetic::div_mod::lemma_mod_pos_bound(len as int, fb as int);
            assert(k == (len as nat) / (fb as nat)) by (nonlinear_arith)
                requires
                    len - k * fb < fb,
                    k <= (len as nat) / (fb as nat),
                    fb > 0,
                    len == fb * ((len as nat) / (fb as nat)) + (len as nat) % (fb as nat),
                    (len as nat) % (fb as nat) >= 0,
            ;
            assert(ready_frames(b, fb as nat).take(k as int) =~= ready_frames(b, fb as nat));
        }
        let rest = vstd::slice::slice_to_vec(
            vstd::slice::slice_subrange(self.pending.as_slice(), start, len),
        );
        self.pending = rest;
        assert(self.pending@ =~= after_frames(b, fb as nat));
        frames
    }

    /// Once the process has closed its output: the whole frames, then the whole samples
    /// that remain as one shorter frame when there are any.
    pub fn finish(&mut self) -> (r: Vec<Vec<i16>>)
        requires
            old(self).wf(),
        ensures
            final(self).wf(),
            final(self)@.frame_samples == old(self)@.frame_samples,
            ({
                let fb = 2 * old(self)@.frame_samples;
                let ready = ready_frames(old(self)@.pending, fb);
                let tail = pcm_of(after_frames(old(self)@.pending, fb));
                r@.map_values(|f: Vec<i16>| f@) == if tail.len() > 0 {
                    ready.push(tail)
                } else {
                    ready
                }
            }),
            final(self)@.pending.len() <= 1,
    {
        let mut frames = self.take_ready_frames();
        let trailing = bytes_to_pcm_i16_drain_all(&mut self.pending);
        if trailing.len() > 0 {
            let ghost f0 = frames@;
            frames.push(trailing);
            assert(frames@.map_values(|f: Vec<i16>| f@) =~= f0.map_values(|f: Vec<i16>| f@).push(
                trailing@,
            ));
        }
        frames
    }

    /// On cancellation: whatever is buffered is dropped.
    pub fn abort(&mut self)
        requires
            old(self).wf(),
        ensures
            final(self).wf(),
            final(self)@.frame_samples == old(self)@.frame_samples,
            final(self)@.pending == Seq::<u8>::empty(),
    {
        self.pending.clear();
        assert(self.pending@ =~= Seq::<u8>::empty());
    }
}

/// The frames joined into one run of samples.
pub open spec fn joined(frames: Seq<Seq<i16>>) -> Seq<i16>
    decreases frames.len(),
{
    if frames.len() == 0 {
        Seq::empty()
    } else {
        joined(frames.drop_last()) + frames.last()
    }
}

/// The frames joined into one run of samples, to be handed on as one audio chunk.
pub fn join_frames(frames: &Vec<Vec<i16>>) -> (r: Vec<i16>)
    ensures
        r@ == joined(frames@.map_values(|f: Vec<i16>| f@)),
{
    let ghost fs = frames@.map_values(|f: Vec<i16>| f@);
    let mut out: Vec<i16> = Vec::new();
    let mut k: usize = 0;
    while k < frames.len()
        invariant
            k <= frames@.len(),
            fs == frames@.map_values(|f: Vec<i16>| f@),
            out@ == joined(fs.take(k as int)),
        decreases frames@.len() - k,
    {
        assert(fs.take(k + 1).drop_last() =~= fs.take(k as int));
        let f = &frames[k];
        let ghost o0 = out@;
        let mut j: usize = 0;
        while j < f.len()
            invariant
                j <= f@.len(),
                out@ == o0 + f@.take(j as int),
            decreases f@.len() - j,
        {
            out.push(f[j]);
            assert(out@ =~= o0 + f@.take(j + 1));
            j = j + 1;
        }
        assert(f@.take(f@.len() as int) =~= f@);
        k = k + 1;
    }
    assert(fs.take(frames@.len() as int) =~= fs);
    out
}

/// The decimal digit `d`.
pub open spec fn digit_char(d: int) -> char {
    if d == 0 {
        '0'
    } else if d == 1 {
        '1'
    } else if d == 2 {
        '2'
    } else if d == 3 {
        '3'
    } else if d == 4 {
        '4'
    } else if d == 5 {
        '5'
    } else if d == 6 {
        '6'
    } else if d == 7 {
        '7'
    } else if d == 8 {
        '8'
    } else {
        '9'
    }
}

/// `n` written in decimal.
pub open spec fn decimal(n: nat) -> Seq<char>
    decreases n,
{
    if n < 10 {
        seq![digit_char(n as int)]
    } else {
        decimal(n / 10).push(digit_char((n % 10) as int))
    }
}

/// A value in millionths written with six decimal places.
pub open spec fn six_places(f: nat) -> Seq<char> {
    let x = f % 1_000_000;
    decimal(f / 1_000_000) + seq![
        '.',
        digit_char((x / 100_000) as int),
        digit_char((x / 10_000 % 10) as int),
        digit_char((x / 1000 % 10) as int),
        digit_char((x / 100 % 10) as int),
        digit_char((x / 10 % 10) as int),
        digit_char((x % 10) as int),
    ]
}

/// The arguments that make the effects process read and write headerless mono 16-bit
/// little-endian PCM at `sample_rate` on its standard input and output.
pub open spec fn raw_io_args(sample_rate: nat) -> Seq<Seq<char>> {
    seq![
        "-q"@,
        "-t"@,
        "raw"@,
        "-r"@,
        decimal(sample_rate),
        "-e"@,
        "signed-integer"@,
        "-b"@,
        "16"@,
        "-c"@,
        "1"@,
        "-L"@,
        "-"@,
        "-t"@,
        "raw"@,
        "-e"@,
        "signed-integer"@,
        "-b"@,
        "16"@,
        "-c"@,
        "1"@,
        "-L"@,
        "-"@,
    ]
}

/// One `tempo` effect for each step factor, in order.
pub open spec fn tempo_effect_args(factors: Seq<u128>) -> Seq<Seq<char>>
    decreases factors.len(),
{
    if factors.len() == 0 {
        Seq::empty()
    } else {
        tempo_effect_args(factors.drop_last()) + seq!["tempo"@, six_places(factors.last() as nat)]
    }
}

fn digit_of(d: u128) -> (c: char)
    requires
        d < 10,
    ensures
        c == digit_char(d as int),
{
    if d == 0 {
        '0'
    } else if d == 1 {
        '1'
    } else if d == 2 {
        '2'
    } else if d == 3 {
        '3'
    } else if d == 4 {
        '4'
    } else if d == 5 {
        '5'
    } else if d == 6 {
        '6'
    } else if d == 7 {
        '7'
    } else if d == 8 {
        '8'
    } else {
        '9'
    }
}

fn push_decimal(out: &mut Vec<char>, n: u128)
    ensures
        final(out)@ == old(out)@ + decimal(n as nat),
    decreases n,
{
    if n >= 10 {
        push_decimal(out, n / 10);
    }
    out.push(digit_of(n % 10));
    assert(out@ =~= old(out)@ + decimal(n as nat));
}

/// `n` written in decimal.
pub fn decimal_string(n: u128) -> (r: String)
    ensures
        r@ == decimal(n as nat),
{
    let mut v: Vec<char> = Vec::new();
    push_decimal(&mut v, n);
    assert(v@ =~= decimal(n as nat));
    crate::text::string_of(&v)
}

/// A value in millionths written with six decimal places.
pub fn six_places_string(f: u128) -> (r: String)
    ensures
        r@ == six_places(f as nat),
{
    let mut v: Vec<char> = Vec::new();
    push_decimal(&mut v, f / 1_000_000);
    let x = f % 1_000_000;
    v.push('.');
    v.push(digit_of(x / 100_000));
    v.push(digit_of(x / 10_000 % 10));
    v.push(digit_of(x / 1000 % 10));
    v.push(digit_of(x / 100 % 10));
    v.push(digit_of(x / 10 % 10));
    v.push(digit_of(x % 10));
    assert(v@ =~= six_places(f as nat));
    crate::text::string_of(&v)
}

/// The arguments of the effects process that stretches the tempo by `factors` (in
/// millionths) in turn, reading and writing raw PCM at `sample_rate`.
pub fn tempo_process_args(sample_rate: u32, factors: &Vec<u128>) -> (r: Vec<String>)
    ensures
        r@.map_values(|a: String| a@) == raw_io_args(sample_rate as nat) + tempo_effect_args(
            factors@,
        ),
{
    let mut r: Vec<String> = Vec::new();
    r.push(String::from_str("-q"));
    r.push(String::from_str("-t"));
    r.push(String::from_str("raw"));
    r.push(String::from_str("-r"));
    r.push(decimal_string(sample_rate as u128));
    r.push(String::from_str("-e"));
    r.push(String::from_str("signed-integer"));
    r.push(String::from_str("-b"));
    r.push(String::from_str("16"));
    r.push(String::from_str("-c"));
    r.push(String::from_str("1"));
    r.push(String::from_str("-L"));
    r.push(String::from_str("-"));
    r.push(String::from_str("-t"));
    r.push(String::from_str("raw"));
    r.push(String::from_str("-e"));
    r.push(String::from_str("signed-integer"));
    r.push(String::from_str("-b"));
    r.push(String::from_str("16"));
    r.push(String::from_str("-c"));
    r.push(String::from_str("1"));
    r.push(String::from_str("-L"));
    r.push(String::from_str("-"));
    let ghost base = raw_io_args(sample_rate as nat);
    assert(r@.map_values(|a: String| a@) =~= base);
    let mut k: usize = 0;
    while k < factors.len()
        invariant
            k <= factors@.len(),
            r@.map_values(|a: String| a@) == base + tempo_effect_args(factors@.take(k as int)),
        decreases factors@.len() - k,
    {
        assert(factors@.take(k + 1).drop_last() =~= factors@.take(k as int));
        let ghost r0 = r@.map_values(|a: String| a@);
        let t = String::from_str("tempo");
        let f = six_places_string(factors[k]);
        r.push(t);
        r.push(f);
        assert(r@.map_values(|a: String| a@) =~= r0 + seq![t@, f@]);
        assert(base + tempo_effect_args(factors@.take(k + 1)) =~= base + tempo_effect_args(
            factors@.take(k as int),
        ) + seq!["tempo"@, six_places(factors@[k as int] as nat)]);
        k = k + 1;
    }
    assert(factors@.take(factors@.len() as int) =~= factors@);
    r
}

} // verus!
