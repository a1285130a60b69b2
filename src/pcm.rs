use vstd::prelude::*;

verus! {

/// Fixed-point scale of a model sample: a sample of 1.0 is `SAMPLE_ONE`.
pub const SAMPLE_ONE: i64 = 1_000_000;

/// Fixed-point scale of a gain: a gain of 1.0 is `GAIN_ONE`.
pub const GAIN_ONE: u32 = 1000;

/// The largest gain, 2.0.
pub const MAX_GAIN: u32 = 2000;

/// The largest magnitude of a quantized sample.
pub const PCM_FULL_SCALE: i64 = 32767;

/// The low byte of a sample in little-endian order.
pub open spec fn low_byte(x: i16) -> u8 {
    ((x as int + 65536) % 256) as u8
}

/// The high byte of a sample in little-endian order.
pub open spec fn high_byte(x: i16) -> u8 {
    (((x as int + 65536) % 65536) / 256) as u8
}

/// The sample that two little-endian bytes hold.
pub open spec fn sample_of(lo: u8, hi: u8) -> int {
    let v = lo as int + 256 * hi as int;
    if v >= 32768 {
        v - 65536
    } else {
        v
    }
}

/// The samples as 16-bit little-endian bytes, two for each.
pub open spec fn le_bytes(s: Seq<i16>) -> Seq<u8> {
    Seq::new(
        2 * s.len(),
        |k: int|
            if k % 2 == 0 {
                low_byte(s[k / 2])
            } else {
                high_byte(s[k / 2])
            },
    )
}

/// The samples that the bytes hold, two bytes each; an odd last byte is left out.
pub open spec fn pcm_of(b: Seq<u8>) -> Seq<i16> {
    Seq::new(b.len() / 2, |i: int| sample_of(b[2 * i], b[2 * i + 1]) as i16)
}

/// Division rounded to the nearest integer, halves away from zero.
pub open spec fn round_div(v: int, d: int) -> int {
    if v >= 0 {
        (2 * v + d) / (2 * d)
    } else {
        -((-2 * v + d) / (2 * d))
    }
}

pub open spec fn clamp(v: int, lo: int, hi: int) -> int {
    if v < lo {
        lo
    } else if v > hi {
        hi
    } else {
        v
    }
}

/// A model sample (scaled by `SAMPLE_ONE`) times the gain (scaled by `GAIN_ONE`), clamped
/// to [-1, 1], as a 16-bit sample: `round(clamp(sample * gain) * 32767)`.
pub open spec fn quantize(sample: int, gain: int) -> int {
    let full = SAMPLE_ONE * GAIN_ONE;
    round_div(clamp(sample * gain, -full, full) * PCM_FULL_SCALE, full)
}

/// The gain that a volume gives: the volume clamped to [0, 2].
pub open spec fn gain_of(volume: int) -> int {
    clamp(volume, 0, MAX_GAIN as int)
}

/// Samples as 16-bit little-endian bytes.
pub fn pcm_i16_to_le_bytes(samples: &[i16]) -> (r: Vec<u8>)
    requires
        2 * samples@.len() <= usize::MAX,
    ensures
        r@ == le_bytes(samples@),
{
    let mut bytes: Vec<u8> = Vec::new();
    let mut i: usize = 0;
    while i < samples.len()
        invariant
            i <= samples@.len(),
            2 * samples@.len() <= usize::MAX,
            bytes@ == le_bytes(samples@.take(i as int)),
        decreases samples@.len() - i,
    {
        let x = samples[i];
        let u: u32 = if x < 0 {
            (x as i32 + 65536) as u32
        } else {
            x as u32
        };
        let lo = (u % 256) as u8;
        let hi = (u / 256) as u8;
        let ghost b0 = bytes@;
        bytes.push(lo);
        bytes.push(hi);
        proof {
            let t = samples@.take(i + 1);
            assert(t[i as int] == x);
            assert(lo == low_byte(x));
            assert(hi == high_byte(x));
            assert forall|k: int| 0 <= k < 2 * t.len() implies bytes@[k] == le_bytes(t)[k] by {
                if k < 2 * i {
                    assert(b0[k] == le_bytes(samples@.take(i as int))[k]);
                    assert(t[k / 2] == samples@.take(i as int)[k / 2]);
                }
            }
            assert(bytes@ =~= le_bytes(t));
        }
        i = i + 1;
    }
    assert(samples@.take(samples@.len() as int) =~= samples@);
    bytes
}

/// The 16-bit little-endian samples that `bytes` holds; an odd last byte is left out.
pub fn bytes_to_pcm_i16(bytes: &[u8]) -> (r: Vec<i16>)
    ensures
        r@ == pcm_of(bytes@),
{
    let blen = bytes.len();
    let n = blen / 2;
    let mut out: Vec<i16> = Vec::new();
    let mut i: usize = 0;
    while i < n
        invariant
            i <= n,
            blen == bytes@.len(),
            n == blen / 2,
            out@ =~= pcm_of(bytes@).take(i as int),
        decreases n - i,
    {
        assert(2 * i + 1 < blen) by (nonlinear_arith)
            requires
                i < n,
                n == blen / 2,
        ;
        let lo = bytes[2 * i];
        let hi = bytes[2 * i + 1];
        let v: i32 = lo as i32 + 256 * hi as i32;
        let w: i32 = if v >= 32768 {
            v - 65536
        } else {
            v
        };
        out.push(w as i16);
        assert(out@ =~= pcm_of(bytes@).take(i + 1));
        i = i + 1;
    }
    out
}

/// Takes the whole samples out of the front of `buffer`, leaving an odd last byte there.
pub fn bytes_to_pcm_i16_drain_all(buffer: &mut Vec<u8>) -> (r: Vec<i16>)
    ensures
        r@ == pcm_of(old(buffer)@),
        final(buffer)@ == old(buffer)@.skip(2 * (old(buffer)@.len() / 2) as int),
{
    let even_len = buffer.len() - buffer.len() % 2;
    let r = bytes_to_pcm_i16(buffer.as_slice());
    let mut rest: Vec<u8> = Vec::new();
    let mut i: usize = even_len;
    while i < buffer.len()
        invariant
            even_len <= i <= buffer@.len(),
            rest@ == buffer@.subrange(even_len as int, i as int),
        decreases buffer@.len() - i,
    {
        rest.push(buffer[i]);
        assert(rest@ =~= buffer@.subrange(even_len as int, i + 1));
        i = i + 1;
    }
    *buffer = rest;
    r
}

/// One model sample through the gain, clamped and quantized.
pub fn quantize_sample(sample: i32, gain: u32) -> (r: i16)
    requires
        gain <= MAX_GAIN,
    ensures
        r as int == quantize(sample as int, gain as int),
{
    let full: i64 = SAMPLE_ONE * (GAIN_ONE as i64);
    proof {
        assert(-0x8000_0000 * 2000 <= sample * gain <= 0x7fff_ffff * 2000) by (nonlinear_arith)
            requires
                -0x8000_0000 <= sample <= 0x7fff_ffff,
                0 <= gain <= 2000,
        ;
    }
    let prod: i64 = (sample as i64) * (gain as i64);
    let c: i64 = if prod < -full {
        -full
    } else if prod > full {
        full
    } else {
        prod
    };
    let v: i64 = c * PCM_FULL_SCALE;
    let q: i64 = if v >= 0 {
        (2 * v + full) / (2 * full)
    } else {
        -((-2 * v + full) / (2 * full))
    };
    proof {
        assert(-PCM_FULL_SCALE <= q <= PCM_FULL_SCALE) by {
            if v >= 0 {
                assert((2 * v + full) / (2 * full) <= PCM_FULL_SCALE) by (nonlinear_arith)
                    requires
                        0 <= v <= full * 32767,
                        full == 1_000_000_000,
                ;
            } else {
                assert((-2 * v + full) / (2 * full) <= PCM_FULL_SCALE) by (nonlinear_arith)
                    requires
                        0 < -v <= full * 32767,
                        full == 1_000_000_000,
                ;
            }
        }
    }
    q as i16
}

/// Model samples (scaled by `SAMPLE_ONE`) through the gain of `volume` (scaled by
/// `GAIN_ONE`, clamped to [0, 2]), each clamped to [-1, 1] and quantized to 16 bits.
pub fn apply_gain(samples: &[i32], volume: u32) -> (r: Vec<i16>)
    ensures
        r@.len() == samples@.len(),
        forall|i: int|
            0 <= i < samples@.len() ==> r@[i] as int == quantize(
                #[trigger] samples@[i] as int,
                gain_of(volume as int),
            ),
{
    let gain: u32 = if volume > MAX_GAIN {
        MAX_GAIN
    } else {
        volume
    };
    let mut out: Vec<i16> = Vec::new();
    let mut i: usize = 0;
    while i < samples.len()
        invariant
            i <= samples@.len(),
            gain as int == gain_of(volume as int),
            out@.len() == i,
            forall|j: int|
                0 <= j < i ==> out@[j] as int == quantize(
                    #[trigger] samples@[j] as int,
                    gain as int,
                ),
        decreases samples@.len() - i,
    {
        let q = quantize_sample(samples[i], gain);
        out.push(q);
        i = i + 1;
    }
    out
}

/// Whatever the samples, a gain within [0, 2] gives 16-bit samples within
/// [-32767, 32767], and a gain of zero gives silence.
pub proof fn lemma_quantize_bounds(sample: int, gain: int)
    requires
        0 <= gain <= MAX_GAIN,
    ensures
        -PCM_FULL_SCALE <= quantize(sample, gain) <= PCM_FULL_SCALE,
        gain == 0 ==> quantize(sample, gain) == 0,
{
    let full = SAMPLE_ONE * GAIN_ONE;
    let c = clamp(sample * gain, -full, full);
    let v = c * PCM_FULL_SCALE;
    if v >= 0 {
        assert((2 * v + full) / (2 * full) <= PCM_FULL_SCALE) by (nonlinear_arith)
            requires
                0 <= v <= full * 32767,
                full == 1_000_000_000,
        ;
    } else {
        assert((-2 * v + full) / (2 * full) <= PCM_FULL_SCALE) by (nonlinear_arith)
            requires
                0 < -v <= full * 32767,
                full == 1_000_000_000,
        ;
    }
    if gain == 0 {
        assert(sample * gain == 0);
    }
}

/// Length of the resampled audio: `round(len / rate)` with `rate = num / den`, at least one.
pub open spec fn resampled_len(len: nat, num: nat, den: nat) -> nat {
    let l = (2 * len * den + num) / (2 * num);
    if l < 1 {
        1
    } else {
        l as nat
    }
}

/// Output sample `i` at `rate = num / den`: the input read at position `i * rate` by
/// linear interpolation between the samples on each side (indices kept within the input),
/// rounded and clamped to the 16-bit range.
pub open spec fn resampled_at(x: Seq<i16>, i: int, num: int, den: int) -> i16 {
    let last = x.len() - 1;
    let p = i * num;
    let left = if p / den < last {
        p / den
    } else {
        last
    };
    let right = if left + 1 < last {
        left + 1
    } else {
        last
    };
    let f = clamp(p - left * den, 0, den);
    let v = x[left] * den + (x[right] - x[left]) * f;
    clamp(round_div(v, den), -32768, 32767) as i16
}

/// The input played at `rate = num / den` by linear interpolation; a rate of one leaves it
/// as it is.
pub open spec fn resampled(x: Seq<i16>, num: nat, den: nat) -> Seq<i16> {
    if x.len() == 0 {
        Seq::empty()
    } else if num == den {
        x
    } else {
        Seq::new(resampled_len(x.len(), num, den), |i: int| resampled_at(x, i, num as int, den as int))
    }
}

/// Plays `input` at `rate_num / rate_den` times its speed by linear interpolation, which
/// shifts the pitch too.
pub fn resample_pcm_by_rate(input: &[i16], rate_num: u32, rate_den: u32) -> (r: Vec<i16>)
    requires
        rate_num > 0,
        rate_den > 0,
        input@.len() * rate_den < usize::MAX * rate_num,
    ensures
        r@ == resampled(input@, rate_num as nat, rate_den as nat),
{
    let len = input.len();
    if len == 0 {
        return Vec::new();
    }
    if rate_num == rate_den {
        return vstd::slice::slice_to_vec(input);
    }
    let num = rate_num as u128;
    let den = rate_den as u128;
    proof {
        assert((2 * len) * den <= 0x1_ffff_ffff_ffff_fffe * 0xffff_ffff) by (nonlinear_arith)
            requires
                len <= 0xffff_ffff_ffff_ffff,
                den <= 0xffff_ffff,
        ;
    }
    let l: u128 = (2 * (len as u128) * den + num) / (2 * num);
    proof {
        assert(l <= usize::MAX) by (nonlinear_arith)
            requires
                l == (2 * len * den + num) / (2 * num),
                len * den < usize::MAX * num,
                num > 0,
        ;
    }
    let out_len: usize = if l < 1 {
        1
    } else {
        l as usize
    };
    let last: usize = len - 1;
    let mut out: Vec<i16> = Vec::new();
    let mut i: usize = 0;
    while i < out_len
        invariant
            i <= out_len,
            out_len == resampled_len(len as nat, rate_num as nat, rate_den as nat),
            len == input@.len(),
            len > 0,
            last == len - 1,
            num == rate_num,
            den == rate_den,
            num > 0,
            den > 0,
            out@.len() == i,
            forall|j: int|
                0 <= j < i ==> #[trigger] out@[j] == resampled_at(input@, j, num as int, den as int),
        decreases out_len - i,
    {
        proof {
            assert(i * num <= 0xffff_ffff_ffff_ffff * 0xffff_ffff) by (nonlinear_arith)
                requires
                    i <= 0xffff_ffff_ffff_ffff,
                    num <= 0xffff_ffff,
            ;
        }
        let p: u128 = (i as u128) * num;
        let fl: u128 = p / den;
        let left: usize = if fl < last as u128 {
            fl as usize
        } else {
            last
        };
        let right: usize = if left + 1 < last {
            left + 1
        } else {
            last
        };
        proof {
            assert(left * den <= p) by (nonlinear_arith)
                requires
                    left <= fl,
                    fl == p / den,
                    den > 0,
            ;
        }
        let d: u128 = p - (left as u128) * den;
        let f: u128 = if d > den {
            den
        } else {
            d
        };
        let a: i128 = input[left] as i128;
        let b: i128 = input[right] as i128;
        let dd: i128 = den as i128;
        let ff: i128 = f as i128;
        proof {
            assert(-0x10000 * 0xffff_ffff <= (b - a) * ff <= 0x10000 * 0xffff_ffff) by (nonlinear_arith)
                requires
                    -0x10000 <= b - a <= 0x10000,
                    0 <= ff <= 0xffff_ffff,
            ;
            assert(-0x8000 * 0xffff_ffff <= a * dd <= 0x8000 * 0xffff_ffff) by (nonlinear_arith)
                requires
                    -0x8000 <= a <= 0x8000,
                    0 <= dd <= 0xffff_ffff,
            ;
        }
        let v: i128 = a * dd + (b - a) * ff;
        let q: i128 = if v >= 0 {
            (2 * v + dd) / (2 * dd)
        } else {
            -((-2 * v + dd) / (2 * dd))
        };
        let c: i128 = if q < -32768 {
            -32768
        } else if q > 32767 {
            32767
        } else {
            q
        };
        out.push(c as i16);
        proof {
            assert(p / den == fl);
            assert(out@[i as int] == resampled_at(input@, i as int, num as int, den as int));
        }
        i = i + 1;
    }
    proof {
        assert(out@ =~= resampled(input@, rate_num as nat, rate_den as nat));
    }
    out
}

/// At a rate of one the resampler hands the audio back unchanged.
pub proof fn lemma_resample_unit_rate(x: Seq<i16>, n: nat)
    requires
        n > 0,
    ensures
        resampled(x, n, n) == x,
{
}

proof fn lemma_div_bounds(x: int, d: int)
    requires
        d > 0,
        x >= 0,
    ensures
        d * (x / d) <= x < d * (x / d) + d,
{
    vstd::arithmetic::div_mod::lemma_fundamental_div_mod(x, d);
    vstd::arithmetic::div_mod::lemma_mod_pos_bound(x, d);
}

/// Resampling audio by a rate within [1/4, 2] and back by the inverse rate gives back its
/// length to within one sample.
pub proof fn lemma_resample_round_trip_len(x: Seq<i16>, num: nat, den: nat)
    requires
        num > 0,
        num <= 2 * den,
        den <= 4 * num,
    ensures
        resampled(resampled(x, num, den), den, num).len() <= x.len() + 1,
        x.len() <= resampled(resampled(x, num, den), den, num).len() + 1,
{
    let l = x.len() as int;
    if l == 0 || num == den {
        return;
    }
    let a = 2 * l * den + num;
    let q1 = a / (2 * num as int);
    lemma_div_bounds(a, 2 * num as int);
    assert(q1 >= 1) by (nonlinear_arith)
        requires
            2 * num * q1 + 2 * num > a,
            a == 2 * l * den + num,
            0 < num <= 2 * den,
            l >= 1,
    ;
    let y = resampled(x, num, den);
    assert(y.len() == q1);
    let b = 2 * q1 * num + den;
    let q2 = b / (2 * den as int);
    lemma_div_bounds(b, 2 * den as int);
    assert(q2 <= l + 1) by (nonlinear_arith)
        requires
            2 * den * q2 <= b,
            b == 2 * q1 * num + den,
            2 * num * q1 <= a,
            a == 2 * l * den + num,
            0 < num <= 2 * den,
    ;
    assert(q2 + 1 >= l) by (nonlinear_arith)
        requires
            b < 2 * den * q2 + 2 * den,
            b == 2 * q1 * num + den,
            2 * num * q1 + 2 * num > a,
            a == 2 * l * den + num,
            0 < num <= 2 * den,
            den > 0,
    ;
    let z = resampled(y, den, num);
    if q2 < 1 {
        assert(z.len() == 1);
    } else {
        assert(z.len() == q2);
    }
}

proof fn lemma_sample_bytes(x: i16)
    ensures
        sample_of(low_byte(x), high_byte(x)) == x as int,
{
    let u = (x as int + 65536) % 65536;
    assert(0 <= u < 65536);
    assert(u == if x >= 0 { x as int } else { x as int + 65536 });
    assert(((x as int + 65536) % 256) == u % 256);
    assert(u % 256 + 256 * (u / 256) == u);
}

/// Samples written as little-endian bytes read back as the same samples.
pub proof fn lemma_le_bytes_round_trip(s: Seq<i16>)
    ensures
        pcm_of(le_bytes(s)) == s,
{
    let b = le_bytes(s);
    assert forall|i: int| 0 <= i < s.len() implies #[trigger] pcm_of(b)[i] == s[i] by {
        assert((2 * i) / 2 == i);
        assert((2 * i + 1) / 2 == i);
        assert((2 * i) % 2 == 0);
        assert((2 * i + 1) % 2 == 1);
        lemma_sample_bytes(s[i]);
    }
    assert(pcm_of(b) =~= s);
}

} // verus!
