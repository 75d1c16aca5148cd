use crate::error::{ImtError, ImtErrorSrc, ImtErrorTy};
use vstd::arithmetic::div_mod::{lemma_fundamental_div_mod, lemma_fundamental_div_mod_converse};
use vstd::arithmetic::power2::{lemma2_to64, lemma_pow2_strictly_increases, pow2};
use vstd::bits::lemma_u64_shl_is_mul;
use vstd::prelude::*;

verus! {

/// The greatest integer that is at most `n / d`, for a positive `d`.
pub open spec fn floor_div(n: int, d: int) -> int {
    n / d
}

/// The least integer that is at least `n / d`, for a positive `d`.
pub open spec fn ceil_div(n: int, d: int) -> int {
    -((-n) / d)
}

/// The floor lies at most one below the ratio, the ceiling at most one above,
/// and the two differ exactly where `d` does not divide `n`.
pub proof fn lemma_floor_ceil(n: int, d: int)
    requires
        d > 0,
    ensures
        floor_div(n, d) * d <= n < (floor_div(n, d) + 1) * d,
        (ceil_div(n, d) - 1) * d < n <= ceil_div(n, d) * d,
        floor_div(n, d) <= ceil_div(n, d) <= floor_div(n, d) + 1,
        floor_div(n, d) == ceil_div(n, d) <==> n % d == 0,
{
    lemma_fundamental_div_mod(n, d);
    lemma_fundamental_div_mod(-n, d);
    let q = n / d;
    let p = (-n) / d;
    assert(d * q + d == (q + 1) * d && d * q == q * d) by (nonlinear_arith);
    assert(d * p + d == (p + 1) * d && d * p == p * d && (-p - 1) * d == -(d * p) - d && (-p) * d
        == -(d * p)) by (nonlinear_arith);
    assert(q <= -p <= q + 1) by (nonlinear_arith)
        requires
            d > 0,
            q * d <= n < (q + 1) * d,
            (-p - 1) * d < n <= (-p) * d,
    ;
    if n % d == 0 {
        assert((-q) * d == -(q * d)) by (nonlinear_arith);
        lemma_fundamental_div_mod_converse(-n, d, -q, 0);
    } else if q == -p {
        assert((-n) % d == 0);
        assert(false);
    }
}

/// Both roundings grow with the numerator.
pub proof fn lemma_rounding_monotonic(a: int, b: int, d: int)
    requires
        d > 0,
        a <= b,
    ensures
        floor_div(a, d) <= floor_div(b, d),
        ceil_div(a, d) <= ceil_div(b, d),
{
    lemma_floor_ceil(a, d);
    lemma_floor_ceil(b, d);
    let fa = floor_div(a, d);
    let fb = floor_div(b, d);
    let ca = ceil_div(a, d);
    let cb = ceil_div(b, d);
    assert(fa <= fb) by (nonlinear_arith)
        requires
            d > 0,
            fa * d <= a,
            a <= b,
            b < (fb + 1) * d,
    ;
    assert(ca <= cb) by (nonlinear_arith)
        requires
            d > 0,
            (ca - 1) * d < a,
            a <= b,
            b <= cb * d,
    ;
}

/// Neither rounding of a ratio leaves the bounds of its numerator.
pub proof fn lemma_rounding_bounded(n: int, d: int, bound: int)
    requires
        d > 0,
        -bound <= n <= bound,
    ensures
        -bound <= floor_div(n, d) <= bound,
        -bound <= ceil_div(n, d) <= bound,
{
    lemma_floor_ceil(n, d);
    let f = floor_div(n, d);
    let c = ceil_div(n, d);
    assert(-bound <= f && c <= bound) by (nonlinear_arith)
        requires
            d > 0,
            -bound <= n <= bound,
            n < (f + 1) * d,
            (c - 1) * d < n,
    ;
}

/// `floor_div` of machine integers.
pub fn div_floor(n: i64, d: u64) -> (q: i64)
    requires
        0 < d,
    ensures
        q == floor_div(n as int, d as int),
{
    if n >= 0 {
        let k: u64 = n as u64 / d;
        k as i64
    } else {
        let m: u64 = (-(n + 1)) as u64;
        let k: u64 = m / d;
        proof {
            let r = (m % d) as int;
            lemma_fundamental_div_mod(m as int, d as int);
            assert((-k - 1) * d + (d - r - 1) == n) by (nonlinear_arith)
                requires
                    m == d * k + r,
                    m == -(n + 1),
            ;
            lemma_fundamental_div_mod_converse(n as int, d as int, -k - 1, d - r - 1);
        }
        -(k as i64) - 1
    }
}

/// `ceil_div` of machine integers.
pub fn div_ceil(n: i64, d: u64) -> (q: i64)
    requires
        0 < d,
    ensures
        q == ceil_div(n as int, d as int),
{
    if n > 0 {
        let m: u64 = (n - 1) as u64;
        let k: u64 = m / d;
        proof {
            let r = (m % d) as int;
            lemma_fundamental_div_mod(m as int, d as int);
            assert((-k - 1) * d + (d - r - 1) == -n) by (nonlinear_arith)
                requires
                    m == d * k + r,
                    m == n - 1,
            ;
            lemma_fundamental_div_mod_converse(-(n as int), d as int, -k - 1, d - r - 1);
        }
        k as i64 + 1
    } else if n == 0 {
        proof {
            lemma_fundamental_div_mod_converse(0, d as int, 0, 0);
        }
        0
    } else {
        let m: u64 = (-(n + 1)) as u64;
        let k: u64 = m / d;
        let r: u64 = m % d;
        proof {
            lemma_fundamental_div_mod(m as int, d as int);
        }
        if r == d - 1 {
            proof {
                assert((k + 1) * d + 0 == -n) by (nonlinear_arith)
                    requires
                        m == d * k + r,
                        r == d - 1,
                        m == -(n + 1),
                ;
                lemma_fundamental_div_mod_converse(-(n as int), d as int, k + 1, 0);
            }
            -(k as i64) - 1
        } else {
            proof {
                assert(k * d + (r + 1) == -n) by (nonlinear_arith)
                    requires
                        m == d * k + r,
                        m == -(n + 1),
                ;
                lemma_fundamental_div_mod_converse(-(n as int), d as int, k as int, r + 1);
            }
            -(k as i64)
        }
    }
}

/// Whether `r` is the square root of `q`, rounded up.
pub open spec fn is_ceil_sqrt(q: int, r: int) -> bool {
    r >= 0 && r * r >= q && (r == 0 || (r - 1) * (r - 1) < q)
}

/// The square root of `q`, rounded up: zero for a `q` that is not positive.
pub open spec fn ceil_sqrt(q: int) -> int {
    choose|r: int| is_ceil_sqrt(q, r)
}

/// There is one rounded root, so whatever meets `is_ceil_sqrt` is `ceil_sqrt`.
pub proof fn lemma_ceil_sqrt_unique(q: int, r: int)
    requires
        is_ceil_sqrt(q, r),
    ensures
        ceil_sqrt(q) == r,
{
    let s = ceil_sqrt(q);
    assert(is_ceil_sqrt(q, s));
    assert(s == r) by (nonlinear_arith)
        requires
            r >= 0 && r * r >= q && (r == 0 || (r - 1) * (r - 1) < q),
            s >= 0 && s * s >= q && (s == 0 || (s - 1) * (s - 1) < q),
    ;
}

/// `ceil_sqrt` of a machine integer.
pub fn sqrt_ceil(q: u128) -> (r: u128)
    ensures
        r == ceil_sqrt(q as int),
        r <= 0x1_0000_0000_0000_0000,
        q <= 0x4_0000_0000_0000_0000 ==> r <= 0x2_0000_0000,
{
    let mut lo: u128 = 0;
    let mut hi: u128 = 0x1_0000_0000_0000_0000;
    if q <= 0x4_0000_0000_0000_0000 {
        hi = 0x2_0000_0000;
    }
    assert(0x2_0000_0000u128 * 0x2_0000_0000u128 == 0x4_0000_0000_0000_0000
        && 0x1_0000_0000_0000_0000u128 * 0x1_0000_0000_0000_0000u128
        == 0x1_0000_0000_0000_0000_0000_0000_0000_0000) by (nonlinear_arith);
    while lo < hi
        invariant
            lo <= hi <= 0x1_0000_0000_0000_0000,
            q <= 0x4_0000_0000_0000_0000 ==> hi <= 0x2_0000_0000,
            hi * hi >= q,
            lo == 0 || (lo - 1) * (lo - 1) < q,
        decreases hi - lo,
    {
        let mid: u128 = lo + (hi - lo) / 2;
        assert(mid * mid <= 0xffff_ffff_ffff_ffff * 0xffff_ffff_ffff_ffff) by (nonlinear_arith)
            requires
                mid <= 0xffff_ffff_ffff_ffff,
        ;
        if mid * mid >= q {
            hi = mid;
        } else {
            lo = mid + 1;
        }
    }
    proof {
        lemma_ceil_sqrt_unique(q as int, lo as int);
    }
    lo
}

/// A number of pixels as the ratio `num / den`.
#[derive(Clone, Copy, Debug, PartialEq, Eq, Structural)]
pub struct ImtRatio {
    pub num: i64,
    pub den: u64,
}

impl ImtRatio {
    /// Whether the ratio is a whole number.
    pub open spec fn is_whole(self) -> bool {
        self.den > 0 && self.num as int % self.den as int == 0
    }

    /// The whole number `n`.
    pub fn whole(n: i64) -> (r: Self)
        ensures
            r.num == n,
            r.den == 1,
            r.is_whole(),
    {
        ImtRatio { num: n, den: 1 }
    }

    /// Nothing.
    pub fn zero() -> (r: Self)
        ensures
            r.num == 0,
            r.den == 1,
    {
        ImtRatio { num: 0, den: 1 }
    }
}

/// Whether `bits`, read as an IEEE-754 single, is a text height that the
/// library computes with: a normal number from 2^-8 up to, not including, 2^24.
pub open spec fn height_bits_supported(bits: u32) -> bool {
    0x3B80_0000 <= bits < 0x4B80_0000
}

/// The significand of the single `bits`, with its leading one: 24 bits.
pub open spec fn height_bits_num(bits: u32) -> int {
    0x80_0000 + bits as int % 0x80_0000
}

/// The power of two by which the significand of a supported `bits` is divided.
pub open spec fn height_bits_den(bits: u32) -> int {
    pow2((150 - bits as int / 0x80_0000) as nat) as int
}

/// A text height in pixels, held as the bit pattern of an IEEE-754 single, so
/// that equal heights are equal patterns and the value is the exact ratio
/// `num() / den()`.
#[derive(Clone, Copy, Debug)]
pub struct ImtTextHeight {
    bits: u32,
}

impl ImtTextHeight {
    #[verifier::type_invariant]
    spec fn supported(self) -> bool {
        height_bits_supported(self.bits)
    }

    /// The bit pattern.
    pub closed spec fn bits(self) -> u32 {
        self.bits
    }

    /// The numerator of the height in pixels.
    pub open spec fn num(self) -> int {
        height_bits_num(self.bits())
    }

    /// The denominator of the height in pixels.
    pub open spec fn den(self) -> int {
        height_bits_den(self.bits())
    }

    /// Takes the bit pattern of a single. Heights that are not supported
    /// (negative, zero, subnormal, not finite, below 2^-8 or from 2^24 on)
    /// are refused.
    pub fn from_bits(bits: u32) -> (r: Result<Self, ImtError>)
        ensures
            r is Ok <==> height_bits_supported(bits),
            r matches Ok(h) ==> h.bits() == bits,
            r matches Err(e) ==> e.src == ImtErrorSrc::Ilmenite && e.ty == ImtErrorTy::Unimplemented,
    {
        if 0x3B80_0000 <= bits && bits < 0x4B80_0000 {
            Ok(ImtTextHeight { bits })
        } else {
            Err(ImtError::src_and_ty(ImtErrorSrc::Ilmenite, ImtErrorTy::Unimplemented))
        }
    }

    /// The bit pattern: that of a supported height.
    pub fn to_bits(&self) -> (bits: u32)
        ensures
            bits == self.bits(),
            height_bits_supported(bits),
    {
        proof {
            use_type_invariant(self);
        }
        self.bits
    }

    /// The numerator of the height: below 2^24.
    pub fn numerator(&self) -> (n: u32)
        ensures
            n == self.num(),
            0x80_0000 <= n < 0x100_0000,
    {
        0x80_0000 + self.bits % 0x80_0000
    }

    /// The denominator of the height: a power of two, at most 2^31.
    pub fn denominator(&self) -> (d: u32)
        ensures
            d == self.den(),
            1 <= d <= 0x8000_0000,
    {
        proof {
            use_type_invariant(self);
        }
        let e: u32 = self.bits / 0x80_0000;
        let shift: u64 = (150 - e) as u64;
        proof {
            lemma2_to64();
            if shift < 31 {
                lemma_pow2_strictly_increases(shift as nat, 31);
            }
            lemma_u64_shl_is_mul(1u64, shift);
        }
        let d: u64 = 1u64 << shift;
        d as u32
    }
}

/// Pixels per design unit, as the ratio `num() / den()`: the text height times
/// the reciprocal of the font's units per em.
#[derive(Clone, Copy, Debug)]
pub struct ImtScale {
    num: u32,
    den: u64,
}

impl ImtScale {
    #[verifier::type_invariant]
    spec fn bounded(self) -> bool {
        self.wf()
    }

    /// The numerator of the scale.
    pub closed spec fn num(self) -> int {
        self.num as int
    }

    /// The denominator of the scale.
    pub closed spec fn den(self) -> int {
        self.den as int
    }

    /// The bounds that keep every product of a scale and a coordinate in 64 bits.
    pub open spec fn wf(self) -> bool {
        0 < self.num() < 0x100_0000 && 0 < self.den() < 0x8000_0000_0000
    }

    /// The scale of text of height `height` in a font of `units_per_em` design
    /// units per em.
    pub closed spec fn of(height: ImtTextHeight, units_per_em: u16) -> ImtScale {
        ImtScale {
            num: height.num() as u32,
            den: (height.den() * units_per_em) as u64,
        }
    }

    /// The scale of a supported height in a font that has units per em is
    /// the height over the units per em, and is well formed.
    pub proof fn lemma_of(height: ImtTextHeight, units_per_em: u16)
        requires
            height_bits_supported(height.bits()),
            units_per_em > 0,
        ensures
            Self::of(height, units_per_em).wf(),
            Self::of(height, units_per_em).num() == height.num(),
            Self::of(height, units_per_em).den() == height.den() * units_per_em,
    {
        let e = height.bits() as int / 0x80_0000;
        let shift = (150 - e) as nat;
        lemma2_to64();
        if shift < 31 {
            lemma_pow2_strictly_increases(shift, 31);
        }
        vstd::arithmetic::power2::lemma_pow2_pos(shift);
        let d = height.den();
        assert(0 < d * units_per_em < 0x8000_0000_0000) by (nonlinear_arith)
            requires
                1 <= d <= 0x8000_0000,
                0 < units_per_em <= 0xffff,
        ;
    }

    /// `of`, for a font that has units per em.
    pub fn new(height: ImtTextHeight, units_per_em: u16) -> (s: Self)
        requires
            units_per_em > 0,
        ensures
            s == Self::of(height, units_per_em),
            s.wf(),
            s.num() == height.num(),
            s.den() == height.den() * units_per_em,
    {
        let n = height.numerator();
        let d = height.denominator();
        assert(d * units_per_em < 0x8000_0000_0000 && d * units_per_em > 0) by (nonlinear_arith)
            requires
                1 <= d <= 0x8000_0000,
                0 < units_per_em <= 0xffff,
        ;
        ImtScale { num: n, den: d as u64 * units_per_em as u64 }
    }

    /// `num`, computed.
    pub fn numerator(&self) -> (n: u32)
        ensures
            n == self.num(),
            self.wf(),
    {
        proof {
            use_type_invariant(self);
        }
        self.num
    }

    /// `den`, computed.
    pub fn denominator(&self) -> (d: u64)
        ensures
            d == self.den(),
            self.wf(),
    {
        proof {
            use_type_invariant(self);
        }
        self.den
    }

    /// `v` design units in pixels, rounded down.
    pub open spec fn floor_px(self, v: int) -> int {
        floor_div(v * self.num(), self.den())
    }

    /// `v` design units in pixels, rounded up.
    pub open spec fn ceil_px(self, v: int) -> int {
        ceil_div(v * self.num(), self.den())
    }

    /// `floor_px` for a coordinate or a difference of two.
    pub fn floor_pixels(&self, v: i64) -> (p: i64)
        requires
            -0x1_0000_0000 <= v <= 0x1_0000_0000,
        ensures
            p == self.floor_px(v as int),
            -0x100_0000_0000_0000 <= p <= 0x100_0000_0000_0000,
    {
        proof {
            use_type_invariant(self);
        }
        let n = self.scaled(v);
        proof {
            lemma_rounding_bounded(n as int, self.den as int, 0x100_0000_0000_0000);
        }
        div_floor(n, self.den)
    }

    /// `ceil_px` for a coordinate or a difference of two.
    pub fn ceil_pixels(&self, v: i64) -> (p: i64)
        requires
            -0x1_0000_0000 <= v <= 0x1_0000_0000,
        ensures
            p == self.ceil_px(v as int),
            -0x100_0000_0000_0000 <= p <= 0x100_0000_0000_0000,
    {
        proof {
            use_type_invariant(self);
        }
        let n = self.scaled(v);
        proof {
            lemma_rounding_bounded(n as int, self.den as int, 0x100_0000_0000_0000);
        }
        div_ceil(n, self.den)
    }

    /// The numerator of `v` design units in pixels, over `den()`.
    pub fn scaled(&self, v: i64) -> (n: i64)
        requires
            -0x1_0000_0000 <= v <= 0x1_0000_0000,
        ensures
            n == v * self.num(),
            -0x100_0000_0000_0000 <= n <= 0x100_0000_0000_0000,
    {
        proof {
            use_type_invariant(self);
        }
        let m: i64 = self.num as i64;
        assert(-0x100_0000_0000_0000 <= v * m <= 0x100_0000_0000_0000) by (nonlinear_arith)
            requires
                -0x1_0000_0000 <= v <= 0x1_0000_0000,
                0 < m < 0x100_0000,
        ;
        v * m
    }
}

} // verus!
