use vstd::prelude::*;

verus! {

/// Prices, amounts and volumes are counted in units of 10^-18 of a whole.
pub const FRACTION_DIGITS: u32 = 18;

/// Largest magnitude, in units, that a quantity may have (10^10 whole).
pub const MAX_UNITS: i128 = 10_000_000_000_000_000_000_000_000_000;

/// Largest scale of a decimal text: at most 28 fractional digits.
pub const MAX_SCALE: u32 = 28;

/// Largest magnitude of a decimal mantissa: 96 bits.
pub const MANTISSA_BOUND: i128 = 0x1_0000_0000_0000_0000_0000_0000;

/// An exact decimal `mantissa * 10^-scale`, as a text gave it.
#[derive(Clone, Copy, Debug, PartialEq, Eq, Structural)]
pub struct Dec {
    pub mantissa: i128,
    pub scale: u32,
}

impl Dec {
    pub open spec fn wf(self) -> bool {
        &&& self.scale <= MAX_SCALE
        &&& -MANTISSA_BOUND < self.mantissa < MANTISSA_BOUND
    }
}

pub open spec fn pow10(n: nat) -> int
    decreases n,
{
    if n == 0 {
        1
    } else {
        10 * pow10((n - 1) as nat)
    }
}

pub open spec fn abs(x: int) -> int {
    if x < 0 {
        -x
    } else {
        x
    }
}

/// A quantity, in units, that the library can hold.
pub open spec fn in_range(x: int) -> bool {
    -MAX_UNITS <= x <= MAX_UNITS
}

/// Magnitude in units of `a * 10^-s`, where it is a whole number of units.
pub open spec fn magnitude_units(a: int, s: nat) -> Option<int> {
    if s <= FRACTION_DIGITS {
        Some(a * pow10((FRACTION_DIGITS - s) as nat))
    } else if a % pow10((s - FRACTION_DIGITS) as nat) == 0 {
        Some(a / pow10((s - FRACTION_DIGITS) as nat))
    } else {
        None
    }
}

/// The exact number of units of the decimal `m * 10^-s`: none where it has
/// more fractional digits than units can hold or lies out of range.
pub open spec fn units_of(m: int, s: nat) -> Option<int> {
    match magnitude_units(abs(m), s) {
        Some(u) => if u <= MAX_UNITS {
            Some(if m < 0 {
                -u
            } else {
                u
            })
        } else {
            None
        },
        None => None,
    }
}

pub proof fn lemma_pow10_positive(n: nat)
    ensures
        pow10(n) >= 1,
    decreases n,
{
    if n > 0 {
        lemma_pow10_positive((n - 1) as nat);
    }
}

proof fn lemma_pow10_monotone(i: nat, j: nat)
    requires
        i <= j,
    ensures
        pow10(i) <= pow10(j),
    decreases j,
{
    if i < j {
        lemma_pow10_monotone(i, (j - 1) as nat);
        lemma_pow10_positive((j - 1) as nat);
    }
}

/// `10^k` as an exact integer.
fn pow10_u128(k: u32) -> (r: u128)
    requires
        k <= MAX_SCALE,
    ensures
        r == pow10(k as nat),
{
    proof {
        reveal_with_fuel(pow10, 29);
    }
    assert(pow10(28) == 10_000_000_000_000_000_000_000_000_000);
    let mut r: u128 = 1;
    let mut i: u32 = 0;
    while i < k
        invariant
            i <= k <= MAX_SCALE,
            r == pow10(i as nat),
            pow10(28) == 10_000_000_000_000_000_000_000_000_000,
        decreases k - i,
    {
        proof {
            lemma_pow10_monotone((i + 1) as nat, 28);
        }
        r = r * 10;
        i = i + 1;
    }
    r
}

proof fn lemma_div_bound(a: int, p: int, m: int)
    requires
        p > 0,
        a >= 0,
        m >= 0,
    ensures
        a <= m / p <==> a * p <= m,
{
    vstd::arithmetic::div_mod::lemma_fundamental_div_mod(m, p);
    let q = m / p;
    let r = m % p;
    assert(0 <= r < p) by {
        vstd::arithmetic::div_mod::lemma_mod_bound(m, p);
    }
    if a <= q {
        assert(a * p <= m) by (nonlinear_arith)
            requires
                a <= q,
                p > 0,
                m == p * q + r,
                r >= 0,
        ;
    } else {
        assert(a * p > m) by (nonlinear_arith)
            requires
                a >= q + 1,
                p > 0,
                m == p * q + r,
                r < p,
        ;
    }
}

/// Number of units of the decimal with mantissa `m` and scale `s`, where that
/// is exact and in range.
pub fn units_from_decimal(m: i128, s: u32) -> (r: Option<i128>)
    requires
        s <= MAX_SCALE,
        -MANTISSA_BOUND < m < MANTISSA_BOUND,
    ensures
        r matches Some(u) ==> units_of(m as int, s as nat) == Some(u as int) && in_range(u as int),
        r is None ==> units_of(m as int, s as nat) is None,
{
    let a: u128 = if m < 0 {
        (-m) as u128
    } else {
        m as u128
    };
    assert(a as int == abs(m as int));
    let mag: u128;
    if s <= FRACTION_DIGITS {
        let p = pow10_u128(FRACTION_DIGITS - s);
        proof {
            lemma_pow10_positive((FRACTION_DIGITS - s) as nat);
            lemma_div_bound(a as int, p as int, MAX_UNITS as int);
        }
        if a > (MAX_UNITS as u128) / p {
            return None;
        }
        mag = a * p;
    } else {
        let p = pow10_u128(s - FRACTION_DIGITS);
        proof {
            lemma_pow10_positive((s - FRACTION_DIGITS) as nat);
        }
        if a % p != 0 {
            return None;
        }
        mag = a / p;
        if mag > MAX_UNITS as u128 {
            return None;
        }
    }
    let u = mag as i128;
    if m < 0 {
        Some(-u)
    } else {
        Some(u)
    }
}

} // verus!
