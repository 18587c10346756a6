//! The runtime estimate: how long the batteries last at the present draw.
//!
//! Energy is read in whole microwatt-hours and power in whole microwatts, as the platform
//! reports them, so the quotient of the two is a time in hours. All of the arithmetic is
//! exact integer arithmetic.

use crate::error::PowerError;
use crate::supply::PowerSupply;
use crate::text::{decimal, push_decimal};
use vstd::arithmetic::div_mod::*;
use vstd::prelude::*;
use vstd::string::*;

verus! {

/// Milliseconds in an hour.
pub const MILLIS_PER_HOUR: u32 = 3_600_000;

/// An estimated runtime.
#[derive(Debug, Clone, Copy, PartialEq, Eq, Structural)]
pub enum Runtime {
    /// Nothing is drawn, so there is no estimate.
    Unknown,
    /// This many whole milliseconds.
    Millis(u64),
}

/// The runtime that `energy` lasts at a draw of `power`: unknown when nothing is drawn,
/// else `energy / power` hours, in whole milliseconds, rounded down, and `u64::MAX` of
/// them when there are more.
pub open spec fn estimate(energy: nat, power: nat) -> Runtime {
    if power == 0 {
        Runtime::Unknown
    } else {
        let millis = (energy * MILLIS_PER_HOUR) / (power as int);
        if millis <= u64::MAX {
            Runtime::Millis(millis as u64)
        } else {
            Runtime::Millis(u64::MAX)
        }
    }
}

/// Whether both readings of `battery` can be had.
pub open spec fn readable(battery: PowerSupply) -> bool {
    battery@.energy_now() is Ok && battery@.power_now() is Ok
}

/// The sum of the batteries' `energy_now`, in microwatt-hours.
pub open spec fn total_energy(batteries: Seq<PowerSupply>) -> nat
    decreases batteries.len(),
{
    if batteries.len() == 0 {
        0
    } else {
        total_energy(batteries.drop_last()) + match batteries.last()@.energy_now() {
            Ok(v) => v as nat,
            Err(_) => 0,
        }
    }
}

/// The sum of the batteries' `power_now`, in microwatts.
pub open spec fn total_power(batteries: Seq<PowerSupply>) -> nat
    decreases batteries.len(),
{
    if batteries.len() == 0 {
        0
    } else {
        total_power(batteries.drop_last()) + match batteries.last()@.power_now() {
            Ok(v) => v as nat,
            Err(_) => 0,
        }
    }
}

/// The runtime of all `batteries` together: their summed energy at their summed draw.
/// It is an error when a reading of any battery cannot be had.
pub open spec fn combined(batteries: Seq<PowerSupply>) -> Result<Runtime, PowerError> {
    if forall|i: int| 0 <= i < batteries.len() ==> readable(#[trigger] batteries[i]) {
        Ok(estimate(total_energy(batteries), total_power(batteries)))
    } else {
        Err(PowerError)
    }
}

/// How a runtime reads: whole hours and whole minutes, what is left of a minute dropped;
/// `unknown` when there is no estimate.
pub open spec fn time_text(d: Runtime) -> Seq<char> {
    match d {
        Runtime::Unknown => "unknown"@,
        Runtime::Millis(millis) => {
            let seconds = millis / 1000;
            decimal((seconds / 3600) as nat) + seq!['h'] + decimal(((seconds % 3600) / 60) as nat)
                + seq!['m']
        },
    }
}

/// An estimate reads as the whole hours of `energy / power`, then the whole minutes of
/// what is left of an hour. The milliseconds in between lose nothing of either.
pub proof fn lemma_estimate_in_hours(energy: nat, power: nat)
    requires
        power > 0,
        (energy * MILLIS_PER_HOUR) / (power as int) <= u64::MAX,
    ensures
        time_text(estimate(energy, power)) == decimal(energy / power) + seq!['h'] + decimal(
            ((energy % power) * 60) / power,
        ) + seq!['m'],
{
    let e = energy as int;
    let p = power as int;
    let seconds = ((e * 3_600_000) / p) / 1000;
    let hours = e / p;
    let left = e % p;
    let tail = (left * 3600) / p;
    assert(0 <= e * 3_600_000 && 0 <= left * 3600) by (nonlinear_arith)
        requires
            0 <= e,
            0 <= left,
    ;
    assert(seconds == (e * 3600) / p) by {
        lemma_div_denominator(e * 3_600_000, p, 1000);
        lemma_div_multiples_vanish_quotient(1000, e * 3600, p);
        assert(e * 3_600_000 == 1000 * (e * 3600) && p * 1000 == 1000 * p) by (nonlinear_arith);
    }
    assert(seconds == hours * 3600 + tail) by {
        lemma_fundamental_div_mod(e, p);
        lemma_hoist_over_denominator(left * 3600, hours * 3600, power);
        assert(e * 3600 == left * 3600 + (hours * 3600) * p) by (nonlinear_arith)
            requires
                e == p * hours + left,
        ;
    }
    assert(0 <= tail < 3600) by (nonlinear_arith)
        requires
            tail == (left * 3600) / p,
            0 <= left < p,
    ;
    assert(seconds / 3600 == hours && seconds % 3600 == tail) by {
        lemma_fundamental_div_mod_converse(seconds, 3600, hours, tail);
    }
    assert(tail / 60 == (left * 60) / p) by {
        lemma_div_denominator(left * 3600, p, 60);
        lemma_div_multiples_vanish_quotient(60, left * 60, p);
        assert(left * 3600 == 60 * (left * 60) && p * 60 == 60 * p && 0 <= left * 60)
            by (nonlinear_arith)
            requires
                0 <= left,
        ;
    }
}

/// The combined runtime of batteries reads as the whole hours of their summed energy
/// over their summed power, then the whole minutes of what is left of an hour.
pub proof fn lemma_combined_in_hours(batteries: Seq<PowerSupply>)
    requires
        forall|i: int| 0 <= i < batteries.len() ==> readable(#[trigger] batteries[i]),
        total_power(batteries) > 0,
        (total_energy(batteries) * MILLIS_PER_HOUR) / (total_power(batteries) as int) <= u64::MAX,
    ensures
        combined(batteries) matches Ok(d) && time_text(d) == decimal(
            total_energy(batteries) / total_power(batteries),
        ) + seq!['h'] + decimal(
            ((total_energy(batteries) % total_power(batteries)) * 60) / total_power(batteries),
        ) + seq!['m'],
{
    lemma_estimate_in_hours(total_energy(batteries), total_power(batteries));
}

/// Adds two numbers below `p` as `carry * p + sum` with `sum` below `p`, without
/// leaving `u128`.
fn add_below(x: u128, y: u128, p: u128) -> (r: (u64, u128))
    requires
        x < p,
        y < p,
    ensures
        r.0 <= 1,
        r.1 < p,
        x + y == r.0 * p + r.1,
{
    let room: u128 = p - x;
    if y >= room {
        (1, y - room)
    } else {
        (0, x + y)
    }
}

/// `r * m / p`, rounded down, for `r` below `p`. The product may be too large for
/// `u128`, so it is never formed: `m` is taken bit by bit, and each partial product is
/// kept as a quotient and a remainder by `p`.
fn mul_div_below(r: u128, m: u32, p: u128) -> (q: u64)
    requires
        r < p,
    ensures
        q == (r * m) / (p as int),
{
    // r * done == q * p + rem, for the bits of `m` that are done
    let mut q: u64 = 0;
    let mut rem: u128 = 0;
    // r * weight == wq * p + wrem, for the weight of the next bit of `m`
    let mut wq: u64 = 0;
    let mut wrem: u128 = r;
    let mut rest: u32 = m;
    let ghost mut done: int = 0;
    let ghost mut weight: int = 1;
    assert(done + weight * rest == m && r * done == q * p + rem && r * weight == wq * p + wrem)
        by (nonlinear_arith)
        requires
            done == 0,
            weight == 1,
            rest == m,
            q == 0,
            rem == 0,
            wq == 0,
            wrem == r,
    ;
    while rest > 0
        invariant
            r < p,
            rem < p,
            wrem < p,
            0 <= done,
            1 <= weight,
            done + weight * rest == m,
            r * done == q * p + rem,
            r * weight == wq * p + wrem,
            q <= done,
            wq <= weight,
        decreases rest,
    {
        let ghost done0 = done;
        let ghost weight0 = weight;
        let ghost rest0 = rest;
        let ghost q0 = q;
        let ghost rem0 = rem;
        let ghost wq0 = wq;
        let ghost wrem0 = wrem;
        assert(weight <= m && done <= m) by (nonlinear_arith)
            requires
                done + weight * rest == m,
                rest >= 1,
                0 <= done,
                1 <= weight,
        ;
        if rest % 2 == 1 {
            let (carry, sum): (u64, u128) = add_below(rem, wrem, p);
            q = q + wq + carry;
            rem = sum;
            proof {
                done = done + weight;
            }
            assert(r * done == q * p + rem && q <= done) by (nonlinear_arith)
                requires
                    r * done0 == q0 * p + rem0,
                    r * weight0 == wq0 * p + wrem0,
                    done == done0 + weight0,
                    q == q0 + wq0 + carry,
                    rem0 + wrem0 == carry * p + rem,
                    r < p,
                    0 <= rem,
                    0 <= done,
            ;
        }
        let (carry, sum): (u64, u128) = add_below(wrem, wrem, p);
        wq = 2 * wq + carry;
        wrem = sum;
        rest = rest / 2;
        proof {
            weight = 2 * weight;
        }
        assert(r * weight == wq * p + wrem && wq <= weight) by (nonlinear_arith)
            requires
                r * weight0 == wq0 * p + wrem0,
                weight == 2 * weight0,
                wq == 2 * wq0 + carry,
                wrem0 + wrem0 == carry * p + wrem,
                r < p,
                0 <= wrem,
                1 <= weight,
        ;
        assert(done + weight * rest == m) by (nonlinear_arith)
            requires
                done0 + weight0 * rest0 == m,
                weight == 2 * weight0,
                (rest0 == 2 * rest + 1 && done == done0 + weight0) || (rest0 == 2 * rest && done
                    == done0),
        ;
    }
    proof {
        assert(done == m) by (nonlinear_arith)
            requires
                done + weight * rest == m,
                rest == 0,
        ;
        lemma_fundamental_div_mod_converse(r * m, p as int, q as int, rem as int);
    }
    q
}

/// Estimates the runtime that `energy` lasts at a draw of `power`.
pub fn estimate_runtime(energy: u128, power: u128) -> (d: Runtime)
    ensures
        d == estimate(energy as nat, power as nat),
{
    if power == 0 {
        return Runtime::Unknown;
    }
    let hours: u128 = energy / power;
    let left: u128 = energy % power;
    let part: u64 = mul_div_below(left, MILLIS_PER_HOUR, power);
    proof {
        // (energy * MILLIS_PER_HOUR) / power == hours * MILLIS_PER_HOUR + part
        lemma_fundamental_div_mod(energy as int, power as int);
        assert(energy * MILLIS_PER_HOUR == left * MILLIS_PER_HOUR + (hours * MILLIS_PER_HOUR)
            * power) by (nonlinear_arith)
            requires
                energy == power * hours + left,
        ;
        lemma_hoist_over_denominator(
            left * MILLIS_PER_HOUR,
            hours * MILLIS_PER_HOUR,
            power as nat,
        );
    }
    if hours > (u64::MAX / (MILLIS_PER_HOUR as u64)) as u128 {
        return Runtime::Millis(u64::MAX);
    }
    let millis: u128 = hours * (MILLIS_PER_HOUR as u128) + (part as u128);
    if millis > u64::MAX as u128 {
        Runtime::Millis(u64::MAX)
    } else {
        Runtime::Millis(millis as u64)
    }
}

/// Estimates the runtime of all `batteries` together.
pub fn combined_runtime(batteries: &[PowerSupply]) -> (r: Result<Runtime, PowerError>)
    ensures
        r == combined(batteries@),
{
    let mut energy: u128 = 0;
    let mut power: u128 = 0;
    let mut i: usize = 0;
    while i < batteries.len()
        invariant
            i <= batteries@.len(),
            forall|j: int| 0 <= j < i ==> readable(#[trigger] batteries@[j]),
            energy == total_energy(batteries@.take(i as int)),
            power == total_power(batteries@.take(i as int)),
            energy <= i * u64::MAX,
            power <= i * u64::MAX,
        decreases batteries@.len() - i,
    {
        let e: u64 = match batteries[i].energy_now() {
            Ok(v) => v,
            Err(err) => {
                return Err(err);
            },
        };
        let p: u64 = match batteries[i].power_now() {
            Ok(v) => v,
            Err(err) => {
                return Err(err);
            },
        };
        proof {
            assert(batteries@.take(i + 1).drop_last() == batteries@.take(i as int));
            assert((i + 1) * u64::MAX == i * u64::MAX + u64::MAX && (i + 1) * u64::MAX
                <= u128::MAX) by (nonlinear_arith)
                requires
                    i + 1 <= u64::MAX,
            ;
        }
        energy = energy + e as u128;
        power = power + p as u128;
        i += 1;
    }
    assert(batteries@.take(i as int) == batteries@);
    Ok(estimate_runtime(energy, power))
}

/// Renders a runtime as `<hours>h<minutes>m`, or as `unknown`.
pub fn format_time(d: Runtime) -> (r: String)
    ensures
        r@ == time_text(d),
{
    match d {
        Runtime::Unknown => String::from_str("unknown"),
        Runtime::Millis(millis) => {
            let mut seconds: u64 = millis / 1000;
            let hours: u64 = seconds / 3600;
            seconds -= hours * 3600;
            let minutes: u64 = seconds / 60;
            let mut out = String::new();
            proof {
                reveal_strlit("h");
                reveal_strlit("m");
            }
            push_decimal(&mut out, hours);
            out.append("h");
            push_decimal(&mut out, minutes);
            out.append("m");
            out
        },
    }
}

} // verus!
