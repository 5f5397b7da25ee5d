//! Decimal rendering of tagged metadata values and fixed-point coordinates.
//!
//! A rational renders as its exact decimal expansion, truncated after
//! seventeen fractional digits, with no fractional part at all when the
//! value is integral. Coordinates held in E7 fixed point render through the
//! same expansion with denominator ten million.

use crate::context::MetaValV;
use crate::context::MetaValue;
use crate::text::chars_to_string;
use crate::text::digit_char;
use crate::text::digit_to_char;
use crate::text::spec_i64_digits;
use crate::text::spec_u64_digits;
use crate::text::u64_digits_into;
use vstd::prelude::*;

verus! {

/// Fractional decimal digits of `rem / d`, most significant first, stopping
/// at an exact expansion or after `fuel` digits.
pub open spec fn spec_frac_digits(rem: int, d: int, fuel: nat) -> Seq<char>
    decreases fuel,
{
    if fuel == 0 || rem <= 0 || d <= 0 {
        Seq::<char>::empty()
    } else {
        seq![digit_char((rem * 10) / d)] + spec_frac_digits((rem * 10) % d, d, (fuel - 1) as nat)
    }
}

/// Decimal rendering of the rational `n / d`. A zero denominator renders as
/// the float notation it stood for: `inf`, `-inf` or `NaN`.
pub open spec fn spec_rat_str(n: int, d: int) -> Seq<char> {
    if d == 0 {
        if n > 0 {
            "inf"@
        } else if n < 0 {
            "-inf"@
        } else {
            "NaN"@
        }
    } else {
        let m = if n < 0 {
            -n
        } else {
            n
        };
        let sign = if n < 0 {
            seq!['-']
        } else {
            Seq::<char>::empty()
        };
        if m % d == 0 {
            sign + spec_u64_digits((m / d) as nat)
        } else {
            sign + spec_u64_digits((m / d) as nat) + seq!['.'] + spec_frac_digits(m % d, d, 17)
        }
    }
}

/// Rendering of an E7 fixed-point coordinate as decimal degrees.
pub open spec fn spec_e7_str(n: int) -> Seq<char> {
    spec_rat_str(n, 10_000_000)
}

pub fn rat_to_chars(n: i64, d: u64) -> (r: Vec<char>)
    ensures
        r@ == spec_rat_str(n as int, d as int),
{
    if d == 0 {
        let mut out: Vec<char> = Vec::new();
        if n > 0 {
            out.push('i');
            out.push('n');
            out.push('f');
            proof {
                reveal_strlit("inf");
                assert(out@ =~= "inf"@);
            }
        } else if n < 0 {
            out.push('-');
            out.push('i');
            out.push('n');
            out.push('f');
            proof {
                reveal_strlit("-inf");
                assert(out@ =~= "-inf"@);
            }
        } else {
            out.push('N');
            out.push('a');
            out.push('N');
            proof {
                reveal_strlit("NaN");
                assert(out@ =~= "NaN"@);
            }
        }
        return out;
    }
    let m: u64 = if n == i64::MIN {
        9223372036854775808u64
    } else if n < 0 {
        (-n) as u64
    } else {
        n as u64
    };
    let mut out: Vec<char> = Vec::new();
    if n < 0 {
        out.push('-');
    }
    let ghost sign = out@;
    let whole = m / d;
    let rem0 = m % d;
    u64_digits_into(whole, &mut out);
    if rem0 == 0 {
        proof {
            assert(out@ =~= spec_rat_str(n as int, d as int));
        }
        return out;
    }
    out.push('.');
    let ghost head = out@;
    proof {
        assert(out@.skip(head.len() as int) =~= Seq::<char>::empty());
        assert(Seq::<char>::empty() + spec_frac_digits(rem0 as int, d as int, 17)
            =~= spec_frac_digits(rem0 as int, d as int, 17));
        assert(out@.take(head.len() as int) =~= head);
    }
    let mut rem: u64 = rem0;
    let mut fuel: u64 = 17;
    while fuel > 0 && rem > 0
        invariant
            rem < d,
            0 < d,
            fuel <= 17,
            out@.len() >= head.len(),
            out@.take(head.len() as int) == head,
            spec_frac_digits(rem0 as int, d as int, 17) == out@.skip(head.len() as int)
                + spec_frac_digits(rem as int, d as int, fuel as nat),
        decreases fuel,
    {
        let ghost prev = out@;
        let r10: u128 = rem as u128 * 10;
        let dd: u128 = d as u128;
        proof {
            assert(r10 / dd < 10) by (nonlinear_arith)
                requires
                    r10 < 10 * dd,
                    dd > 0,
            ;
            assert(r10 % dd < dd) by (nonlinear_arith)
                requires
                    dd > 0,
            ;
        }
        let digit = (r10 / dd) as u64;
        let new_rem = (r10 % dd) as u64;
        out.push(digit_to_char(digit));
        proof {
            let k = head.len() as int;
            assert(spec_frac_digits(rem as int, d as int, fuel as nat) == seq![
                digit_char((rem * 10) as int / d as int),
            ] + spec_frac_digits((rem * 10) as int % d as int, d as int, (fuel - 1) as nat));
            assert(out@.skip(k) =~= prev.skip(k).push(digit_char((rem * 10) as int / d as int)));
            assert(prev.skip(k) + spec_frac_digits(rem as int, d as int, fuel as nat) =~= out@.skip(
                k,
            ) + spec_frac_digits(new_rem as int, d as int, (fuel - 1) as nat));
            assert(out@.take(k) =~= head);
        }
        rem = new_rem;
        fuel = fuel - 1;
    }
    proof {
        assert(spec_frac_digits(rem as int, d as int, fuel as nat) =~= Seq::<char>::empty());
        assert(out@.skip(head.len() as int) + spec_frac_digits(rem as int, d as int, fuel as nat)
            =~= out@.skip(head.len() as int));
        assert(out@ =~= head + spec_frac_digits(rem0 as int, d as int, 17));
        assert(head =~= (if n < 0 {
            seq!['-']
        } else {
            Seq::<char>::empty()
        }) + spec_u64_digits(whole as nat) + seq!['.']);
        assert(out@ =~= spec_rat_str(n as int, d as int));
    }
    out
}

pub fn e7_to_chars(n: i64) -> (r: Vec<char>)
    ensures
        r@ == spec_e7_str(n as int),
{
    rat_to_chars(n, 10_000_000)
}

/// How a tagged metadata value appears in an expanded template: integers
/// plainly, rationals without a trailing zero fraction, text as itself,
/// booleans as `true` / `false`.
pub open spec fn spec_meta_val_str(v: MetaValV) -> Seq<char> {
    match v {
        MetaValV::Int(i) => spec_i64_digits(i),
        MetaValV::Rat(n, d) => spec_rat_str(n, d),
        MetaValV::Text(s) => s,
        MetaValV::Truth(b) => if b {
            "true"@
        } else {
            "false"@
        },
    }
}

pub fn dynamic_to_string(value: &MetaValue) -> (r: String)
    ensures
        r@ == spec_meta_val_str(value@),
{
    match value {
        MetaValue::Int(i) => {
            let v = crate::text::i64_to_chars(*i);
            chars_to_string(&v)
        },
        MetaValue::Rat(n, d) => {
            let v = rat_to_chars(*n, *d);
            chars_to_string(&v)
        },
        MetaValue::Text(s) => s.clone(),
        MetaValue::Truth(b) => {
            if *b {
                String::from_str("true")
            } else {
                String::from_str("false")
            }
        },
    }
}

} // verus!
