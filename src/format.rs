//! Helpers for laying out values in columns.
use vstd::prelude::*;

use crate::decimal::decimal_text;
use crate::decimal::decimal_text_of;
use crate::decimal::lemma_pow10_monotone;
use crate::decimal::lemma_round_bound;
use crate::decimal::pow10;
use crate::decimal::round_units;
use crate::decimal::rounded_units;
use crate::decimal::Decimal;
use crate::decimal::LIMIT;
use crate::decimal::ROUND_LIMIT;

verus! {

/// The largest of the widths, or zero where there are none.
pub open spec fn max_of(widths: Seq<usize>) -> nat
    decreases widths.len(),
{
    if widths.len() == 0 {
        0
    } else {
        let earlier = max_of(widths.drop_last());
        if widths.last() > earlier {
            widths.last() as nat
        } else {
            earlier
        }
    }
}

/// Determine the maximum width of values produced by applying a
/// function on each element of a slice.
pub fn max_width<T, F>(slice: &[T], f: F) -> (r: usize) where F: Fn(&T) -> usize
    requires
        forall|i: int| 0 <= i < slice@.len() ==> f.requires((&slice@[i],)),
    ensures
        exists|widths: Seq<usize>|
            {
                &&& widths.len() == slice@.len()
                &&& forall|i: int|
                    0 <= i < slice@.len() ==> f.ensures((&slice@[i],), #[trigger] widths[i])
                &&& r == max_of(widths)
            },
{
    let mut m: usize = 0;
    let ghost mut widths: Seq<usize> = Seq::empty();
    let mut i: usize = 0;
    while i < slice.len()
        invariant
            i <= slice@.len(),
            forall|k: int| 0 <= k < slice@.len() ==> f.requires((&slice@[k],)),
            widths.len() == i,
            forall|k: int| 0 <= k < i ==> f.ensures((&slice@[k],), #[trigger] widths[k]),
            m == max_of(widths),
        decreases slice.len() - i,
    {
        let w = f(&slice[i]);
        proof {
            let before = widths;
            widths = widths.push(w);
            assert(widths.drop_last() =~= before);
        }
        if w > m {
            m = w;
        }
        i = i + 1;
    }
    m
}

/// The number of decimal places at which `q` first reaches ten units: the
/// least `k`, counted up from `from`, with `q * 10^k >= 10`.
pub open spec fn places_to_ten(q: Decimal, from: nat) -> nat
    decreases 20 - from,
{
    if from >= 20 || q.numer * pow10(from) >= 10 * q.denom {
        from
    } else {
        places_to_ten(q, from + 1)
    }
}

/// The number of decimal places that `q` is shown with: one fewer than
/// reaching ten units takes, and no fewer than zero.
pub open spec fn shown_places(q: Decimal) -> nat {
    let p = places_to_ten(q, 0);
    if p == 0 {
        0
    } else {
        (p - 1) as nat
    }
}

/// The text for `q` rounded to `shown_places(q)` places, marked with a
/// leading `~` where the rounding changed the value.
pub open spec fn approximate_text(q: Decimal) -> Seq<char> {
    let places = shown_places(q);
    let units = rounded_units(q, places);
    let text = decimal_text_of(units, pow10(places));
    if units * q.denom == q.numer * pow10(places) {
        text
    } else {
        "~"@ + text
    }
}

/// Round and format a quantity somewhat sensibly.
pub fn format_approximate_quantity(quantity: &Decimal) -> (r: String)
    requires
        quantity.wf(),
        quantity.numer > 0,
    ensures
        r@ == approximate_text(*quantity),
{
    let mut precision: u32 = 0;
    let mut scale: i128 = 1;
    proof {
        assert(places_to_ten(*quantity, 0) == places_to_ten(*quantity, precision as nat));
        reveal_with_fuel(pow10, 20);
        assert(pow10(19) == 10 * LIMIT);
    }
    while quantity.numer * scale < 10 * quantity.denom
        invariant
            precision <= 19,
            scale == pow10(precision as nat),
            pow10(19) == 10 * LIMIT,
            quantity.wf(),
            quantity.numer > 0,
            places_to_ten(*quantity, 0) == places_to_ten(*quantity, precision as nat),
            precision > 0 ==> quantity.numer * pow10((precision - 1) as nat) < 10 * quantity.denom,
            0 < scale <= 10 * LIMIT,
            quantity.numer * scale <= 10 * LIMIT * LIMIT,
        decreases 19 - precision,
    {
        proof {
            if precision >= 19 {
                lemma_pow10_monotone(19, precision as nat);
                assert(quantity.numer * scale >= 10 * quantity.denom) by (nonlinear_arith)
                    requires
                        quantity.numer >= 1,
                        scale >= 10 * LIMIT,
                        quantity.denom <= LIMIT,
                ;
            }
            lemma_pow10_monotone(precision as nat, 18);
        }
        scale = scale * 10;
        precision = precision + 1;
        proof {
            lemma_pow10_monotone(precision as nat, 19);
            assert(quantity.numer * scale <= 10 * LIMIT * LIMIT) by (nonlinear_arith)
                requires
                    0 < quantity.numer <= LIMIT,
                    0 < scale <= 10 * LIMIT,
            ;
            assert(places_to_ten(*quantity, (precision - 1) as nat) == places_to_ten(
                *quantity,
                precision as nat,
            ));
        }
    }
    proof {
        lemma_pow10_monotone(precision as nat, 19);
        assert(quantity.numer * scale <= LIMIT * (10 * LIMIT)) by (nonlinear_arith)
            requires
                0 < quantity.numer <= LIMIT,
                0 < scale <= 10 * LIMIT,
        ;
        assert(places_to_ten(*quantity, precision as nat) == precision);
    }
    let places: u32 = if precision == 0 {
        0
    } else {
        precision - 1
    };
    let unit_scale: i128 = if precision == 0 {
        1
    } else {
        scale / 10
    };
    proof {
        if precision > 0 {
            assert(pow10(precision as nat) == 10 * pow10(places as nat));
            assert(unit_scale == pow10(places as nat));
            lemma_pow10_monotone(0, places as nat);
            assert(0 < quantity.numer * unit_scale) by (nonlinear_arith)
                requires
                    quantity.numer > 0,
                    unit_scale > 0,
            ;
            assert(10 * quantity.denom <= ROUND_LIMIT * quantity.denom);
        } else {
            assert(quantity.numer * unit_scale <= LIMIT);
            assert(LIMIT <= ROUND_LIMIT * quantity.denom) by (nonlinear_arith)
                requires
                    quantity.denom >= 1,
            ;
        }
    }
    let units = round_units(quantity, places);
    proof {
        if precision > 0 {
            lemma_round_bound(quantity.numer * unit_scale, quantity.denom as int, 10);
        } else {
            assert(quantity.numer * unit_scale <= LIMIT * quantity.denom) by (nonlinear_arith)
                requires
                    quantity.numer * unit_scale <= LIMIT,
                    quantity.denom >= 1,
            ;
            assert(-LIMIT * quantity.denom <= quantity.numer * unit_scale) by (nonlinear_arith)
                requires
                    quantity.numer * unit_scale >= 0,
                    quantity.denom >= 1,
            ;
            lemma_round_bound(quantity.numer * unit_scale, quantity.denom as int, LIMIT as int);
        }
        assert(-LIMIT * LIMIT <= units * quantity.denom <= 2 * LIMIT * LIMIT) by (nonlinear_arith)
            requires
                -LIMIT <= units <= LIMIT + 1,
                0 < quantity.denom <= LIMIT,
        ;
    }
    let rounded = Decimal { numer: units, denom: unit_scale };
    let text = decimal_text(&rounded);
    if units * quantity.denom == quantity.numer * unit_scale {
        text
    } else {
        let mut marked = String::from_str("~");
        marked.append(text.as_str());
        marked
    }
}

} // verus!
