//! Conversion of one raw entry's numbers into a record.
use crate::decimal::{quantized, scale_magnitude, scaled_magnitude, Decimal};
use crate::record::{Action, Record, Side, Source};
use vstd::prelude::*;

verus! {

/// Decimal places of a record's price.
pub const PRICE_PLACES: u8 = 2;

/// Decimal places of a record's size.
pub const SIZE_PLACES: u8 = 6;

/// Whether a decimal `(negative, mantissa, exponent)` is strictly positive.
pub open spec fn is_positive(x: (bool, int, int)) -> bool {
    !x.0 && x.1 > 0
}

/// Whether a decimal `(negative, mantissa, exponent)` is zero.
pub open spec fn is_zero(x: (bool, int, int)) -> bool {
    x.1 == 0
}

/// The record for an entry with identifier `id`, raw `price` and raw signed
/// `amount`: the price rounded to hundredths, the magnitude of the amount
/// rounded to millionths, the side from the amount's sign and the action from
/// a zero price. `None` where the price does not fit in an `i32` or the size
/// in a `u64`.
pub open spec fn normalized(id: u64, price: (bool, int, int), amount: (bool, int, int), source: Source) -> Option<Record> {
    let p = quantized(price, PRICE_PLACES as nat);
    let s = scaled_magnitude(amount.1 as nat, amount.2 + SIZE_PLACES);
    if i32::MIN <= p <= i32::MAX && s <= u64::MAX {
        Some(
            Record {
                id,
                price: p as i32,
                size: s as u64,
                side: if is_positive(amount) { Side::Bid } else { Side::Ask },
                action: if is_zero(price) { Action::Cancel } else { Action::Upsert },
                source,
            },
        )
    } else {
        None
    }
}

/// Converts an entry's numbers into a record.
pub fn normalize(id: u64, price: &Decimal, amount: &Decimal, source: Source) -> (r: Option<Record>)
    ensures
        r == normalized(id, price.view(), amount.view(), source),
        r is Some ==> (r->Some_0.side == Side::Bid <==> is_positive(amount.view())),
        r is Some ==> (r->Some_0.action == Action::Cancel <==> is_zero(price.view())),
        r is Some ==> r->Some_0.id == id && r->Some_0.source == source,
{
    let price_mag = match scale_magnitude(price.mantissa, price.exponent, PRICE_PLACES) {
        Some(v) => v,
        None => return None,
    };
    let size = match scale_magnitude(amount.mantissa, amount.exponent, SIZE_PLACES) {
        Some(v) => v,
        None => return None,
    };
    let fixed_price: i32 = if price.negative {
        if price_mag > 2147483648 {
            return None;
        }
        (-(price_mag as i64)) as i32
    } else {
        if price_mag > 2147483647 {
            return None;
        }
        price_mag as i32
    };
    Some(
        Record {
            id,
            price: fixed_price,
            size,
            side: if amount.is_positive() {
                Side::Bid
            } else {
                Side::Ask
            },
            action: if price.is_zero() {
                Action::Cancel
            } else {
                Action::Upsert
            },
            source,
        },
    )
}

} // verus!
