use vstd::prelude::*;

use crate::decimal::{decimal_text, u64_to_decimal};

verus! {

/// The complaint about price and action logs of different lengths.
pub open spec fn length_mismatch_text() -> Seq<char> {
    "Prices and actions vectors must be of the same length."@
}

/// The rows of the trade log: for each tick its number (from 0), its price
/// as written, and its action. Logs of different lengths are refused.
pub fn csv_rows(price_texts: &Vec<String>, actions: &Vec<String>) -> (r: Result<
    Vec<(String, String, String)>,
    String,
>)
    ensures
        price_texts.len() != actions.len() ==> (r matches Err(m) && m@ == length_mismatch_text()),
        price_texts.len() == actions.len() ==> (r matches Ok(rows) && rows.len() == actions.len()
            && forall|i: int|
            0 <= i < rows.len() ==> (#[trigger] rows[i]).0@ == decimal_text(i) && rows[i].1@
                == price_texts[i]@ && rows[i].2@ == actions[i]@),
{
    if price_texts.len() != actions.len() {
        return Err(String::from_str("Prices and actions vectors must be of the same length."));
    }
    let mut rows: Vec<(String, String, String)> = Vec::new();
    let mut i: usize = 0;
    while i < actions.len()
        invariant
            i <= actions.len() == price_texts.len(),
            rows.len() == i,
            forall|j: int|
                0 <= j < i ==> (#[trigger] rows[j]).0@ == decimal_text(j) && rows[j].1@
                    == price_texts[j]@ && rows[j].2@ == actions[j]@,
        decreases actions.len() - i,
    {
        rows.push((u64_to_decimal(i as u64), price_texts[i].clone(), actions[i].clone()));
        i = i + 1;
    }
    Ok(rows)
}

} // verus!
