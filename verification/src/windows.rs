use vstd::prelude::*;

use crate::decimal::{decimal_text, i32_to_decimal};
use crate::order_key::OrderKey;
use crate::signals::{successive_marks, successive_movements};

verus! {

/// How many of the last entries a window of size `n` keeps out of `len`.
pub open spec fn kept(len: nat, n: nat) -> nat {
    if n < len {
        n
    } else {
        len
    }
}

/// How many windows the candle data of `len` movements gives for a window
/// size of `max_sticks`: one per full window when the size is positive, else
/// one per movement.
pub open spec fn window_count(len: nat, max_sticks: int) -> nat {
    if max_sticks >= 1 {
        if len >= max_sticks {
            (len - max_sticks + 1) as nat
        } else {
            0
        }
    } else {
        len
    }
}

/// Window `i` of the movements for a window size of `max_sticks`: the
/// `max_sticks` movements from `i` on when the size is positive; empty for a
/// size of zero; for a negative size, all movements up to and including `i`.
pub open spec fn window(s: Seq<u8>, max_sticks: int, i: int) -> Seq<u8> {
    if max_sticks >= 1 {
        s.subrange(i, i + max_sticks)
    } else if max_sticks == 0 {
        Seq::empty()
    } else {
        s.subrange(0, i + 1)
    }
}

/// Keeps the last `n` entries of `values` (all of them when there are fewer),
/// in their order.
pub fn keep_latest<T: Copy>(values: &Vec<T>, n: usize) -> (r: Vec<T>)
    ensures
        r@ == values@.subrange(values.len() - kept(values.len() as nat, n as nat), values.len() as int),
{
    let len = values.len();
    let start = if n < len {
        len - n
    } else {
        0
    };
    copy_range(values, start, len)
}

/// The last `n` entries of `values` (all of them when there are fewer),
/// newest first.
pub fn newest_first<T: Copy>(values: &Vec<T>, n: usize) -> (r: Vec<T>)
    ensures
        r@ == values@.subrange(values.len() - kept(values.len() as nat, n as nat), values.len() as int).reverse(),
{
    let len = values.len();
    let start = if n < len {
        len - n
    } else {
        0
    };
    let ghost tail = values@.subrange(start as int, len as int);
    let mut r: Vec<T> = Vec::new();
    let mut i = len;
    while i > start
        invariant
            start <= i <= len == values.len(),
            tail == values@.subrange(start as int, len as int),
            r.len() == len - i,
            forall|j: int| 0 <= j < r.len() ==> #[trigger] r[j] == values@[len - 1 - j],
        decreases i,
    {
        i = i - 1;
        r.push(values[i]);
    }
    assert(r@ =~= tail.reverse());
    r
}

/// The entries of `values` from `from` up to (not including) `to`.
pub(crate) fn copy_range<T: Copy>(values: &Vec<T>, from: usize, to: usize) -> (r: Vec<T>)
    requires
        from <= to <= values.len(),
    ensures
        r@ == values@.subrange(from as int, to as int),
{
    let mut r: Vec<T> = Vec::new();
    let mut i = from;
    while i < to
        invariant
            from <= i <= to <= values.len(),
            r@ == values@.subrange(from as int, i as int),
        decreases to - i,
    {
        r.push(values[i]);
        proof {
            assert(values@.subrange(from as int, i + 1) =~= values@.subrange(from as int, i as int).push(values@[i as int]));
        }
        i = i + 1;
    }
    r
}

/// The opening prices of candle lines (a date and the keys of its open,
/// high, low and close prices), in the order of the lines.
pub open spec fn opening_keys(lines: Seq<(String, Vec<OrderKey>)>) -> Seq<OrderKey> {
    Seq::new(lines.len(), |i: int| lines[i].1@[0])
}

/// Builds the named movement windows of the candle lines (in date order):
/// the movements of consecutive opening prices, cut into the windows that a
/// size of `max_sticks` gives; window `i` is named by `i` in decimal. Each
/// line must hold at least an open and a high price.
pub fn load_data(lines: &Vec<(String, Vec<OrderKey>)>, max_sticks: i32) -> (r: Vec<(String, Vec<u8>)>)
    requires
        forall|i: int| 0 <= i < lines.len() ==> (#[trigger] lines[i]).1.len() >= 2,
        window_count(lines.len() as nat, max_sticks as int) <= i32::MAX,
        max_sticks > i32::MIN || lines.len() == 0,
    ensures
        r.len() == window_count(lines.len() as nat, max_sticks as int),
        forall|i: int|
            0 <= i < r.len() ==> (#[trigger] r[i]).0@ == decimal_text(i) && r[i].1@ == window(
                successive_marks(opening_keys(lines@)),
                max_sticks as int,
                i,
            ),
{
    let mut opens: Vec<OrderKey> = Vec::new();
    let mut k: usize = 0;
    while k < lines.len()
        invariant
            k <= lines.len(),
            forall|i: int| 0 <= i < lines.len() ==> (#[trigger] lines[i]).1.len() >= 2,
            opens@ == opening_keys(lines@).subrange(0, k as int),
        decreases lines.len() - k,
    {
        opens.push(lines[k].1[0]);
        proof {
            assert(opening_keys(lines@).subrange(0, k + 1) =~= opening_keys(lines@).subrange(0, k as int).push(lines@[k as int].1@[0]));
        }
        k = k + 1;
    }
    assert(opens@ =~= opening_keys(lines@));
    let marks = successive_movements(&opens);
    let n = marks.len();
    let total: usize = if max_sticks >= 1 {
        if n >= max_sticks as usize {
            n - max_sticks as usize + 1
        } else {
            0
        }
    } else {
        n
    };
    let mut windows: Vec<(String, Vec<u8>)> = Vec::new();
    let mut i: usize = 0;
    while i < total
        invariant
            n == marks.len() == opens.len(),
            total <= i32::MAX,
            marks@ == successive_marks(opens@),
            total == window_count(n as nat, max_sticks as int),
            i <= total,
            windows.len() == i,
            forall|j: int|
                0 <= j < i ==> (#[trigger] windows[j]).0@ == decimal_text(j) && windows[j].1@
                    == window(marks@, max_sticks as int, j),
        decreases total - i,
    {
        let section: Vec<u8> = if max_sticks >= 1 {
            copy_range(&marks, i, i + max_sticks as usize)
        } else if max_sticks == 0 {
            Vec::new()
        } else {
            copy_range(&marks, 0, i + 1)
        };
        let name = i32_to_decimal(i as i32);
        windows.push((name, section));
        i = i + 1;
    }
    windows
}

/// With a positive size, every window holds `max_sticks` movements, and
/// each window is the one before it shifted by one movement.
pub proof fn law_windows_slide(s: Seq<u8>, max_sticks: int, i: int)
    requires
        max_sticks >= 1,
        0 <= i,
        i + 1 < window_count(s.len(), max_sticks),
    ensures
        window(s, max_sticks, i).len() == max_sticks,
        window(s, max_sticks, i + 1) == window(s, max_sticks, i).drop_first().push(s[i + max_sticks]),
{
    assert(window(s, max_sticks, i + 1) =~= window(s, max_sticks, i).drop_first().push(s[i + max_sticks]));
}

/// A stored window is what the trading loop keeps of the same movements:
/// window `i` is the last `max_sticks` of the movements read up to its end
/// (as `keep_latest` keeps them).
pub proof fn law_window_is_latest(s: Seq<u8>, max_sticks: int, i: int)
    requires
        max_sticks >= 1,
        0 <= i < window_count(s.len(), max_sticks),
    ensures
        ({
            let read = s.subrange(0, i + max_sticks);
            window(s, max_sticks, i) == read.subrange(
                read.len() - kept(read.len(), max_sticks as nat),
                read.len() as int,
            )
        }),
{
    let read = s.subrange(0, i + max_sticks);
    assert(kept(read.len(), max_sticks as nat) == max_sticks);
    assert(window(s, max_sticks, i) =~= read.subrange(
        read.len() - kept(read.len(), max_sticks as nat),
        read.len() as int,
    ));
}

/// Only the opening prices of the candle lines decide the windows: lines
/// that agree, line by line, on their opening price give the same windows,
/// whatever their dates and other prices.
pub proof fn law_load_data_reads_opening_prices_only(
    lines: Seq<(String, Vec<OrderKey>)>,
    other: Seq<(String, Vec<OrderKey>)>,
    max_sticks: int,
)
    requires
        lines.len() == other.len(),
        forall|i: int| 0 <= i < lines.len() ==> (#[trigger] lines[i]).1@[0] == other[i].1@[0],
    ensures
        window_count(lines.len(), max_sticks) == window_count(other.len(), max_sticks),
        forall|i: int|
            0 <= i < window_count(lines.len(), max_sticks) ==> #[trigger] window(
                successive_marks(opening_keys(lines)),
                max_sticks,
                i,
            ) == window(successive_marks(opening_keys(other)), max_sticks, i),
{
    assert(opening_keys(lines) =~= opening_keys(other));
}

} // verus!
