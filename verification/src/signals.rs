use vstd::prelude::*;

use crate::order_key::{at_least, is_zero, key_at_least, key_is_zero, zero_key, OrderKey};

verus! {

/// The movement mark of a price against a reference: 1 when the price is at
/// least the reference, else 0.
pub open spec fn movement(price: OrderKey, reference: OrderKey) -> u8 {
    if at_least(price, reference) {
        1
    } else {
        0
    }
}

/// The reference that the history conversion holds after reading the first
/// `n` prices: it starts at 0.0 and takes the first price read while it is
/// still zero.
pub open spec fn history_reference(prices: Seq<OrderKey>, n: nat) -> OrderKey
    decreases n,
{
    if n == 0 {
        zero_key()
    } else {
        let previous = history_reference(prices, (n - 1) as nat);
        if is_zero(previous) {
            prices[n - 1]
        } else {
            previous
        }
    }
}

/// The movement marks of a history: each price compared with the reference
/// held once that price has been read.
pub open spec fn history_marks(prices: Seq<OrderKey>) -> Seq<u8> {
    Seq::new(prices.len(), |i: int| movement(prices[i], history_reference(prices, (i + 1) as nat)))
}

/// The movement marks of consecutive prices: each price compared with the
/// one before it, the first with 0.0.
pub open spec fn successive_marks(prices: Seq<OrderKey>) -> Seq<u8> {
    Seq::new(
        prices.len(),
        |i: int| movement(prices[i], if i == 0 { zero_key() } else { prices[i - 1] }),
    )
}

/// How often `x` occurs in `s`.
pub open spec fn count_of(s: Seq<u8>, x: u8) -> nat
    decreases s.len(),
{
    if s.len() == 0 {
        0
    } else {
        count_of(s.drop_last(), x) + if s.last() == x { 1nat } else { 0nat }
    }
}

/// A prefix holds no more of a value than the whole sequence.
proof fn lemma_prefix_count(s: Seq<u8>, k: int, x: u8)
    requires
        0 <= k <= s.len(),
    ensures
        count_of(s.subrange(0, k), x) <= count_of(s, x),
    decreases s.len() - k,
{
    if k == s.len() {
        assert(s.subrange(0, k) =~= s);
    } else {
        lemma_prefix_count(s, k + 1, x);
        assert(s.subrange(0, k + 1).drop_last() =~= s.subrange(0, k));
    }
}

/// The word for a mark: "Sell" for 0, "Buy" for anything else.
pub open spec fn action_word(mark: u8) -> Seq<char> {
    if mark == 0 {
        seq!['S', 'e', 'l', 'l']
    } else {
        seq!['B', 'u', 'y']
    }
}

/// The mark of a price movement: 1 when `price` is at least `last_price`.
pub fn price_movement(price: OrderKey, last_price: OrderKey) -> (r: u8)
    ensures
        r == movement(price, last_price),
{
    if key_at_least(price, last_price) {
        1
    } else {
        0
    }
}

/// Turns a trade history (its prices, oldest first) into movement marks:
/// each price against the first price of the history that is not zero.
pub fn convert_history(prices: &Vec<OrderKey>) -> (r: Vec<u8>)
    ensures
        r@ == history_marks(prices@),
{
    let mut marks: Vec<u8> = Vec::new();
    let mut reference = OrderKey::Ordered(0);
    let mut i: usize = 0;
    while i < prices.len()
        invariant
            i <= prices.len(),
            reference == history_reference(prices@, i as nat),
            marks.len() == i,
            forall|j: int| 0 <= j < i ==> #[trigger] marks[j] == history_marks(prices@)[j],
        decreases prices.len() - i,
    {
        let price = prices[i];
        if key_is_zero(reference) {
            reference = price;
        }
        marks.push(price_movement(price, reference));
        i = i + 1;
    }
    assert(marks@ =~= history_marks(prices@));
    marks
}

/// The movement marks of consecutive prices, the first against 0.0.
pub fn successive_movements(prices: &Vec<OrderKey>) -> (r: Vec<u8>)
    ensures
        r@ == successive_marks(prices@),
{
    let mut marks: Vec<u8> = Vec::new();
    let mut last = OrderKey::Ordered(0);
    let mut i: usize = 0;
    while i < prices.len()
        invariant
            i <= prices.len(),
            last == if i == 0 { zero_key() } else { prices@[i - 1] },
            marks.len() == i,
            forall|j: int| 0 <= j < i ==> #[trigger] marks[j] == successive_marks(prices@)[j],
        decreases prices.len() - i,
    {
        let price = prices[i];
        marks.push(price_movement(price, last));
        last = price;
        i = i + 1;
    }
    assert(marks@ =~= successive_marks(prices@));
    marks
}

fn action_string(mark: u8) -> (s: String)
    ensures
        s@ == action_word(mark),
{
    if mark == 0 {
        proof { reveal_strlit("Sell"); }
        String::from_str("Sell")
    } else {
        proof { reveal_strlit("Buy"); }
        String::from_str("Buy")
    }
}

/// Spells out predicted marks: "Sell" for a mark of 0, "Buy" for any other.
pub fn translate(marks: &Vec<u8>) -> (r: Vec<String>)
    ensures
        r.len() == marks.len(),
        forall|i: int| 0 <= i < marks.len() ==> #[trigger] r[i]@ == action_word(marks[i]),
{
    let mut words: Vec<String> = Vec::new();
    let mut i: usize = 0;
    while i < marks.len()
        invariant
            i <= marks.len(),
            words.len() == i,
            forall|j: int| 0 <= j < i ==> #[trigger] words[j]@ == action_word(marks[j]),
        decreases marks.len() - i,
    {
        words.push(action_string(marks[i]));
        i = i + 1;
    }
    words
}

/// Counts the marks 1 and 0 (other marks count for neither) and tells
/// whether the ones are at least as many as the zeros.
pub fn count_more_ones_than_zeros(marks: &Vec<u8>) -> (r: (bool, i32, i32))
    requires
        count_of(marks@, 1) <= i32::MAX,
        count_of(marks@, 0) <= i32::MAX,
    ensures
        r.1 == count_of(marks@, 1),
        r.2 == count_of(marks@, 0),
        r.0 == (r.1 >= r.2),
{
    let mut ones: i32 = 0;
    let mut zeros: i32 = 0;
    let mut i: usize = 0;
    while i < marks.len()
        invariant
            i <= marks.len(),
            count_of(marks@, 1) <= i32::MAX,
            count_of(marks@, 0) <= i32::MAX,
            ones == count_of(marks@.subrange(0, i as int), 1),
            zeros == count_of(marks@.subrange(0, i as int), 0),
        decreases marks.len() - i,
    {
        proof {
            assert(marks@.subrange(0, i + 1).drop_last() =~= marks@.subrange(0, i as int));
            lemma_prefix_count(marks@, (i + 1) as int, 1);
            lemma_prefix_count(marks@, (i + 1) as int, 0);
        }
        if marks[i] == 1 {
            ones = ones + 1;
        } else if marks[i] == 0 {
            zeros = zeros + 1;
        }
        i = i + 1;
    }
    assert(marks@.subrange(0, marks.len() as int) =~= marks@);
    (ones >= zeros, ones, zeros)
}

/// The text with every double quote taken out.
pub open spec fn without_quotes(s: Seq<char>) -> Seq<char> {
    s.filter(|c: char| c != '"')
}

/// A price as text, with every double quote taken out (a price that the
/// exchange reports as a JSON string comes with its quotes).
pub fn price_text(raw: &str) -> (r: String)
    ensures
        r@ == without_quotes(raw@),
{
    let len = raw.unicode_len();
    let mut out = String::new();
    let mut i: usize = 0;
    while i < len
        invariant
            i <= len == raw@.len(),
            out@ == without_quotes(raw@.subrange(0, i as int)),
        decreases len - i,
    {
        let c = raw.get_char(i);
        proof {
            let pre = raw@.subrange(0, i as int);
            let post = raw@.subrange(0, i + 1);
            assert(post.drop_last() =~= pre);
            assert(post.last() == c);
            reveal(Seq::filter);
        }
        if c != '"' {
            out.append(raw.substring_char(i, i + 1));
            proof {
                assert(raw@.subrange(i as int, i + 1) =~= seq![c]);
            }
        }
        i = i + 1;
    }
    assert(raw@.subrange(0, len as int) =~= raw@);
    out
}

/// Whether every mark is 0 or 1.
pub open spec fn binary(s: Seq<u8>) -> bool {
    forall|i: int| 0 <= i < s.len() ==> #[trigger] s[i] == 0 || s[i] == 1
}

/// Movement marks are 0 or 1, for histories and for consecutive prices.
pub proof fn law_marks_are_binary(prices: Seq<OrderKey>)
    ensures
        binary(history_marks(prices)),
        binary(successive_marks(prices)),
{
}

/// Of marks that are all 0 or 1, the ones and zeros together are all of
/// them; so "at least as many ones as zeros" means at least half are ones.
pub proof fn law_binary_counts(s: Seq<u8>)
    requires
        binary(s),
    ensures
        count_of(s, 1) + count_of(s, 0) == s.len(),
        (count_of(s, 1) >= count_of(s, 0)) == (2 * count_of(s, 1) >= s.len()),
    decreases s.len(),
{
    if s.len() > 0 {
        let p = s.drop_last();
        assert forall|i: int| 0 <= i < p.len() implies #[trigger] p[i] == 0 || p[i] == 1 by {
            assert(p[i] == s[i]);
        }
        law_binary_counts(p);
        assert(s.last() == s[s.len() - 1]);
    }
}

/// Once the history reference is a nonzero reading it stays that reading:
/// every later price is compared with the first price that was not zero.
pub proof fn law_reference_settles(prices: Seq<OrderKey>, n: nat, k: nat)
    requires
        n <= k <= prices.len(),
        !is_zero(history_reference(prices, n)),
    ensures
        history_reference(prices, k) == history_reference(prices, n),
    decreases k - n,
{
    if k > n {
        law_reference_settles(prices, n, (k - 1) as nat);
    }
}

} // verus!
