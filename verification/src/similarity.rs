use vstd::prelude::*;

use crate::decimal::{decimal_text, i32_to_decimal, parse_i32, parse_i32_text};
use crate::order_key::OrderKey;
use crate::windows::copy_range;

verus! {

/// The integer by which a key is ranked; an unordered key ranks as 0
/// (rankings are only asked for where no such key meets another).
pub open spec fn key_value(k: OrderKey) -> int {
    match k {
        OrderKey::Ordered(v) => v as int,
        OrderKey::Unordered => 0,
    }
}

/// Whether every key stands for a number.
pub open spec fn all_ordered(keys: Seq<OrderKey>) -> bool {
    forall|i: int| 0 <= i < keys.len() ==> #[trigger] keys[i] is Ordered
}

/// Entry `i` comes before entry `j` in a ranking by similarity: the more
/// similar first, and of two equally similar entries the earlier one first.
pub open spec fn ranks_before(keys: Seq<OrderKey>, i: int, j: int) -> bool {
    key_value(keys[i]) > key_value(keys[j]) || (key_value(keys[i]) == key_value(keys[j]) && i < j)
}

/// `r` lists the `k` best-ranked entries of `keys` (all of them when there are
/// fewer than `k`), best first.
pub open spec fn is_top_ranking(keys: Seq<OrderKey>, r: Seq<usize>, k: nat) -> bool {
    &&& r.len() == if k < keys.len() { k } else { keys.len() }
    &&& forall|i: int| 0 <= i < r.len() ==> #[trigger] r[i] < keys.len()
    &&& forall|i: int, j: int|
        0 <= i < j < r.len() ==> ranks_before(keys, #[trigger] r[i] as int, #[trigger] r[j] as int)
    &&& forall|y: usize, i: int|
        #![trigger r.contains(y), r[i]]
        y < keys.len() && !r.contains(y) && 0 <= i < r.len() ==> ranks_before(
            keys,
            r[i] as int,
            y as int,
        )
}

fn ranks_before_exec(keys: &Vec<OrderKey>, i: usize, j: usize) -> (b: bool)
    requires
        i < keys.len(),
        j < keys.len(),
    ensures
        b == ranks_before(keys@, i as int, j as int),
{
    let a: i64 = match keys[i] {
        OrderKey::Ordered(v) => v,
        OrderKey::Unordered => 0,
    };
    let b: i64 = match keys[j] {
        OrderKey::Ordered(v) => v,
        OrderKey::Unordered => 0,
    };
    a > b || (a == b && i < j)
}

/// Ranks entries by similarity, as sorting by descending similarity with a
/// stable sort and keeping the first `k` does: returns the positions of the
/// `k` most similar entries, most similar first, ties in their first order.
/// The keys stand for the similarities; a key that is not a number would make
/// that sort fail as soon as two entries are compared.
pub fn rank_by_similarity(keys: &Vec<OrderKey>, k: usize) -> (r: Vec<usize>)
    requires
        keys.len() < 2 || all_ordered(keys@),
    ensures
        is_top_ranking(keys@, r@, k as nat),
{
    let n = keys.len();
    let m = if k < n {
        k
    } else {
        n
    };
    let mut best: Vec<usize> = Vec::new();
    let mut x: usize = 0;
    while x < n
        invariant
            n == keys.len(),
            m <= n,
            m == if k < n { k } else { n },
            x <= n,
            best.len() == if m < x { m } else { x },
            forall|i: int| 0 <= i < best.len() ==> #[trigger] best[i] < x,
            forall|i: int, j: int|
                0 <= i < j < best.len() ==> ranks_before(
                    keys@,
                    #[trigger] best[i] as int,
                    #[trigger] best[j] as int,
                ),
            forall|y: usize, i: int|
                #![trigger best@.contains(y), best[i]]
                y < x && !best@.contains(y) && 0 <= i < best.len() ==> ranks_before(
                    keys@,
                    best[i] as int,
                    y as int,
                ),
            forall|y: usize| y < x && best.len() < m ==> #[trigger] best@.contains(y),
        decreases n - x,
    {
        let mut p: usize = 0;
        while p < best.len() && ranks_before_exec(keys, best[p], x)
            invariant
                n == keys.len(),
                x < n,
                p <= best.len(),
                forall|i: int| 0 <= i < best.len() ==> #[trigger] best[i] < x,
                forall|i: int| 0 <= i < p ==> ranks_before(keys@, #[trigger] best[i] as int, x as int),
            decreases best.len() - p,
        {
            p = p + 1;
        }
        // `x` belongs at position `p`: after every kept entry before `p`,
        // before every kept entry from `p` on.
        let ghost old_best = best@;
        proof {
            if p < best.len() {
                assert(!ranks_before(keys@, best[p as int] as int, x as int));
                assert(best[p as int] < x);
                assert forall|j: int| p <= j < best.len() implies ranks_before(
                    keys@,
                    x as int,
                    #[trigger] best[j] as int,
                ) by {
                    if j > p {
                        assert(ranks_before(keys@, best[p as int] as int, best[j] as int));
                    }
                }
            }
        }
        if p < m {
            best.insert(p, x);
            proof {
                assert forall|i: int, j: int|
                    0 <= i < j < best.len() implies ranks_before(
                    keys@,
                    #[trigger] best[i] as int,
                    #[trigger] best[j] as int,
                ) by {
                    if i < p && j < p {
                        assert(best[i] == old_best[i] && best[j] == old_best[j]);
                    } else if i < p && j == p {
                    } else if i < p {
                        assert(best[i] == old_best[i] && best[j] == old_best[j - 1]);
                    } else if i == p {
                        assert(best[j] == old_best[j - 1]);
                    } else {
                        assert(best[i] == old_best[i - 1] && best[j] == old_best[j - 1]);
                    }
                }
            }
            if best.len() > m {
                // The entry pushed out of the first `m` places ranks after all
                // that stay, and so after every entry left out before.
                let ghost before_pop = best@;
                let _ = best.pop();
                proof {
                    let z = before_pop[m as int];
                    assert(best@ =~= before_pop.subrange(0, m as int));
                    assert forall|y: usize, i: int|
                        y < x + 1 && !best@.contains(y) && 0 <= i
                            < best.len() implies #[trigger] ranks_before(
                        keys@,
                        best[i] as int,
                        y as int,
                    ) by {
                        assert(best[i] == before_pop[i]);
                        if y == z {
                            assert(ranks_before(keys@, before_pop[i] as int, before_pop[m as int] as int));
                        } else {
                            if y == x {
                                assert(before_pop[p as int] == x);
                                assert(best@[p as int] == x);
                                assert(best@.contains(x));
                            }
                            assert(y < x);
                            if old_best.contains(y) {
                                let q = choose|q: int| 0 <= q < old_best.len() && old_best[q] == y;
                                if q < p {
                                    assert(before_pop[q] == y);
                                    assert(best@[q] == y);
                                    assert(best@.contains(y));
                                } else {
                                    assert(before_pop[q + 1] == y);
                                    if q + 1 < m {
                                        assert(best[q + 1] == y);
                                    }
                                    assert(q + 1 == m);
                                }
                            } else {
                                assert(old_best.len() == m);
                                let w = old_best[m - 1];
                                assert(ranks_before(keys@, w as int, y as int));
                                assert(ranks_before(keys@, before_pop[i] as int, before_pop[m as int] as int));
                            }
                        }
                    }
                }
            } else {
                proof {
                    assert forall|y: usize, i: int|
                        y < x + 1 && !best@.contains(y) && 0 <= i
                            < best.len() implies #[trigger] ranks_before(
                        keys@,
                        best[i] as int,
                        y as int,
                    ) by {
                        if y == x {
                            assert(best[p as int] == x);
                        } else if old_best.contains(y) {
                            let q = choose|q: int| 0 <= q < old_best.len() && old_best[q] == y;
                            if q < p {
                                assert(best[q] == y);
                            } else {
                                assert(best[q + 1] == y);
                            }
                        } else {
                            if i < p {
                                assert(best[i] == old_best[i]);
                            } else if i > p {
                                assert(best[i] == old_best[i - 1]);
                            } else {
                                assert(old_best.len() == m);
                            }
                        }
                    }
                    assert forall|y: usize| y < x + 1 && best.len() < m implies #[trigger] best@.contains(
                        y,
                    ) by {
                        if y == x {
                            assert(best[p as int] == x);
                        } else {
                            assert(old_best.contains(y));
                            let q = choose|q: int| 0 <= q < old_best.len() && old_best[q] == y;
                            if q < p {
                                assert(best[q] == y);
                            } else {
                                assert(best[q + 1] == y);
                            }
                        }
                    }
                }
            }
        }
        x = x + 1;
    }
    best
}

/// The id `offset` places after the id `id`: `id` read as a 32-bit integer,
/// plus `offset`, in decimal; none when `id` is not such an integer or the
/// sum leaves the 32-bit range.
pub open spec fn successor_text(id: Seq<char>, offset: int) -> Option<Seq<char>> {
    match parse_i32_text(id) {
        Some(v) => if i32::MIN <= v + offset <= i32::MAX {
            Some(decimal_text(v + offset))
        } else {
            None
        },
        None => None,
    }
}

/// The id that lies `offset` places after `id` in the numbering of the
/// stored vectors: `id` read as a 32-bit integer, plus `offset`, written back
/// in decimal. `None` where `id` is not such an integer or the sum leaves the
/// 32-bit range (there the prediction cannot be looked up).
pub fn successor_id(id: &str, offset: i32) -> (r: Option<String>)
    ensures
        match successor_text(id@, offset as int) {
            Some(t) => r matches Some(s) && s@ == t,
            None => r is None,
        },
{
    match parse_i32(id) {
        Some(v) => {
            let sum: i64 = v as i64 + offset as i64;
            if sum < i32::MIN as i64 || sum > i32::MAX as i64 {
                None
            } else {
                Some(i32_to_decimal(sum as i32))
            }
        },
        None => None,
    }
}

/// The last `count` entries of a stored vector: the predicted movements.
pub fn prediction_tail<T: Copy>(values: &Vec<T>, count: i32) -> (r: Vec<T>)
    requires
        0 <= count <= values.len(),
    ensures
        r@ == values@.subrange(values.len() - count, values.len() as int),
{
    copy_range(values, values.len() - count as usize, values.len())
}

/// Asking for fewer of the most similar entries gives a prefix of asking for
/// more: any two top rankings of the same keys agree on their common length
/// (so a top ranking of a given size is unique).
pub proof fn law_ranking_prefix(keys: Seq<OrderKey>, r1: Seq<usize>, k1: nat, r2: Seq<usize>, k2: nat)
    requires
        is_top_ranking(keys, r1, k1),
        is_top_ranking(keys, r2, k2),
        k1 <= k2,
    ensures
        r1.len() <= r2.len(),
        r1 == r2.subrange(0, r1.len() as int),
{
    assert forall|p: int| 0 <= p < r1.len() implies r1[p] == r2[p] by {
        lemma_rankings_agree_at(keys, r1, k1, r2, k2, p);
    }
    assert(r1 =~= r2.subrange(0, r1.len() as int));
}

proof fn lemma_rankings_agree_at(keys: Seq<OrderKey>, r1: Seq<usize>, k1: nat, r2: Seq<usize>, k2: nat, p: int)
    requires
        is_top_ranking(keys, r1, k1),
        is_top_ranking(keys, r2, k2),
        k1 <= k2,
        0 <= p < r1.len(),
    ensures
        r1[p] == r2[p],
    decreases p,
{
    assert(r1.len() <= r2.len());
    if p > 0 {
        assert forall|q: int| 0 <= q < p implies r1[q] == r2[q] by {
            lemma_rankings_agree_at(keys, r1, k1, r2, k2, q);
        }
    }
    let a = r1[p];
    let b = r2[p];
    if a != b {
        if ranks_before(keys, a as int, b as int) {
            if r2.contains(a) {
                let q = choose|q: int| 0 <= q < r2.len() && r2[q] == a;
                if q < p {
                    assert(r1[q] == a);
                    assert(ranks_before(keys, r1[q] as int, r1[p] as int));
                } else {
                    assert(q != p);
                    assert(ranks_before(keys, r2[p] as int, r2[q] as int));
                }
            } else {
                assert(ranks_before(keys, r2[p] as int, a as int));
            }
        } else {
            assert(ranks_before(keys, b as int, a as int));
            if r1.contains(b) {
                let q = choose|q: int| 0 <= q < r1.len() && r1[q] == b;
                if q < p {
                    assert(r2[q] == b);
                    assert(ranks_before(keys, r2[q] as int, r2[p] as int));
                } else {
                    assert(q != p);
                    assert(ranks_before(keys, r1[p] as int, r1[q] as int));
                }
            } else {
                assert(ranks_before(keys, r1[p] as int, b as int));
            }
        }
    }
}

/// The prediction for a stored window lies `offset` windows later: the id
/// that follows the name of window `i` by `offset` is the name of window
/// `i + offset`.
pub proof fn law_successor_of_window_name(i: i32, offset: i32)
    requires
        i32::MIN <= i + offset <= i32::MAX,
    ensures
        successor_text(decimal_text(i as int), offset as int) == Some(decimal_text(i + offset)),
{
    crate::decimal::law_decimal_round_trip(i);
}

} // verus!
