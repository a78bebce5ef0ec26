use vstd::prelude::*;
use vstd::utf8::{decode_utf8, encode_utf8, encode_utf8_decode_utf8};

verus! {

/// The rows that the `csv` crate's default reader reads from the bytes of a
/// file, in order: the first row is taken as the header and not listed, and
/// each further row is either accepted, with its fields, or rejected, with
/// the message of the error reported for it.
pub uninterp spec fn csv_rows_of(bytes: Seq<u8>) -> Seq<Result<Seq<Seq<char>>, Seq<char>>>;

/// The texts of a list of strings.
pub open spec fn texts(v: Seq<String>) -> Seq<Seq<char>> {
    Seq::new(v.len(), |i: int| v[i]@)
}

/// A row as plain texts.
pub open spec fn row_view(r: Result<Vec<String>, String>) -> Result<Seq<Seq<char>>, Seq<char>> {
    match r {
        Ok(fields) => Ok(texts(fields@)),
        Err(message) => Err(message@),
    }
}

/// `csv::Reader::from_reader` over the bytes, then its `records` iterator
/// (default settings: a header row, rows as long as the header), each record
/// turned into its fields and each error into its message. Claimed of it:
/// the rows are `csv_rows_of(bytes)`, a function of the bytes alone.
#[verifier::external_body]
fn read_csv_rows(bytes: &[u8]) -> (r: Vec<Result<Vec<String>, String>>)
    ensures
        r.len() == csv_rows_of(bytes@).len(),
        forall|i: int| 0 <= i < r.len() ==> row_view(#[trigger] r[i]) == csv_rows_of(bytes@)[i],
{
    let mut reader = csv::Reader::from_reader(bytes);
    reader
        .records()
        .map(|row| match row {
            Ok(record) => Ok(record.iter().map(|field| field.to_string()).collect()),
            Err(error) => Err(error.to_string()),
        })
        .collect()
}

/// A row of the candle file: a candle (its date and its open, high, low and
/// close prices, as written), or a rejected row (the reader's message).
#[derive(Clone, Debug, PartialEq, Eq)]
pub enum CandleRow {
    Candle(String, Vec<String>),
    Rejected(String),
}

/// The rows of the candle file up to the first accepted row with fewer than
/// five fields, and whether there is such a row (no candle can be read from
/// it, and reading stops there).
#[derive(Clone, Debug, PartialEq, Eq)]
pub struct CandleRows {
    pub rows: Vec<CandleRow>,
    pub short_row: bool,
}

/// An accepted row with fewer than five fields.
pub open spec fn is_short(row: Result<Seq<Seq<char>>, Seq<char>>) -> bool {
    row matches Ok(fields) && fields.len() < 5
}

/// `c` is what the row `row` reads as: an accepted row gives the candle of
/// its first field (the date) and the next four; a rejected row its message.
pub open spec fn reads_as(c: CandleRow, row: Result<Seq<Seq<char>>, Seq<char>>) -> bool {
    match row {
        Ok(fields) => c matches CandleRow::Candle(date, prices) && date@ == fields[0] && texts(
            prices@,
        ) == fields.subrange(1, 5),
        Err(message) => c matches CandleRow::Rejected(m) && m@ == message,
    }
}

/// Reads the rows of the candle file from its bytes: each row after the
/// header, in order, as a candle or a rejected row, up to the first accepted
/// row that has fewer than five fields.
pub fn load_csv(bytes: &[u8]) -> (r: CandleRows)
    ensures
        r.rows.len() <= csv_rows_of(bytes@).len(),
        forall|i: int| 0 <= i < r.rows.len() ==> !is_short(#[trigger] csv_rows_of(bytes@)[i]),
        forall|i: int| 0 <= i < r.rows.len() ==> reads_as(#[trigger] r.rows[i], csv_rows_of(bytes@)[i]),
        r.short_row ==> r.rows.len() < csv_rows_of(bytes@).len() && is_short(
            csv_rows_of(bytes@)[r.rows.len() as int],
        ),
        !r.short_row ==> r.rows.len() == csv_rows_of(bytes@).len(),
{
    let rows = read_csv_rows(bytes);
    let ghost spec_rows = csv_rows_of(bytes@);
    let mut out: Vec<CandleRow> = Vec::new();
    let mut i: usize = 0;
    while i < rows.len()
        invariant
            i <= rows.len() == spec_rows.len(),
            spec_rows == csv_rows_of(bytes@),
            forall|j: int| 0 <= j < rows.len() ==> row_view(#[trigger] rows[j]) == spec_rows[j],
            out.len() == i,
            forall|j: int| 0 <= j < i ==> !is_short(#[trigger] spec_rows[j]),
            forall|j: int| 0 <= j < i ==> reads_as(#[trigger] out[j], spec_rows[j]),
        decreases rows.len() - i,
    {
        assert(row_view(rows[i as int]) == spec_rows[i as int]);
        match &rows[i] {
            Ok(fields) => {
                if fields.len() < 5 {
                    return CandleRows { rows: out, short_row: true };
                }
                let mut prices: Vec<String> = Vec::new();
                prices.push(fields[1].clone());
                prices.push(fields[2].clone());
                prices.push(fields[3].clone());
                prices.push(fields[4].clone());
                let date = fields[0].clone();
                let ghost before = out@;
                proof {
                    assert(texts(prices@) =~= texts(fields@).subrange(1, 5));
                    assert(spec_rows[i as int] == Ok::<Seq<Seq<char>>, Seq<char>>(texts(fields@)));
                    assert(date@ == texts(fields@)[0]);
                    assert(texts(fields@).len() == fields.len());
                    assert(!is_short(spec_rows[i as int]));
                }
                out.push(CandleRow::Candle(date, prices));
                proof {
                    assert(reads_as(out[i as int], spec_rows[i as int]));
                    assert forall|j: int| 0 <= j < i + 1 implies reads_as(#[trigger] out[j], spec_rows[j]) by {
                        if j < i {
                            assert(out[j] == before[j]);
                        }
                    }
                }
            },
            Err(message) => {
                let ghost before = out@;
                out.push(CandleRow::Rejected(message.clone()));
                proof {
                    assert forall|j: int| 0 <= j < i + 1 implies reads_as(#[trigger] out[j], spec_rows[j]) by {
                        if j < i {
                            assert(out[j] == before[j]);
                        }
                    }
                }
            },
        }
        i = i + 1;
    }
    CandleRows { rows: out, short_row: false }
}

/// The order of byte strings, as strings compare: by the first differing
/// byte, and a proper prefix first.
pub open spec fn bytes_less(a: Seq<u8>, b: Seq<u8>) -> bool
    decreases a.len(),
{
    if b.len() == 0 {
        false
    } else if a.len() == 0 {
        true
    } else if a[0] != b[0] {
        a[0] < b[0]
    } else {
        bytes_less(a.drop_first(), b.drop_first())
    }
}

/// The key by which dates are ordered: the UTF-8 bytes of their text.
pub open spec fn date_key(date: Seq<char>) -> Seq<u8> {
    encode_utf8(date)
}

proof fn lemma_less_irreflexive(a: Seq<u8>)
    ensures
        !bytes_less(a, a),
    decreases a.len(),
{
    if a.len() > 0 {
        lemma_less_irreflexive(a.drop_first());
    }
}

proof fn lemma_less_transitive(a: Seq<u8>, b: Seq<u8>, c: Seq<u8>)
    requires
        bytes_less(a, b),
        bytes_less(b, c),
    ensures
        bytes_less(a, c),
    decreases a.len(),
{
    if a.len() > 0 && a[0] == b[0] && b[0] == c[0] {
        lemma_less_transitive(a.drop_first(), b.drop_first(), c.drop_first());
    }
}

proof fn lemma_less_total(a: Seq<u8>, b: Seq<u8>)
    ensures
        a != b ==> bytes_less(a, b) || bytes_less(b, a),
    decreases a.len(),
{
    if a.len() > 0 && b.len() > 0 && a[0] == b[0] {
        lemma_less_total(a.drop_first(), b.drop_first());
        if a.drop_first() == b.drop_first() {
            assert(a =~= seq![a[0]] + a.drop_first());
            assert(b =~= seq![b[0]] + b.drop_first());
        }
    } else if a.len() == 0 && b.len() == 0 {
        assert(a =~= b);
    }
}

proof fn lemma_key_injective(a: Seq<char>, b: Seq<char>)
    ensures
        date_key(a) == date_key(b) ==> a == b,
{
    encode_utf8_decode_utf8(a);
    encode_utf8_decode_utf8(b);
}

/// Compares two byte strings: -1 when `a` comes first, 0 when they are the
/// same, 1 when `b` comes first.
fn compare_bytes(a: &[u8], b: &[u8]) -> (r: i8)
    ensures
        r == -1 <==> bytes_less(a@, b@),
        r == 0 <==> a@ == b@,
        r == 1 <==> bytes_less(b@, a@),
{
    let mut i: usize = 0;
    assert(a@.subrange(0, a@.len() as int) =~= a@);
    assert(b@.subrange(0, b@.len() as int) =~= b@);
    while i < a.len() && i < b.len() && a[i] == b[i]
        invariant
            i <= a.len(),
            i <= b.len(),
            a@.subrange(0, i as int) == b@.subrange(0, i as int),
            bytes_less(a@, b@) == bytes_less(a@.subrange(i as int, a@.len() as int), b@.subrange(i as int, b@.len() as int)),
            bytes_less(b@, a@) == bytes_less(b@.subrange(i as int, b@.len() as int), a@.subrange(i as int, a@.len() as int)),
        decreases a.len() - i,
    {
        proof {
            let sa = a@.subrange(i as int, a@.len() as int);
            let sb = b@.subrange(i as int, b@.len() as int);
            assert(sa.drop_first() =~= a@.subrange(i + 1, a@.len() as int));
            assert(sb.drop_first() =~= b@.subrange(i + 1, b@.len() as int));
            assert(a@.subrange(0, i + 1) =~= a@.subrange(0, i as int).push(a@[i as int]));
            assert(b@.subrange(0, i + 1) =~= b@.subrange(0, i as int).push(b@[i as int]));
        }
        i = i + 1;
    }
    let ghost sa = a@.subrange(i as int, a@.len() as int);
    let ghost sb = b@.subrange(i as int, b@.len() as int);
    proof {
        lemma_less_irreflexive(a@);
        lemma_less_total(a@, b@);
        if bytes_less(a@, b@) {
            lemma_less_irreflexive(a@);
            if bytes_less(b@, a@) {
                lemma_less_transitive(a@, b@, a@);
            }
        }
    }
    if i == a.len() && i == b.len() {
        assert(a@ =~= a@.subrange(0, i as int));
        assert(b@ =~= b@.subrange(0, i as int));
        0
    } else if i == a.len() {
        assert(sa.len() == 0 && sb.len() > 0);
        -1
    } else if i == b.len() {
        assert(sb.len() == 0 && sa.len() > 0);
        1
    } else if a[i] < b[i] {
        assert(sa[0] == a@[i as int] && sb[0] == b@[i as int]);
        -1
    } else {
        assert(sa[0] == a@[i as int] && sb[0] == b@[i as int]);
        1
    }
}

/// The value each date last has in a list of dated values.
pub open spec fn last_by_date<T>(entries: Seq<(String, T)>) -> Map<Seq<char>, T>
    decreases entries.len(),
{
    if entries.len() == 0 {
        Map::empty()
    } else {
        last_by_date(entries.drop_last()).insert(entries.last().0@, entries.last().1)
    }
}

/// `table` holds each date of `entries` once, with the value of its last
/// entry, in ascending order of the date text (compared byte by byte, as
/// strings compare).
pub open spec fn is_date_table<T>(entries: Seq<(String, T)>, table: Seq<(String, T)>) -> bool {
    &&& forall|i: int, j: int|
        0 <= i < j < table.len() ==> bytes_less(
            date_key((#[trigger] table[i]).0@),
            date_key((#[trigger] table[j]).0@),
        )
    &&& forall|k: int|
        0 <= k < table.len() ==> last_by_date(entries).contains_key((#[trigger] table[k]).0@)
            && last_by_date(entries)[table[k].0@] == table[k].1
    &&& forall|d: Seq<char>|
        #[trigger] last_by_date(entries).contains_key(d) ==> exists|k: int|
            0 <= k < table.len() && (#[trigger] table[k]).0@ == d
}

/// Files dated values into a table: one entry per date, the last value given
/// for it winning, in ascending order of the date text.
pub fn candle_table<T: Copy>(entries: &Vec<(String, T)>) -> (r: Vec<(String, T)>)
    ensures
        is_date_table(entries@, r@),
{
    let mut table: Vec<(String, T)> = Vec::new();
    let mut i: usize = 0;
    while i < entries.len()
        invariant
            i <= entries.len(),
            is_date_table(entries@.subrange(0, i as int), table@),
        decreases entries.len() - i,
    {
        let ghost prefix = entries@.subrange(0, i as int);
        let ghost old_table = table@;
        proof {
            assert(entries@.subrange(0, i + 1).drop_last() =~= prefix);
        }
        let date = entries[i].0.clone();
        let value = entries[i].1;
        let key = date.as_str().as_bytes();
        // Find the first entry whose date does not come before `date`.
        let mut lo: usize = 0;
        let mut hi: usize = table.len();
        while lo < hi
            invariant
                0 <= lo <= hi <= table.len(),
                table@ == old_table,
                key@ == date_key(date@),
                is_date_table(prefix, table@),
                forall|j: int| 0 <= j < lo ==> bytes_less(date_key((#[trigger] table[j]).0@), key@),
                forall|j: int| hi <= j < table.len() ==> !bytes_less(date_key((#[trigger] table[j]).0@), key@),
            decreases hi - lo,
        {
            let mid = lo + (hi - lo) / 2;
            let c = compare_bytes(table[mid].0.as_str().as_bytes(), key);
            if c == -1 {
                proof {
                    assert forall|j: int| 0 <= j < mid + 1 implies bytes_less(date_key((#[trigger] table[j]).0@), key@) by {
                        if j < mid {
                            lemma_less_transitive(date_key(table[j].0@), date_key(table[mid as int].0@), key@);
                        }
                    }
                }
                lo = mid + 1;
            } else {
                proof {
                    assert forall|j: int| mid <= j < table.len() implies !bytes_less(date_key((#[trigger] table[j]).0@), key@) by {
                        if j > mid && bytes_less(date_key(table[j].0@), key@) {
                            lemma_less_transitive(date_key(table[mid as int].0@), date_key(table[j].0@), key@);
                            if c == 0 {
                                lemma_less_irreflexive(key@);
                            }
                        }
                    }
                }
                hi = mid;
            }
        }
        let p = lo;
        let found = p < table.len() && compare_bytes(table[p].0.as_str().as_bytes(), key) == 0;
        if found {
            proof {
                lemma_key_injective(table[p as int].0@, date@);
            }
            table.set(p, (date, value));
            proof {
                let next = entries@.subrange(0, i + 1);
                assert(last_by_date(next) == last_by_date(prefix).insert(date@, value));
                assert forall|a: int, b: int| 0 <= a < b < table.len() implies bytes_less(
                    date_key((#[trigger] table[a]).0@),
                    date_key((#[trigger] table[b]).0@),
                ) by {
                    assert(table[a].0@ == old_table[a].0@ && table[b].0@ == old_table[b].0@);
                }
                assert forall|k: int| 0 <= k < table.len() implies last_by_date(next).contains_key(
                    (#[trigger] table[k]).0@,
                ) && last_by_date(next)[table[k].0@] == table[k].1 by {
                    if k != p {
                        assert(table[k] == old_table[k]);
                    }
                }
                assert forall|d: Seq<char>| #[trigger] last_by_date(next).contains_key(d) implies exists|k: int|
                    0 <= k < table.len() && (#[trigger] table[k]).0@ == d by {
                    if d == date@ {
                        assert(table[p as int].0@ == d);
                    } else {
                        let k = choose|k: int| 0 <= k < old_table.len() && (#[trigger] old_table[k]).0@ == d;
                        assert(table[k].0@ == old_table[k].0@);
                    }
                }
            }
        } else {
            proof {
                if p < table.len() {
                    lemma_less_total(date_key(table[p as int].0@), key@);
                }
            }
            table.insert(p, (date, value));
            proof {
                let next = entries@.subrange(0, i + 1);
                assert(last_by_date(next) == last_by_date(prefix).insert(date@, value));
                // `date` comes after every entry before `p` and before every
                // entry from `p` on, so it is new.
                assert forall|j: int| 0 <= j < old_table.len() implies (#[trigger] old_table[j]).0@ != date@ by {
                    if j < p {
                        lemma_less_irreflexive(key@);
                    } else {
                        assert(bytes_less(key@, date_key(old_table[p as int].0@)));
                        if j > p {
                            lemma_less_transitive(key@, date_key(old_table[p as int].0@), date_key(old_table[j].0@));
                        }
                        lemma_less_irreflexive(key@);
                    }
                }
                assert forall|a: int, b: int| 0 <= a < b < table.len() implies bytes_less(
                    date_key((#[trigger] table[a]).0@),
                    date_key((#[trigger] table[b]).0@),
                ) by {
                    if b < p {
                        assert(table[a] == old_table[a] && table[b] == old_table[b]);
                    } else if b == p {
                        assert(table[a] == old_table[a]);
                    } else if a < p {
                        assert(table[a] == old_table[a] && table[b] == old_table[b - 1]);
                        assert(bytes_less(key@, date_key(old_table[p as int].0@)));
                        if b - 1 > p {
                            lemma_less_transitive(key@, date_key(old_table[p as int].0@), date_key(old_table[b - 1].0@));
                        }
                        lemma_less_transitive(date_key(old_table[a].0@), key@, date_key(old_table[b - 1].0@));
                    } else if a == p {
                        assert(table[b] == old_table[b - 1]);
                        assert(bytes_less(key@, date_key(old_table[p as int].0@)));
                        if b - 1 > p {
                            lemma_less_transitive(key@, date_key(old_table[p as int].0@), date_key(old_table[b - 1].0@));
                        }
                    } else {
                        assert(table[a] == old_table[a - 1] && table[b] == old_table[b - 1]);
                    }
                }
                assert forall|k: int| 0 <= k < table.len() implies last_by_date(next).contains_key(
                    (#[trigger] table[k]).0@,
                ) && last_by_date(next)[table[k].0@] == table[k].1 by {
                    if k < p {
                        assert(table[k] == old_table[k]);
                    } else if k > p {
                        assert(table[k] == old_table[k - 1]);
                    }
                }
                assert forall|d: Seq<char>| #[trigger] last_by_date(next).contains_key(d) implies exists|k: int|
                    0 <= k < table.len() && (#[trigger] table[k]).0@ == d by {
                    if d == date@ {
                        assert(table[p as int].0@ == d);
                    } else {
                        let k = choose|k: int| 0 <= k < old_table.len() && (#[trigger] old_table[k]).0@ == d;
                        if k < p {
                            assert(table[k] == old_table[k]);
                        } else {
                            assert(table[k + 1] == old_table[k]);
                        }
                    }
                }
            }
        }
        i = i + 1;
    }
    assert(entries@.subrange(0, entries.len() as int) =~= entries@);
    table
}

} // verus!
