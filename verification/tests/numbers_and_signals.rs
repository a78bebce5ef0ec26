use tradeogre_bot::decimal::{i32_to_decimal, parse_i32, u64_to_decimal};
use tradeogre_bot::order_key::{key_at_least, key_is_zero, OrderKey};
use tradeogre_bot::signals::{
    convert_history, count_more_ones_than_zeros, price_movement, price_text, successive_movements,
    translate,
};
use tradeogre_bot::windows::{keep_latest, load_data, newest_first};

fn k(v: i64) -> OrderKey {
    OrderKey::Ordered(v)
}

/// Candle lines with the given opening prices (dates and other prices made up).
fn lines(opens: &[OrderKey]) -> Vec<(String, Vec<OrderKey>)> {
    opens
        .iter()
        .enumerate()
        .map(|(i, o)| (format!("2020-01-{:02}", i + 1), vec![*o, k(100), k(-1), k(7)]))
        .collect()
}

#[test]
fn decimal_text_of_integers() {
    assert_eq!(i32_to_decimal(0), "0");
    assert_eq!(i32_to_decimal(7), "7");
    assert_eq!(i32_to_decimal(-42), "-42");
    assert_eq!(i32_to_decimal(1000), "1000");
    assert_eq!(i32_to_decimal(i32::MAX), "2147483647");
    assert_eq!(i32_to_decimal(i32::MIN), "-2147483648");
    assert_eq!(u64_to_decimal(0), "0");
    assert_eq!(u64_to_decimal(18446744073709551615), "18446744073709551615");
}

#[test]
fn parse_i32_accepts_what_std_accepts() {
    assert_eq!(parse_i32("123"), Some(123));
    assert_eq!(parse_i32("+5"), Some(5));
    assert_eq!(parse_i32("-0"), Some(0));
    assert_eq!(parse_i32("007"), Some(7));
    assert_eq!(parse_i32("-2147483648"), Some(i32::MIN));
    assert_eq!(parse_i32("2147483647"), Some(i32::MAX));
}

#[test]
fn parse_i32_refuses_what_std_refuses() {
    for text in ["", "-", "+", "12a", "a12", " 1", "1 ", "--1", "2147483648", "-2147483649", "99999999999999999999"] {
        assert_eq!(parse_i32(text), None, "{text}");
        assert!(text.parse::<i32>().is_err());
    }
}

#[test]
fn decimal_round_trip_law() {
    for n in [0, 1, -1, 9, 10, -10, 12345, -98765, i32::MAX, i32::MIN] {
        assert_eq!(parse_i32(&i32_to_decimal(n)), Some(n));
        assert_eq!(i32_to_decimal(n), n.to_string());
    }
}

#[test]
fn order_key_comparisons() {
    assert!(key_at_least(k(5), k(5)));
    assert!(key_at_least(k(6), k(5)));
    assert!(!key_at_least(k(4), k(5)));
    assert!(!key_at_least(OrderKey::Unordered, k(5)));
    assert!(!key_at_least(k(5), OrderKey::Unordered));
    assert!(!key_at_least(OrderKey::Unordered, OrderKey::Unordered));
    assert!(key_is_zero(k(0)));
    assert!(!key_is_zero(k(1)));
    assert!(!key_is_zero(OrderKey::Unordered));
}

#[test]
fn price_movement_marks() {
    assert_eq!(price_movement(k(10), k(10)), 1);
    assert_eq!(price_movement(k(11), k(10)), 1);
    assert_eq!(price_movement(k(9), k(10)), 0);
    assert_eq!(price_movement(OrderKey::Unordered, k(0)), 0);
}

#[test]
fn convert_history_compares_with_first_nonzero_price() {
    let prices = vec![k(0), k(0), k(5), k(3), k(7), OrderKey::Unordered, k(5)];
    assert_eq!(convert_history(&prices), vec![1, 1, 1, 0, 1, 0, 1]);
    assert_eq!(convert_history(&vec![]), Vec::<u8>::new());
    // A reading that is not a number becomes the reference and nothing reaches it.
    let prices = vec![OrderKey::Unordered, k(1), k(2)];
    assert_eq!(convert_history(&prices), vec![0, 0, 0]);
}

#[test]
fn reference_settles_law() {
    // After the first nonzero price, every later price is compared with it.
    let prices = vec![k(4), k(10), k(2), k(4)];
    assert_eq!(convert_history(&prices), vec![1, 1, 0, 1]);
}

#[test]
fn successive_movements_compare_neighbours() {
    let prices = vec![k(3), k(2), k(2), k(5), k(-1)];
    assert_eq!(successive_movements(&prices), vec![1, 0, 1, 1, 0]);
    assert_eq!(successive_movements(&vec![k(-3)]), vec![0]);
}

#[test]
fn marks_are_binary_law() {
    let prices = vec![k(3), OrderKey::Unordered, k(0), k(-9), k(9)];
    for m in convert_history(&prices).into_iter().chain(successive_movements(&prices)) {
        assert!(m == 0 || m == 1);
    }
}

#[test]
fn translate_words() {
    assert_eq!(translate(&vec![0, 1, 2, 0]), vec!["Sell", "Buy", "Buy", "Sell"]);
    assert_eq!(translate(&vec![]), Vec::<String>::new());
}

#[test]
fn count_more_ones_than_zeros_counts() {
    assert_eq!(count_more_ones_than_zeros(&vec![1, 0, 1, 2, 0, 1]), (true, 3, 2));
    assert_eq!(count_more_ones_than_zeros(&vec![0, 0, 1]), (false, 1, 2));
    assert_eq!(count_more_ones_than_zeros(&vec![1, 0]), (true, 1, 1));
    assert_eq!(count_more_ones_than_zeros(&vec![]), (true, 0, 0));
    assert_eq!(count_more_ones_than_zeros(&vec![2, 3]), (true, 0, 0));
}

#[test]
fn binary_counts_law() {
    let marks = vec![1, 0, 0, 1, 1, 0, 1];
    let (more, ones, zeros) = count_more_ones_than_zeros(&marks);
    assert_eq!((ones + zeros) as usize, marks.len());
    assert_eq!(more, 2 * ones as usize >= marks.len());
}

#[test]
fn price_text_drops_quotes() {
    assert_eq!(price_text("\"0.00001234\""), "0.00001234");
    assert_eq!(price_text("12.5"), "12.5");
    assert_eq!(price_text("a\"b\"\"c"), "abc");
    assert_eq!(price_text(""), "");
    assert_eq!(price_text("\"é\""), "é");
}

#[test]
fn keep_latest_and_newest_first() {
    let v = vec![1u8, 2, 3, 4];
    assert_eq!(keep_latest(&v, 2), vec![3, 4]);
    assert_eq!(keep_latest(&v, 4), vec![1, 2, 3, 4]);
    assert_eq!(keep_latest(&v, 10), vec![1, 2, 3, 4]);
    assert_eq!(keep_latest(&v, 0), Vec::<u8>::new());
    assert_eq!(newest_first(&v, 3), vec![4, 3, 2]);
    assert_eq!(newest_first(&v, 9), vec![4, 3, 2, 1]);
    let f = vec![1.5f64, 2.5, 3.5];
    assert_eq!(keep_latest(&f, 2), vec![2.5, 3.5]);
}

#[test]
fn load_data_positive_size() {
    // movements of [1, 2, 1, 3, 3] are [1, 1, 0, 1, 1]
    let opens = vec![k(1), k(2), k(1), k(3), k(3)];
    let windows = load_data(&lines(&opens), 3);
    assert_eq!(
        windows,
        vec![
            ("0".to_string(), vec![1, 1, 0]),
            ("1".to_string(), vec![1, 0, 1]),
            ("2".to_string(), vec![0, 1, 1]),
        ]
    );
    assert_eq!(load_data(&lines(&opens), 5).len(), 1);
    assert_eq!(load_data(&lines(&opens), 6), vec![]);
    assert_eq!(load_data(&lines(&opens), 1).len(), 5);
}

#[test]
fn load_data_zero_and_negative_sizes() {
    let opens = vec![k(1), k(0), k(4)];
    assert_eq!(
        load_data(&lines(&opens), 0),
        vec![("0".to_string(), vec![]), ("1".to_string(), vec![]), ("2".to_string(), vec![])]
    );
    assert_eq!(
        load_data(&lines(&opens), -1),
        vec![
            ("0".to_string(), vec![1]),
            ("1".to_string(), vec![1, 0]),
            ("2".to_string(), vec![1, 0, 1]),
        ]
    );
    assert_eq!(load_data(&lines(&[]), i32::MIN), vec![]);
}

#[test]
fn windows_slide_law() {
    let opens = vec![k(5), k(6), k(2), k(2), k(9), k(1)];
    let windows = load_data(&lines(&opens), 3);
    for i in 0..windows.len() - 1 {
        assert_eq!(windows[i].1[1..], windows[i + 1].1[..2]);
        assert_eq!(windows[i].1.len(), 3);
    }
}

#[test]
fn window_is_latest_law() {
    let opens = vec![k(5), k(6), k(2), k(2), k(9), k(1)];
    let marks = successive_movements(&opens);
    let windows = load_data(&lines(&opens), 3);
    for (i, (_, w)) in windows.iter().enumerate() {
        let read: Vec<u8> = marks[..i + 3].to_vec();
        assert_eq!(&keep_latest(&read, 3), w);
    }
}

#[test]
fn load_data_reads_opening_prices_only_law() {
    let opens = vec![k(5), k(6), k(2), k(2), k(9), k(1)];
    let a = lines(&opens);
    let b: Vec<(String, Vec<OrderKey>)> = opens
        .iter()
        .enumerate()
        .map(|(i, o)| (format!("day {}", 100 - i), vec![*o, OrderKey::Unordered]))
        .collect();
    for m in [-2, 0, 1, 3, 7] {
        assert_eq!(load_data(&a, m), load_data(&b, m));
    }
}
