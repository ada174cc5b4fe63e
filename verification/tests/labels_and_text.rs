use metrix::labels::Labels;
use metrix::stats::{extremes, floor_sqrt, quantile, rank_index, sum_of, summarize, Summary};
use metrix::text::{push_decimal, push_text, str_eq, str_less};

#[test]
fn labels_start_empty() {
    let labels = Labels::new();
    assert!(labels.is_empty());
    assert_eq!(labels.len(), 0);
    assert!(labels.pairs().is_empty());
    assert!(labels.get("a").is_none());
}

#[test]
fn labels_are_kept_in_key_order() {
    let mut labels = Labels::new();
    for (k, v) in [("m", "1"), ("a", "2"), ("z", "3"), ("b", "4"), ("", "5")] {
        labels.insert(k.to_string(), v.to_string());
    }
    let keys: Vec<&str> = labels.pairs().iter().map(|p| p.0.as_str()).collect();
    assert_eq!(keys, vec!["", "a", "b", "m", "z"]);
    let values: Vec<&str> = labels.pairs().iter().map(|p| p.1.as_str()).collect();
    assert_eq!(values, vec!["5", "2", "4", "1", "3"]);
    assert_eq!(labels.len(), 5);
    assert!(!labels.is_empty());
}

#[test]
fn labels_insert_replaces_the_value_of_a_key() {
    let mut labels = Labels::new();
    labels.insert("a".to_string(), "1".to_string());
    labels.insert("b".to_string(), "2".to_string());
    labels.insert("a".to_string(), "3".to_string());
    assert_eq!(labels.len(), 2);
    assert_eq!(labels.get("a").map(|s| s.as_str()), Some("3"));
    assert_eq!(labels.get("b").map(|s| s.as_str()), Some("2"));
    assert!(labels.get("c").is_none());
    assert!(labels.get("").is_none());
}

#[test]
fn labels_built_in_any_order_are_alike() {
    let mut one = Labels::new();
    let mut two = Labels::new();
    let pairs = [("x", "1"), ("y", "2"), ("w", "3")];
    for (k, v) in pairs {
        one.insert(k.to_string(), v.to_string());
    }
    for (k, v) in pairs.iter().rev() {
        two.insert(k.to_string(), v.to_string());
    }
    assert_eq!(one.pairs(), two.pairs());
}

#[test]
fn labels_clone_has_the_same_pairs() {
    let mut labels = Labels::new();
    labels.insert("b".to_string(), "2".to_string());
    labels.insert("a".to_string(), "1".to_string());
    let copy = labels.clone();
    labels.insert("c".to_string(), "3".to_string());
    assert_eq!(copy.len(), 2);
    assert_eq!(copy.pairs()[0], ("a".to_string(), "1".to_string()));
    assert_eq!(copy.pairs()[1], ("b".to_string(), "2".to_string()));
}

#[test]
fn strings_are_ordered_as_the_standard_library_orders_them() {
    let words = ["", "a", "ab", "abc", "b", "B", "a.b", "a-b", "a_b", "\u{e9}", "z", "zz", "~"];
    for x in words {
        for y in words {
            assert_eq!(str_less(x, y), x < y, "{:?} < {:?}", x, y);
            assert_eq!(str_eq(x, y), x == y, "{:?} == {:?}", x, y);
        }
    }
}

#[test]
fn decimal_numerals() {
    for (n, text) in [
        (0u64, "0"),
        (7, "7"),
        (10, "10"),
        (99, "99"),
        (100, "100"),
        (1234567890, "1234567890"),
        (u64::MAX, "18446744073709551615"),
    ] {
        let mut s = String::new();
        push_decimal(&mut s, n);
        assert_eq!(s, text);
    }
    let mut s = "n=".to_string();
    push_decimal(&mut s, 42);
    push_text(&mut s, "; caf\u{e9}");
    assert_eq!(s, "n=42; caf\u{e9}");
}

#[test]
fn square_roots_round_down() {
    assert_eq!(floor_sqrt(0), 0);
    assert_eq!(floor_sqrt(1), 1);
    assert_eq!(floor_sqrt(3), 1);
    assert_eq!(floor_sqrt(4), 2);
    assert_eq!(floor_sqrt(99), 9);
    assert_eq!(floor_sqrt(100), 10);
    assert_eq!(floor_sqrt(u128::MAX), u64::MAX);
    let big = (u64::MAX as u128) * (u64::MAX as u128);
    assert_eq!(floor_sqrt(big), u64::MAX);
    assert_eq!(floor_sqrt(big - 1), u64::MAX - 1);
}

#[test]
fn nearest_rank_positions() {
    // ceil(p / 100 * n) - 1, kept within 0 ..= n - 1
    assert_eq!(rank_index(50, 100, 5), 2);
    assert_eq!(rank_index(100, 100, 5), 4);
    assert_eq!(rank_index(0, 100, 5), 0);
    assert_eq!(rank_index(20, 100, 5), 0);
    assert_eq!(rank_index(21, 100, 5), 1);
    assert_eq!(rank_index(150, 100, 5), 4);
    assert_eq!(rank_index(1, 100, 1), 0);
    assert_eq!(rank_index(u64::MAX, 1, usize::MAX), usize::MAX - 1);
    assert_eq!(rank_index(1, u64::MAX, usize::MAX), 0);
}

#[test]
fn quantile_of_a_slice() {
    assert_eq!(quantile(&[], 1, 2), None);
    assert_eq!(quantile(&[9, 1, 5], 1, 2), Some(5));
    assert_eq!(quantile(&[9, 1, 5], 0, 1), Some(1));
    assert_eq!(quantile(&[9, 1, 5], 1, 1), Some(9));
    assert_eq!(quantile(&[4, 4, 4, 4], 3, 4), Some(4));
}

#[test]
fn totals_and_extremes() {
    assert_eq!(sum_of(&[]), 0);
    assert_eq!(sum_of(&[u64::MAX, u64::MAX]), 2 * (u64::MAX as u128));
    assert_eq!(extremes(&[3]), (3, 3));
    assert_eq!(extremes(&[3, 9, 1, 9, 1]), (1, 9));
}

#[test]
fn summarize_gives_every_figure() {
    assert_eq!(summarize(&[]), None);
    assert_eq!(
        summarize(&[2, 4, 4, 4, 5, 5, 7, 9]),
        Some(Summary { count: 8, sum: 40, min: 2, max: 9, mean: 5, std_dev: 2 })
    );
    // variance 200 / 3 = 66.67, root 8.16
    assert_eq!(
        summarize(&[10, 20, 30]),
        Some(Summary { count: 3, sum: 60, min: 10, max: 30, mean: 20, std_dev: 8 })
    );
    // six samples a thousand apart around a large base
    let base = 1u64 << 62;
    let s = summarize(&[base, base + 1000, base, base + 1000, base, base + 1000]).unwrap();
    assert_eq!(s.mean, base + 500);
    assert_eq!(s.std_dev, 500);
}
