use stock_analysis::sorting::{drop_keys, precedes, stable_sort_by_key, stable_sort_by_str_key, str_precedes};
use stock_analysis::text::{
    chars_lt, i64_to_string, replace_char_exec, to_ascii_lowercase, trim, u64_to_string,
    zero_pad,
};

#[test]
fn stable_sort_keeps_ties_in_order() {
    let v = vec![("a", 2u64), ("b", 1), ("c", 2), ("d", 3)];
    let asc: Vec<&str> = drop_keys(stable_sort_by_key(v.clone(), false));
    assert_eq!(asc, vec!["b", "a", "c", "d"]);
    let desc: Vec<&str> = drop_keys(stable_sort_by_key(v, true));
    assert_eq!(desc, vec!["d", "a", "c", "b"]);
    assert!(stable_sort_by_key(Vec::<((), u64)>::new(), true).is_empty());
    assert!(precedes(1, 2, false));
    assert!(!precedes(2, 2, false));
    assert!(precedes(3, 2, true));
}

#[test]
fn string_keyed_sort() {
    let v = vec![(1, "MSFT".to_string()), (2, "AAPL".to_string()), (3, "MSFT".to_string()), (4, "AMD".to_string())];
    let s: Vec<i32> = stable_sort_by_str_key(v, false).into_iter().map(|p| p.0).collect();
    assert_eq!(s, vec![2, 4, 1, 3]);
    assert!(str_precedes(&"AB".to_string(), &"B".to_string(), false));
    assert!(str_precedes(&"A".to_string(), &"AB".to_string(), false));
    assert!(!str_precedes(&"A".to_string(), &"A".to_string(), false));
    assert!(chars_lt(&['a'], &['a', 'b']));
    assert!(!chars_lt(&['b'], &['a', 'b']));
}

#[test]
fn text_helpers() {
    assert_eq!(trim("  \t hi there \n"), "hi there");
    assert_eq!(trim("   "), "");
    assert_eq!(stock_analysis::text::concat("ab", "cd"), "abcd");
    assert_eq!(to_ascii_lowercase("AbC-É"), "abc-É");
    assert_eq!(replace_char_exec("a-b-c", '-', '.'), "a.b.c");
    assert_eq!(u64_to_string(0), "0");
    assert_eq!(u64_to_string(18446744073709551615), "18446744073709551615");
    assert_eq!(i64_to_string(-42), "-42");
    assert_eq!(i64_to_string(i64::MIN), "-9223372036854775808");
    assert_eq!(zero_pad(7, 2), "07");
    assert_eq!(zero_pad(123, 2), "123");
    assert_eq!(zero_pad(320193, 10), "0000320193");
}
