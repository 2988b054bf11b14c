use aoc2019::text::{
    chars, find, intern, parse_all_i32, parse_all_i64, parse_i32, parse_i64, parse_number,
    parse_u32, split_at, split_lines,
};

fn text(s: &str) -> Vec<char> {
    s.chars().collect()
}

#[test]
fn text_chars() {
    assert_eq!(chars(""), vec![]);
    assert_eq!(chars("a,b"), vec!['a', ',', 'b']);
    assert_eq!(chars("\u{2588}x"), vec!['\u{2588}', 'x']);
}

#[test]
fn text_split() {
    assert_eq!(split_at(&text(""), ','), vec![text("")]);
    assert_eq!(split_at(&text("a"), ','), vec![text("a")]);
    assert_eq!(split_at(&text("a,bc"), ','), vec![text("a"), text("bc")]);
    assert_eq!(split_at(&text(",a,,b,"), ','), vec![text(""), text("a"), text(""), text("b"), text("")]);
    assert_eq!(split_at(&text(","), ','), vec![text(""), text("")]);
}

#[test]
fn text_lines() {
    assert_eq!(split_lines(&text("")), Vec::<Vec<char>>::new());
    assert_eq!(split_lines(&text("a")), vec![text("a")]);
    assert_eq!(split_lines(&text("a\n")), vec![text("a")]);
    assert_eq!(split_lines(&text("a\nb")), vec![text("a"), text("b")]);
    assert_eq!(split_lines(&text("a\n\nb\n")), vec![text("a"), text(""), text("b")]);
    assert_eq!(split_lines(&text("\n")), vec![text("")]);
    assert_eq!(split_lines(&text("a\n\n")), vec![text("a"), text("")]);
    assert_eq!(split_lines(&text("a\r\n")), vec![text("a\r")]);
}

#[test]
fn text_numbers() {
    assert_eq!(parse_i64(&text("0")), Some(0));
    assert_eq!(parse_i64(&text("-0")), Some(0));
    assert_eq!(parse_i64(&text("+17")), Some(17));
    assert_eq!(parse_i64(&text("-17")), Some(-17));
    assert_eq!(parse_i64(&text("000000000000000000000000000000012")), Some(12));
    assert_eq!(parse_i64(&text("9223372036854775807")), Some(i64::MAX));
    assert_eq!(parse_i64(&text("9223372036854775808")), None);
    assert_eq!(parse_i64(&text("-9223372036854775808")), Some(i64::MIN));
    assert_eq!(parse_i64(&text("-9223372036854775809")), None);
    assert_eq!(parse_i64(&text("99999999999999999999999999999999999999999999")), None);
    assert_eq!(parse_i64(&text("")), None);
    assert_eq!(parse_i64(&text("-")), None);
    assert_eq!(parse_i64(&text("+")), None);
    assert_eq!(parse_i64(&text("--1")), None);
    assert_eq!(parse_i64(&text("1 ")), None);
    assert_eq!(parse_i64(&text(" 1")), None);
    assert_eq!(parse_i64(&text("1a")), None);
    assert_eq!(parse_i64(&text("\u{661}")), None);
    assert_eq!(parse_i32(&text("2147483647")), Some(i32::MAX));
    assert_eq!(parse_i32(&text("2147483648")), None);
    assert_eq!(parse_i32(&text("-2147483648")), Some(i32::MIN));
    assert_eq!(parse_i32(&text("-2147483649")), None);
    assert_eq!(parse_u32(&text("4294967295")), Some(u32::MAX));
    assert_eq!(parse_u32(&text("4294967296")), None);
    assert_eq!(parse_u32(&text("+7")), Some(7));
    assert_eq!(parse_u32(&text("-7")), None);
    assert_eq!(parse_u32(&text("-0")), None);
    assert_eq!(parse_u32(&text("")), None);
    assert_eq!(parse_number(&text("123"), 123), Some(123));
    assert_eq!(parse_number(&text("124"), 123), None);
    assert_eq!(parse_number(&text("+1"), 123), None);
    assert_eq!(parse_number(&text("18446744073709551615"), u64::MAX), Some(u64::MAX));
    assert_eq!(parse_number(&text("18446744073709551616"), u64::MAX), None);
}

#[test]
fn text_lists() {
    assert_eq!(parse_all_i64(&vec![text("1"), text("-2")]), Some(vec![1, -2]));
    assert_eq!(parse_all_i64(&vec![]), Some(vec![]));
    assert_eq!(parse_all_i64(&vec![text("1"), text("")]), None);
    assert_eq!(parse_all_i32(&vec![text("1"), text("-2")]), Some(vec![1, -2]));
    assert_eq!(parse_all_i32(&vec![text("1"), text("2147483648")]), None);
}

#[test]
fn text_names() {
    let mut names: Vec<String> = Vec::new();
    assert_eq!(find(&names, &"A".to_string()), 0);
    assert_eq!(intern(&mut names, &"A".to_string()), 0);
    assert_eq!(intern(&mut names, &"B".to_string()), 1);
    assert_eq!(intern(&mut names, &"A".to_string()), 0);
    assert_eq!(intern(&mut names, &"".to_string()), 2);
    assert_eq!(names, vec!["A", "B", ""]);
    assert_eq!(find(&names, &"B".to_string()), 1);
    assert_eq!(find(&names, &"C".to_string()), 3);
}
