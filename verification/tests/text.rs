use query_signatures::order::{rank, Rank};
use query_signatures::text::{chars_of, find, matches_at, next_line, push_range, same};
use query_signatures::textual::{closes, leading_white_space};

fn lines_by_walk(text: &str) -> Vec<String> {
    let s = chars_of(text);
    let mut lines = Vec::new();
    let mut from = 0;
    while from < s.len() {
        let (end, next) = next_line(&s, from);
        let mut line = String::new();
        push_range(&mut line, &s, from, end);
        lines.push(line);
        from = next;
    }
    lines
}

#[test]
fn chars_of_keeps_every_character() {
    assert_eq!(chars_of(""), Vec::<char>::new());
    assert_eq!(chars_of("a\u{e9}\u{1f600}\n"), vec!['a', '\u{e9}', '\u{1f600}', '\n']);
}

#[test]
fn push_range_appends_a_part() {
    let s = chars_of("hello world");
    let mut out = "say: ".to_string();
    push_range(&mut out, &s, 6, 11);
    assert_eq!(out, "say: world");
    push_range(&mut out, &s, 3, 3);
    assert_eq!(out, "say: world");
}

#[test]
fn same_compares_characters() {
    assert!(same("", ""));
    assert!(same("swc", "swc"));
    assert!(!same("swc", "SWC"));
    assert!(!same("swc", "swc "));
    assert!(!same("\u{e9}", "e"));
}

#[test]
fn find_gives_the_first_position() {
    let s = chars_of("xxConcreteRequest ConcreteRequest");
    assert_eq!(find(&s, &chars_of("ConcreteRequest")), Some(2));
    assert_eq!(find(&s, &chars_of("Request ")), Some(10));
    assert_eq!(find(&s, &chars_of("")), Some(0));
    assert_eq!(find(&s, &chars_of("concrete")), None);
    assert_eq!(find(&chars_of("ab"), &chars_of("abc")), None);
    assert_eq!(find(&chars_of(""), &chars_of("a")), None);
    assert_eq!(find(&chars_of("\u{e9}\u{e9}a"), &chars_of("a")), Some(2));
}

#[test]
fn matches_at_looks_at_one_position() {
    let s = chars_of("  \"params\": {");
    let key = chars_of("\"params\": {");
    assert!(matches_at(&s, 2, s.len(), &key));
    assert!(!matches_at(&s, 1, s.len(), &key));
    assert!(!matches_at(&s, 2, s.len() - 1, &key));
    assert!(matches_at(&s, 5, 5, &chars_of("")));
}

#[test]
fn lines_are_those_of_the_standard_library() {
    for text in [
        "",
        "a",
        "a\n",
        "a\nb",
        "a\r\nb\r\n",
        "\n",
        "\n\n",
        "\r\n",
        "a\rb\n",
        "a\r",
        "a\n\r",
        "a\r\r\n",
        "  x  \n\ty\n\nz",
    ] {
        let expected: Vec<String> = text.lines().map(|l| l.to_string()).collect();
        assert_eq!(lines_by_walk(text), expected, "{:?}", text);
    }
}

#[test]
fn next_line_gives_both_ends() {
    let s = chars_of("ab\r\ncd\nef");
    assert_eq!(next_line(&s, 0), (2, 4));
    assert_eq!(next_line(&s, 1), (2, 4));
    assert_eq!(next_line(&s, 3), (3, 4));
    assert_eq!(next_line(&s, 4), (6, 7));
    assert_eq!(next_line(&s, 7), (9, 9));
}

#[test]
fn leading_white_space_counts_the_run() {
    let s = chars_of(" \t\u{a0}x y");
    assert_eq!(leading_white_space(&s, 0, s.len()), 3);
    assert_eq!(leading_white_space(&s, 1, s.len()), 2);
    assert_eq!(leading_white_space(&s, 3, s.len()), 0);
    assert_eq!(leading_white_space(&s, 0, 2), 2);
    assert_eq!(leading_white_space(&s, 4, 6), 1);
}

#[test]
fn closes_asks_for_spaces_and_a_brace() {
    let s = chars_of("   },");
    assert!(closes(&s, 0, s.len(), 3));
    assert!(!closes(&s, 0, s.len(), 2));
    assert!(!closes(&s, 0, s.len(), 4));
    assert!(closes(&s, 1, s.len(), 2));
    assert!(closes(&s, 3, s.len(), 0));
    assert!(!closes(&s, 0, 3, 3));
    assert!(!closes(&chars_of("\t}"), 0, 2, 1));
}

#[test]
fn rank_orders_by_bytes() {
    assert_eq!(rank("a", "b"), Rank::Before);
    assert_eq!(rank("b", "a"), Rank::After);
    assert_eq!(rank("a", "a"), Rank::Same);
    assert_eq!(rank("", ""), Rank::Same);
    assert_eq!(rank("", "a"), Rank::Before);
    assert_eq!(rank("a", "ab"), Rank::Before);
    assert_eq!(rank("ab", "a"), Rank::After);
    assert_eq!(rank("Z", "a"), Rank::Before);
    assert_eq!(rank("z", "\u{e9}"), Rank::Before);
    assert_eq!(rank("\u{ffff}", "\u{10000}"), Rank::Before);
}
