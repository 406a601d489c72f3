use web_server::path::{
    file_name, join_paths, last_separator, map_to_absolute, parent, remap, starts_with_path,
};
use web_server::template_engine::{replace_all, TemplateEngine, TemplateValue};
use web_server::text::{
    append, bytes_eq, decimal_digits, ends_with, equals_ignore_case, find_first, find_from,
    is_whitespace, lit, matches_at, split_on, starts_with, to_lower, to_lower_byte, to_vec,
    trimmed,
};

#[test]
fn find_first_gives_first_index_or_length() {
    assert_eq!(find_first(b"a,b,c", b","), 1);
    assert_eq!(find_first(b"abc", b","), 3);
    assert_eq!(find_first(b"", b","), 0);
    assert_eq!(find_first(b"ab\r\ncd\r\n", b"\r\n"), 2);
    assert_eq!(find_first(b"a\rb\r\n", b"\r\n"), 3);
    assert_eq!(find_from(b"a,b,c", 2, b","), 3);
    assert_eq!(find_from(b"a,b,c", 4, b","), 5);
}

#[test]
fn matches_at_checks_bounds() {
    assert!(matches_at(b"hello", 1, b"ell"));
    assert!(!matches_at(b"hello", 3, b"lop"));
    assert!(!matches_at(b"hello", 9, b"h"));
    assert!(matches_at(b"hello", 5, b""));
}

#[test]
fn split_on_keeps_empty_pieces() {
    let got = split_on(b"a,,b,", b",");
    let expected: Vec<&[u8]> = vec![b"a", b"", b"b", b""];
    assert_eq!(got, expected);
    let got = split_on(b"", b",");
    let expected: Vec<&[u8]> = vec![b""];
    assert_eq!(got, expected);
    let got = split_on(b"one\r\ntwo\r\n\r\n", b"\r\n");
    let expected: Vec<&[u8]> = vec![b"one", b"two", b"", b""];
    assert_eq!(got, expected);
}

#[test]
fn split_on_takes_matches_from_left_without_overlap() {
    let got = split_on(b"aaa", b"aa");
    let expected: Vec<&[u8]> = vec![b"", b"a"];
    assert_eq!(got, expected);
}

#[test]
fn trimmed_removes_whitespace_at_both_ends() {
    assert_eq!(trimmed(b"  a b \t\r\n"), b"a b");
    assert_eq!(trimmed(b"\x0b\x0ca"), b"a");
    assert_eq!(trimmed(b"   "), b"");
    assert_eq!(trimmed(b""), b"");
    assert_eq!(trimmed(b"a"), b"a");
    assert!(is_whitespace(b' '));
    assert!(is_whitespace(9));
    assert!(is_whitespace(13));
    assert!(!is_whitespace(8));
    assert!(!is_whitespace(14));
    assert!(!is_whitespace(0xa0));
}

#[test]
fn to_lower_changes_ascii_letters_only() {
    assert_eq!(to_lower(b"Accept-ENCODING 09 @[`{"), b"accept-encoding 09 @[`{".to_vec());
    assert_eq!(to_lower_byte(b'A'), b'a');
    assert_eq!(to_lower_byte(b'Z'), b'z');
    assert_eq!(to_lower_byte(b'@'), b'@');
    assert_eq!(to_lower_byte(b'['), b'[');
    assert_eq!(to_lower_byte(0xc9), 0xc9);
    assert!(equals_ignore_case(b"GeT", b"gEt"));
    assert!(!equals_ignore_case(b"GET", b"GE"));
    assert!(!equals_ignore_case(b"GET", b"PUT"));
}

#[test]
fn decimal_digits_of_numbers() {
    assert_eq!(decimal_digits(0), b"0".to_vec());
    assert_eq!(decimal_digits(7), b"7".to_vec());
    assert_eq!(decimal_digits(10), b"10".to_vec());
    assert_eq!(decimal_digits(11), b"11".to_vec());
    assert_eq!(decimal_digits(1024), b"1024".to_vec());
    assert_eq!(decimal_digits(90817), b"90817".to_vec());
}

#[test]
fn byte_string_helpers() {
    assert!(bytes_eq(b"abc", b"abc"));
    assert!(!bytes_eq(b"abc", b"abd"));
    assert!(!bytes_eq(b"abc", b"ab"));
    assert!(starts_with(b"abc", b"ab"));
    assert!(starts_with(b"abc", b""));
    assert!(!starts_with(b"ab", b"abc"));
    assert!(ends_with(b"x\r\n\r\n", b"\r\n\r\n"));
    assert!(!ends_with(b"x\r\n", b"\r\n\r\n"));
    assert_eq!(to_vec(b"abc"), b"abc".to_vec());
    assert_eq!(lit("abc"), b"abc");
    let mut out = b"ab".to_vec();
    append(&mut out, b"cd");
    assert_eq!(out, b"abcd".to_vec());
}

#[test]
fn starts_with_path_stops_at_segment_boundaries() {
    assert!(starts_with_path(b"/storage/x/y.png", b"/storage"));
    assert!(starts_with_path(b"/storage", b"/storage"));
    assert!(starts_with_path(b"/storage/", b"/storage"));
    assert!(starts_with_path(b"/storage/x", b"/storage/"));
    assert!(starts_with_path(b"/anything", b"/"));
    assert!(starts_with_path(b"/anything", b""));
    assert!(!starts_with_path(b"/storage2/x", b"/storage"));
    assert!(!starts_with_path(b"/stor", b"/storage"));
    assert!(!starts_with_path(b"/other/storage", b"/storage"));
}

#[test]
fn join_paths_puts_one_separator_between() {
    assert_eq!(join_paths(b"a", b"b"), b"a/b".to_vec());
    assert_eq!(join_paths(b"a/", b"b"), b"a/b".to_vec());
    assert_eq!(join_paths(b"", b"b"), b"b".to_vec());
    assert_eq!(join_paths(b"a", b"/b"), b"/b".to_vec());
    assert_eq!(join_paths(b"a", b""), b"a/".to_vec());
    assert_eq!(join_paths(b"/", b"a/b"), b"/a/b".to_vec());
}

#[test]
fn remap_moves_a_path_to_another_root() {
    assert_eq!(
        remap(b"/srv/site/index.html", b"/srv/site", b"website"),
        b"/website/index.html".to_vec()
    );
    assert_eq!(
        remap(b"/storage/x/y.png", b"/storage", b"/srv/files/storage/"),
        b"/srv/files/storage/x/y.png".to_vec()
    );
    assert_eq!(remap(b"/storage//x", b"/storage", b"base"), b"/base/x".to_vec());
    assert_eq!(remap(b"/storage", b"/storage", b"/srv/files"), b"/srv/files/".to_vec());
    assert_eq!(remap(b"/a/b", b"/a", b""), b"/b".to_vec());
}

#[test]
fn remap_leaves_a_path_outside_the_root_unchanged() {
    assert_eq!(remap(b"/storage2/x", b"/storage", b"base"), b"/storage2/x".to_vec());
    assert_eq!(remap(b"/other", b"/storage", b"base"), b"/other".to_vec());
}

#[test]
fn parent_and_file_name_cut_at_last_separator() {
    assert_eq!(parent(b"/website/index.html"), b"/website".to_vec());
    assert_eq!(parent(b"/index.html"), b"/".to_vec());
    assert_eq!(parent(b"index.html"), b"".to_vec());
    assert_eq!(parent(b"/a/b/"), b"/a/b".to_vec());
    assert_eq!(file_name(b"/website/index.html"), b"index.html");
    assert_eq!(file_name(b"index.html"), b"index.html");
    assert_eq!(file_name(b"/a/b/"), b"");
    assert_eq!(last_separator(b"/a/b"), Some(2));
    assert_eq!(last_separator(b"ab"), None);
}

#[test]
fn map_to_absolute_joins_relative_locations() {
    assert_eq!(map_to_absolute(b"/srv", b"/etc/x"), b"/etc/x".to_vec());
    assert_eq!(map_to_absolute(b"/srv", b"files/storage/"), b"/srv/files/storage/".to_vec());
    assert_eq!(map_to_absolute(b"/srv", b"./files"), b"/srv/files".to_vec());
    assert_eq!(map_to_absolute(b"/srv/", b"files"), b"/srv/files".to_vec());
    assert_eq!(map_to_absolute(b"/srv", b""), b"/srv/".to_vec());
}

#[test]
fn replace_all_replaces_every_occurrence() {
    assert_eq!(replace_all(b"a-b-c", b"-", b"+"), b"a+b+c".to_vec());
    assert_eq!(replace_all(b"abc", b"x", b"y"), b"abc".to_vec());
    assert_eq!(replace_all(b"aaa", b"aa", b"b"), b"ba".to_vec());
    assert_eq!(replace_all(b"xx", b"x", b""), b"".to_vec());
    assert_eq!(replace_all(b"", b"x", b"y"), b"".to_vec());
}

#[test]
fn render_replaces_placeholders() {
    let engine = TemplateEngine {};
    let context = vec![
        TemplateValue { key: b"sqr".to_vec(), value: b"16".to_vec() },
        TemplateValue { key: b"n".to_vec(), value: b"4".to_vec() },
    ];
    assert_eq!(
        engine.render(b"<div>${n}*${n}=${sqr}</div>\r\n", &context),
        b"<div>4*4=16</div>\r\n".to_vec()
    );
    assert_eq!(engine.render(b"${other} $sqr {sqr}", &context), b"${other} $sqr {sqr}".to_vec());
    assert_eq!(engine.render(b"${sqr}", &Vec::new()), b"${sqr}".to_vec());
}

#[test]
fn render_applies_entries_one_after_the_other() {
    let engine = TemplateEngine {};
    let context = vec![
        TemplateValue { key: b"a".to_vec(), value: b"${b}".to_vec() },
        TemplateValue { key: b"b".to_vec(), value: b"x".to_vec() },
    ];
    assert_eq!(engine.render(b"${a}${b}", &context), b"xx".to_vec());
}
