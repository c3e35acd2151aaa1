use appmanager::base64::{base64_decode, base64_encode, base64_value};
use appmanager::fnv::{little_endian_bytes, make_id, update_package_hash};
use appmanager::lists::list_texts;
use appmanager::numbers::{decimal_text, hex16_text, hex_text, parse_number, signed_decimal_text};
use appmanager::order::sort;
use appmanager::split::{
    contains_text, join_texts, split_char_once, split_lines, split_text_once, split_words,
    without_prefix, without_suffix,
};
use appmanager::text::{is_blank, replace_char, to_lower_ascii, trim};
use appmanager::utf8::{lossy_text, text_of_bytes};

fn strings(list: &[&str]) -> Vec<String> {
    list.iter().map(|s| s.to_string()).collect()
}

#[test]
fn trim_takes_white_space_off_both_ends() {
    assert_eq!(trim("  a b\t\r\n"), "a b");
    assert_eq!(trim("\u{3000}中文\u{a0}"), "中文");
    assert_eq!(trim(" \n "), "");
    assert_eq!(trim(""), "");
    for s in ["\u{1680}x\u{2028}", "\u{200b}x", "\u{85}x\u{205f}", "\u{feff}x"] {
        assert_eq!(trim(s), s.trim());
    }
    assert!(is_blank("\t "));
    assert!(!is_blank(" a "));
}

#[test]
fn trimming_twice_is_trimming_once() {
    for s in ["  a ", "", "b", " \u{3000} c d "] {
        let once = trim(s);
        assert_eq!(trim(&once), once);
    }
}

#[test]
fn lower_case_touches_ascii_only() {
    assert_eq!(to_lower_ascii("AbC-Ä中"), "abc-Ä中");
    assert_eq!(replace_char("a/b/c", '/', '\\'), "a\\b\\c");
}

#[test]
fn lines_end_at_line_feeds() {
    assert_eq!(split_lines("a\r\nb\n\nc\r"), strings(&["a", "b", "", "c\r"]));
    assert_eq!(split_lines(""), strings(&[]));
    assert_eq!(split_lines("a\n"), strings(&["a"]));
    for s in ["a\r\n\r\nb", "\n", "x\r\r\ny", "中\n文\r\n"] {
        let wanted: Vec<String> = s.lines().map(|l| l.to_string()).collect();
        assert_eq!(split_lines(s), wanted);
    }
}

#[test]
fn words_are_runs_without_white_space() {
    assert_eq!(split_words(" GET  /a\tHTTP/1.1 "), strings(&["GET", "/a", "HTTP/1.1"]));
    assert_eq!(split_words(" \t"), strings(&[]));
}

#[test]
fn splitting_and_joining() {
    assert_eq!(
        split_text_once("a;base64,b;base64,c", ";base64,"),
        Some(("a".to_string(), "b;base64,c".to_string()))
    );
    assert_eq!(split_text_once("abc", "x"), None);
    assert_eq!(split_char_once("k: v: w", ':'), Some(("k".to_string(), " v: w".to_string())));
    assert_eq!(split_char_once("abc", ':'), None);
    assert!(contains_text("wechat", "chat"));
    assert!(contains_text("x", ""));
    assert!(!contains_text("chat", "wechat"));
    assert_eq!(without_prefix("/api/apps/x", "/api/apps/"), Some("x".to_string()));
    assert_eq!(without_prefix("/api", "/api/apps/"), None);
    assert_eq!(without_suffix("x/download", "/download"), Some("x".to_string()));
    assert_eq!(without_suffix("x", "/download"), None);
    assert_eq!(join_texts(&strings(&["a", "b", "c"]), "-"), "a-b-c");
    assert_eq!(join_texts(&strings(&[]), "-"), "");
}

#[test]
fn numbers_are_written_and_read() {
    assert_eq!(decimal_text(0), "0");
    assert_eq!(decimal_text(18446744073709551615), "18446744073709551615");
    assert_eq!(signed_decimal_text(-32), "-32");
    assert_eq!(signed_decimal_text(i64::MIN), "-9223372036854775808");
    assert_eq!(hex_text(0xcbf29ce484222325), "cbf29ce484222325");
    assert_eq!(hex_text(0), "0");
    assert_eq!(hex16_text(255), "00000000000000ff");
    assert_eq!(parse_number("+200", 65535), Some(200));
    assert_eq!(parse_number("65536", 65535), None);
    assert_eq!(parse_number("", 10), None);
    assert_eq!(parse_number("+", 10), None);
    assert_eq!(parse_number("-1", 10), None);
    assert_eq!(parse_number("1 ", 10), None);
    assert_eq!(parse_number("000012", 12), Some(12));
    for n in [0u64, 9, 10, 12345, u64::MAX] {
        assert_eq!(parse_number(&decimal_text(n), u64::MAX), Some(n));
    }
}

#[test]
fn base64_writes_groups_of_four() {
    assert_eq!(base64_encode(b""), "");
    assert_eq!(base64_encode(b"f"), "Zg==");
    assert_eq!(base64_encode(b"fo"), "Zm8=");
    assert_eq!(base64_encode(b"foo"), "Zm9v");
    assert_eq!(base64_encode(b"foobar"), "Zm9vYmFy");
    assert_eq!(base64_encode(&[251, 255, 191]), "+/+/");
}

#[test]
fn base64_reads_back_what_it_wrote() {
    let mut bytes: Vec<u8> = Vec::new();
    for k in 0..300u32 {
        bytes.push((k * 7 % 256) as u8);
        assert_eq!(base64_decode(&base64_encode(&bytes)), Ok(bytes.clone()));
    }
}

#[test]
fn base64_refuses_what_it_did_not_write() {
    let problem = Err("图标图片内容无效".to_string());
    assert_eq!(base64_decode(""), problem);
    assert_eq!(base64_decode("abc"), problem);
    assert_eq!(base64_decode("a==="), problem);
    assert_eq!(base64_decode("Zg==Zg=="), problem);
    assert_eq!(base64_decode("Z=g="), problem);
    assert_eq!(base64_decode("Zm9*"), problem);
    assert_eq!(base64_decode("中"), problem);
    assert_eq!(base64_decode(" Zm9v\n"), Ok(b"foo".to_vec()));
    assert_eq!(base64_value(b'A'), Some(0));
    assert_eq!(base64_value(b'z'), Some(51));
    assert_eq!(base64_value(b'9'), Some(61));
    assert_eq!(base64_value(b'+'), Some(62));
    assert_eq!(base64_value(b'/'), Some(63));
    assert_eq!(base64_value(b'='), None);
}

#[test]
fn ids_are_hashes_in_hexadecimal() {
    assert_eq!(make_id(""), "cbf29ce484222325");
    assert_eq!(make_id("a"), "af63dc4c8601ec8c");
    assert_eq!(make_id("foobar"), "85944171f73967e8");
}

#[test]
fn hashing_goes_on_where_it_stopped() {
    let mut whole = 14695981039346656037u64;
    update_package_hash(&mut whole, b"foobar");
    let mut parts = 14695981039346656037u64;
    update_package_hash(&mut parts, b"foo");
    update_package_hash(&mut parts, b"bar");
    assert_eq!(whole, parts);
    assert_eq!(whole, 0x85944171f73967e8);
}

#[test]
fn numbers_as_bytes_begin_with_the_lowest() {
    assert_eq!(little_endian_bytes(0x0102, 8), 0x0102u64.to_le_bytes().to_vec());
    assert_eq!(
        little_endian_bytes(u128::MAX - 5, 16),
        (u128::MAX - 5).to_le_bytes().to_vec()
    );
}

#[test]
fn sorting_keeps_what_is_in_the_list() {
    let sorted = sort(strings(&["b", "a", "c", "a", "B", "中", "é"]));
    assert_eq!(sorted, strings(&["B", "a", "a", "b", "c", "é", "中"]));
    let mut wanted = strings(&["b", "a", "c", "a", "B", "中", "é"]);
    wanted.sort();
    assert_eq!(sorted, wanted);
    assert_eq!(sort(sorted.clone()), sorted);
    assert_eq!(sort(strings(&[])), strings(&[]));
}

#[test]
fn a_listing_holds_each_text_once() {
    assert_eq!(list_texts(strings(&["b", "a", "b", "", "a"])), strings(&["", "a", "b"]));
}

#[test]
fn bytes_are_text_only_where_they_are_utf8() {
    assert_eq!(text_of_bytes("中文".as_bytes()), Some("中文".to_string()));
    assert_eq!(text_of_bytes(&[0xff, 0x41]), None);
    assert_eq!(lossy_text("中文".as_bytes()), "中文");
    assert_eq!(lossy_text(&[0x41, 0xff, 0x42]), "A\u{fffd}B");
}
