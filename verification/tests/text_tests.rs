use zero_claw::text::{
    byte_prefix, utf8_len_of, can_chunk_text, chunk_text, contains, first_chars, hex8, i64_to_decimal, replace_str, split_first,
    starts_with, str_eq, strip_prefix, trim, u128_to_decimal, u64_to_decimal,
};

#[test]
fn chunk_short_text_is_one_piece() {
    assert_eq!(chunk_text("hello world", 4096), vec!["hello world".to_string()]);
}

#[test]
fn chunk_empty_text_has_no_piece() {
    assert!(chunk_text("", 10).is_empty());
}

#[test]
fn chunk_cuts_after_last_whitespace() {
    assert_eq!(
        chunk_text("aaa bbb ccc", 6),
        vec!["aaa ".to_string(), "bbb ".to_string(), "ccc".to_string()]
    );
}

#[test]
fn chunk_without_whitespace_cuts_at_window() {
    assert_eq!(
        chunk_text("abcdefghij", 4),
        vec!["abcd".to_string(), "efgh".to_string(), "ij".to_string()]
    );
}

#[test]
fn chunk_pieces_rejoin_to_text() {
    let text = "The quick brown fox jumps over the lazy dog, again and again.";
    let pieces = chunk_text(text, 10);
    assert_eq!(pieces.concat(), text);
    for p in &pieces {
        assert!(!p.is_empty());
        assert!(p.len() <= 10);
    }
}

#[test]
fn chunk_multibyte_on_boundaries() {
    // each 'é' takes two bytes; windows of four bytes end on character boundaries
    assert!(can_chunk_text("éééé", 4));
    assert_eq!(chunk_text("éééé", 4), vec!["éé".to_string(), "éé".to_string()]);
}

#[test]
fn chunk_inside_a_character_is_refused() {
    assert!(!can_chunk_text("ééé", 3));
    assert!(can_chunk_text("abc", 3));
}

#[test]
fn trim_removes_unicode_whitespace() {
    assert_eq!(trim("  \t hi there \n"), "hi there");
    assert_eq!(trim("\u{3000}x\u{a0}"), "x");
    assert_eq!(trim("   "), "");
}

#[test]
fn replace_removes_every_occurrence() {
    assert_eq!(replace_str("@bot hi @bot", "@bot", ""), " hi ");
    assert_eq!(replace_str("aaaa", "aa", "b"), "bb");
    assert_eq!(replace_str("abc", "x", "y"), "abc");
}

#[test]
fn decimals_and_hex() {
    assert_eq!(u64_to_decimal(0), "0");
    assert_eq!(u64_to_decimal(1234567890), "1234567890");
    assert_eq!(i64_to_decimal(-42), "-42");
    assert_eq!(i64_to_decimal(i64::MIN), "-9223372036854775808");
    assert_eq!(u128_to_decimal(u128::MAX), u128::MAX.to_string());
    assert_eq!(hex8(0x1bd91518), "1bd91518");
    assert_eq!(hex8(255), "000000ff");
}

#[test]
fn small_string_helpers() {
    assert_eq!(first_chars("héllo", 2), "hé");
    assert_eq!(first_chars("hi", 10), "hi");
    assert_eq!(split_first("wxid_1@im.wechat", '@'), "wxid_1");
    assert_eq!(split_first("plain", '@'), "plain");
    assert!(str_eq("abc", "abc"));
    assert!(!str_eq("abc", "abd"));
    assert!(starts_with("loop_list", "loop_"));
    assert!(!starts_with("fs__read", "loop_"));
    assert_eq!(strip_prefix("data: {}", "data: "), Some("{}".to_string()));
    assert_eq!(strip_prefix("event: x", "data: "), None);
    assert!(contains("hello @bot!", "@bot"));
    assert!(!contains("hello", "@bot"));
}

#[test]
fn byte_lengths_and_prefixes() {
    assert_eq!(utf8_len_of("aé€😀"), 1 + 2 + 3 + 4);
    assert_eq!(utf8_len_of("aé€😀"), "aé€😀".len());
    assert_eq!(byte_prefix("aé€", 3), Some("aé".to_string()));
    assert_eq!(byte_prefix("aé€", 2), None);
    assert_eq!(byte_prefix("aé€", 100), Some("aé€".to_string()));
}

#[test]
fn ascii_text_always_chunks() {
    let text = "The quick brown fox jumps over the lazy dog, twice over; and then once more.";
    for max in 1..20usize {
        assert!(can_chunk_text(text, max));
        let pieces = chunk_text(text, max);
        assert_eq!(pieces.concat(), text);
        assert!(pieces.iter().all(|p| !p.is_empty() && p.len() <= max));
    }
}
