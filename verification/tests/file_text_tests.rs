use zotero_cli::file_text::file_text;

#[test]
fn file_text_reads_utf8() {
    assert_eq!(file_text("héllo".as_bytes()), "héllo");
}

#[test]
fn file_text_keeps_a_byte_order_mark_that_is_valid_utf8() {
    assert_eq!(file_text(&[0xEF, 0xBB, 0xBF, b'a']), "\u{feff}a");
}

#[test]
fn file_text_reads_utf16_with_a_byte_order_mark() {
    assert_eq!(file_text(&[0xFF, 0xFE, b'h', 0, 0xE9, 0]), "hé");
    assert_eq!(file_text(&[0xFE, 0xFF, 0, b'h', 0, 0xE9]), "hé");
}

#[test]
fn file_text_falls_back_to_bytes() {
    assert_eq!(file_text(&[b'a', 0xE9, b'b']), "aéb");
}
