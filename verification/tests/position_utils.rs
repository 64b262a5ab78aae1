use rari_doc::position_utils::{
    byte_to_char_column, char_to_byte_column, line_byte_col_to_byte_offset,
    line_char_col_to_byte_offset,
};


#[test]
fn test_byte_to_char_ascii() {
    let line = "Hello world";
    assert_eq!(byte_to_char_column(line, 0), 0);
    assert_eq!(byte_to_char_column(line, 5), 5);
    assert_eq!(byte_to_char_column(line, 11), 11);
}

#[test]
fn test_byte_to_char_emoji() {
    let line = "Hello 🔥 world";
    // "Hello " = 6 bytes, 6 chars
    // "🔥" = 4 bytes, 1 char (at byte 6, char 6)
    // " world" starts at byte 10, char 7
    assert_eq!(byte_to_char_column(line, 0), 0);
    assert_eq!(byte_to_char_column(line, 6), 6); // Start of emoji
    assert_eq!(byte_to_char_column(line, 10), 7); // After emoji
    assert_eq!(byte_to_char_column(line, 11), 8); // 'w'
}

#[test]
fn test_byte_to_char_accented() {
    let line = "Café"; // é is 2 bytes
    assert_eq!(byte_to_char_column(line, 0), 0); // 'C'
    assert_eq!(byte_to_char_column(line, 3), 3); // 'é' starts at byte 3
    assert_eq!(byte_to_char_column(line, 5), 4); // After 'é'
}

#[test]
fn test_byte_to_char_beyond_end() {
    let line = "Hello";
    assert_eq!(byte_to_char_column(line, 100), 5);
}

#[test]
fn test_char_to_byte_ascii() {
    let line = "Hello world";
    assert_eq!(char_to_byte_column(line, 0), 0);
    assert_eq!(char_to_byte_column(line, 5), 5);
    assert_eq!(char_to_byte_column(line, 11), 11);
}

#[test]
fn test_char_to_byte_emoji() {
    let line = "Hello 🔥 world";
    assert_eq!(char_to_byte_column(line, 0), 0); // 'H'
    assert_eq!(char_to_byte_column(line, 6), 6); // '🔥'
    assert_eq!(char_to_byte_column(line, 7), 10); // ' ' after emoji
    assert_eq!(char_to_byte_column(line, 8), 11); // 'w'
}

#[test]
fn test_char_to_byte_accented() {
    let line = "Café";
    assert_eq!(char_to_byte_column(line, 0), 0); // 'C'
    assert_eq!(char_to_byte_column(line, 3), 3); // 'é'
    assert_eq!(char_to_byte_column(line, 4), 5); // After string
}

#[test]
fn test_char_to_byte_beyond_end() {
    let line = "Hello";
    assert_eq!(char_to_byte_column(line, 100), 5);
}

#[test]
fn test_roundtrip_ascii() {
    let line = "Hello world";
    for i in 0..=line.len() {
        let char_pos = byte_to_char_column(line, i);
        let byte_pos = char_to_byte_column(line, char_pos);
        assert_eq!(byte_pos, i);
    }
}

#[test]
fn test_roundtrip_emoji() {
    let line = "Hi 🔥!";
    // Test at character boundaries
    assert_eq!(char_to_byte_column(line, byte_to_char_column(line, 0)), 0);
    assert_eq!(char_to_byte_column(line, byte_to_char_column(line, 3)), 3);
    assert_eq!(char_to_byte_column(line, byte_to_char_column(line, 7)), 7);
}

#[test]
fn test_line_char_col_to_byte_offset() {
    let content = "Hello\n🔥 world\nGoodbye";

    // Line 0, char 0: 'H' at byte 0
    assert_eq!(line_char_col_to_byte_offset(content, 0, 0), Some(0));

    // Line 0, char 5: end of "Hello" at byte 5
    assert_eq!(line_char_col_to_byte_offset(content, 0, 5), Some(5));

    // Line 1, char 0: '🔥' at byte 6 (after "Hello\n")
    assert_eq!(line_char_col_to_byte_offset(content, 1, 0), Some(6));

    // Line 1, char 2: 'w' at byte 12 (6 + 4 bytes for emoji + 1 for space + 1 for 'w' start)
    assert_eq!(line_char_col_to_byte_offset(content, 1, 2), Some(11));

    // Line 2, char 0: 'G' at byte 17 (5 bytes line0 + 1 newline + 10 bytes line1 + 1 newline)
    assert_eq!(line_char_col_to_byte_offset(content, 2, 0), Some(17));

    // Invalid line
    assert_eq!(line_char_col_to_byte_offset(content, 10, 0), None);
}

#[test]
fn test_line_byte_col_to_byte_offset() {
    let content = "Hello\n🔥 world\nGoodbye";

    // Line 0, byte 0
    assert_eq!(line_byte_col_to_byte_offset(content, 0, 0), Some(0));

    // Line 1, byte 0: emoji starts at byte 6
    assert_eq!(line_byte_col_to_byte_offset(content, 1, 0), Some(6));

    // Line 1, byte 5: space after emoji at byte 11
    assert_eq!(line_byte_col_to_byte_offset(content, 1, 5), Some(11));

    // Invalid line
    assert_eq!(line_byte_col_to_byte_offset(content, 10, 0), None);
}

#[test]
fn test_multiple_emojis() {
    let line = "Test 🔥🌟✨ end";
    // "Test " = 5 bytes, 5 chars
    // "🔥" = 4 bytes, 1 char (byte 5, char 5)
    // "🌟" = 4 bytes, 1 char (byte 9, char 6)
    // "✨" = 3 bytes, 1 char (byte 13, char 7)
    // " end" starts at byte 16, char 8

    assert_eq!(byte_to_char_column(line, 5), 5); // Start of 🔥
    assert_eq!(byte_to_char_column(line, 9), 6); // Start of 🌟
    assert_eq!(byte_to_char_column(line, 13), 7); // Start of ✨
    assert_eq!(byte_to_char_column(line, 16), 8); // Space after emojis

    assert_eq!(char_to_byte_column(line, 5), 5); // 🔥
    assert_eq!(char_to_byte_column(line, 6), 9); // 🌟
    assert_eq!(char_to_byte_column(line, 7), 13); // ✨
    assert_eq!(char_to_byte_column(line, 8), 16); // Space
}
