use language_identifier::text::{is_control, is_whitespace};

#[test]
fn whitespace_and_controls_agree_with_std() {
    for v in 0u32..0x3100 {
        if let Some(c) = char::from_u32(v) {
            assert_eq!(is_whitespace(c), c.is_whitespace(), "{v:#x}");
            assert_eq!(is_control(c), c.is_control(), "{v:#x}");
        }
    }
    for c in ['\u{FEFF}', '\u{200B}', '\u{3000}', '\u{205F}', 'a'] {
        assert_eq!(is_whitespace(c), c.is_whitespace());
    }
}
