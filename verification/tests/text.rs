use herdr_ferry::herdr::InvocationContext;
use herdr_ferry::text::{is_blank, trim};

fn sample_chars() -> Vec<char> {
    (0u32..0x3100)
        .chain(0xFE00..0xFF10)
        .chain([0x1_0000, 0x1_F600, 0x10_FFFF])
        .filter_map(char::from_u32)
        .collect()
}

#[test]
fn blank_text_is_exactly_unicode_white_space() {
    for c in sample_chars() {
        assert_eq!(is_blank(&c.to_string()), c.is_whitespace(), "U+{:04X}", c as u32);
        let padded = format!("{c}x{c}");
        let expected = if c.is_whitespace() { "x".to_string() } else { padded.clone() };
        assert_eq!(trim(&padded), expected, "U+{:04X}", c as u32);
    }
}

#[test]
fn pane_ids_with_control_characters_are_refused() {
    for c in sample_chars() {
        let context = InvocationContext {
            focused_pane_id: Some(format!("w1{c}p1")),
        };
        assert_eq!(context.source_pane_id().is_err(), c.is_control(), "U+{:04X}", c as u32);
    }
}
