use scpi::framing::{char_is_whitespace, frame_message, trim_bounds};

#[test]
fn frame_appends_crlf_to_plain_command() {
    assert_eq!(frame_message("*IDN"), b"*IDN\r\n".to_vec());
    assert_eq!(frame_message("*IDN").len(), 6);
}

#[test]
fn frame_trims_surrounding_whitespace_only() {
    assert_eq!(frame_message("  MEAS:VOLT?  \n"), b"MEAS:VOLT?\r\n".to_vec());
    assert_eq!(frame_message("\t CONF : VOLT \r\n"), b"CONF : VOLT\r\n".to_vec());
}

#[test]
fn frame_of_blank_message_is_bare_terminator() {
    assert_eq!(frame_message(""), b"\r\n".to_vec());
    assert_eq!(frame_message(" \t\r\n  "), b"\r\n".to_vec());
}

#[test]
fn frame_length_is_trimmed_bytes_plus_two() {
    let samples = ["*IDN?", "  *RST ", "\u{2003}größe\u{00a0}", "a", "", "   ", "x y", "\n\nOUTP ON\n"];
    for sample in samples {
        assert_eq!(frame_message(sample).len(), sample.trim().len() + 2);
    }
}

#[test]
fn frame_is_utf8_of_trimmed_text_then_terminator() {
    let samples = ["*IDN?", " \u{3000}温度?\u{2028}", "\u{0085}µV\u{1680}", "é", "  \u{205f}a\u{202f}b\u{2000} "];
    for sample in samples {
        let mut expected = sample.trim().as_bytes().to_vec();
        expected.push(13);
        expected.push(10);
        assert_eq!(frame_message(sample), expected);
    }
}

#[test]
fn frame_keeps_inner_terminators_and_ends_with_one() {
    let frame = frame_message(" A\r\nB ");
    assert_eq!(frame, b"A\r\nB\r\n".to_vec());
    assert_eq!(&frame[frame.len() - 2..], b"\r\n");
}

#[test]
fn frame_without_inner_crlf_holds_exactly_one() {
    let frame = frame_message("  SYST:ERR?\r ");
    let pairs = frame.windows(2).filter(|w| w[0] == 13 && w[1] == 10).count();
    assert_eq!(frame, b"SYST:ERR?\r\n".to_vec());
    assert_eq!(pairs, 1);
}

#[test]
fn whitespace_agrees_with_unicode_white_space_for_every_char() {
    let mut code: u32 = 0;
    while code <= 0x10FFFF {
        if let Some(c) = char::from_u32(code) {
            assert_eq!(char_is_whitespace(c), c.is_whitespace(), "U+{:04X}", code);
        }
        code += 1;
    }
}

#[test]
fn trim_bounds_count_characters() {
    assert_eq!(trim_bounds("  ab  "), (2, 4));
    assert_eq!(trim_bounds("\u{2003}é\u{2003}"), (1, 2));
    assert_eq!(trim_bounds("abc"), (0, 3));
    let (start, end) = trim_bounds("   ");
    assert_eq!(start, end);
    let (start, end) = trim_bounds("");
    assert_eq!((start, end), (0, 0));
}

#[test]
fn trimming_twice_changes_nothing() {
    let samples = ["  a b  ", "\n*IDN?\n", "x"];
    for sample in samples {
        let once = frame_message(sample);
        let text = String::from_utf8(once[..once.len() - 2].to_vec()).unwrap();
        assert_eq!(frame_message(&text), once);
    }
}
