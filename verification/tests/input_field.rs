use raui_core::input_field::{
    input_text_with_cursor, text_input_notified_state, TextInputNotifyMessage, text_input_update, CharFilter, TextInputMode, TextInputSignal,
    TextInputState,
};
use raui_core::navigation::NavTextChange;
use raui_core::widget_id::WidgetId;
use raui_core::widget_ref::WidgetIdOrRef;

fn digits_only(_offset: usize, c: char) -> bool {
    c.is_ascii_digit()
}

fn first_two_bytes(offset: usize, _c: char) -> bool {
    offset < 2
}

fn focused(cursor: usize) -> TextInputState {
    TextInputState {
        focused: true,
        cursor_position: cursor,
    }
}

fn change(c: NavTextChange) -> TextInputSignal {
    TextInputSignal::TextChange(c)
}

#[test]
fn text_input_mode_kinds() {
    assert!(TextInputMode::Text.is_text());
    assert!(TextInputMode::Number.is_number());
    assert!(TextInputMode::Integer.is_integer());
    assert!(TextInputMode::UnsignedInteger.is_unsigned_integer());
    assert!(TextInputMode::Filter(CharFilter(digits_only)).is_filter());
    assert!(!TextInputMode::Text.is_number());
    assert!(TextInputMode::default().is_text());
}

#[test]
fn text_input_integer_validity() {
    let m = TextInputMode::Integer;
    assert!(m.is_valid("42"));
    assert!(m.is_valid("-42"));
    assert!(m.is_valid("+42"));
    assert!(m.is_valid("-"));
    assert!(m.is_valid("2147483647"));
    assert!(m.is_valid("-2147483648"));
    assert!(!m.is_valid("2147483648"));
    assert!(!m.is_valid("-2147483649"));
    assert!(!m.is_valid(""));
    assert!(!m.is_valid("+"));
    assert!(!m.is_valid("1a"));
    assert!(!m.is_valid(" 1"));
}

#[test]
fn text_input_unsigned_validity() {
    let m = TextInputMode::UnsignedInteger;
    assert!(m.is_valid("0"));
    assert!(m.is_valid("+7"));
    assert!(m.is_valid("4294967295"));
    assert!(!m.is_valid("4294967296"));
    assert!(!m.is_valid("-1"));
    assert!(!m.is_valid("-"));
    assert!(!m.is_valid(""));
}

#[test]
fn text_input_number_validity() {
    let m = TextInputMode::Number;
    for ok in [
        "1", "-1", "+1.5", "1.", ".5", "1e3", "1.5E-3", "1e+3", "inf", "-Infinity", "NaN", "-",
        "00.00",
    ] {
        assert!(m.is_valid(ok), "{ok} should be valid");
        if ok != "-" {
            assert!(ok.parse::<f32>().is_ok(), "{ok} parses as f32");
        }
    }
    for bad in [
        "", ".", "e5", "1e", "1e+", "1.2.3", " 1", "1 ", "nan1", "infinit", "+-1", "--", "1..",
    ] {
        assert!(!m.is_valid(bad), "{bad} should be invalid");
        assert!(bad.parse::<f32>().is_err(), "{bad} does not parse as f32");
    }
}

#[test]
fn text_input_text_and_filter_validity() {
    assert!(TextInputMode::Text.is_valid("anything at all"));
    let digits = TextInputMode::Filter(CharFilter(digits_only));
    assert!(digits.is_valid("0123"));
    assert!(digits.is_valid(""));
    assert!(!digits.is_valid("12a"));
    let bytes = TextInputMode::Filter(CharFilter(first_two_bytes));
    assert!(bytes.is_valid("ab"));
    assert!(bytes.is_valid("é"));
    assert!(!bytes.is_valid("éa"));
    assert!(!bytes.is_valid("abc"));
}

#[test]
fn text_input_process() {
    assert_eq!(TextInputMode::Text.process("hi", None), Some("hi".to_owned()));
    let i = TextInputMode::Integer;
    assert_eq!(i.process("+007", None), Some("7".to_owned()));
    assert_eq!(i.process("-0", None), Some("0".to_owned()));
    assert_eq!(i.process("-2147483648", None), Some("-2147483648".to_owned()));
    assert_eq!(i.process("2147483648", None), None);
    assert_eq!(i.process("-", None), None);
    let u = TextInputMode::UnsignedInteger;
    assert_eq!(u.process("+42", None), Some("42".to_owned()));
    assert_eq!(u.process("4294967295", None), Some("4294967295".to_owned()));
    assert_eq!(u.process("-1", None), None);
    let n = TextInputMode::Number;
    let text = "1.50";
    let number_text = text.parse::<f32>().ok().map(|v| v.to_string());
    assert_eq!(n.process(text, number_text), Some("1.5".to_owned()));
    assert_eq!(n.process("abc", Some("ignored".to_owned())), None);
    let f = TextInputMode::Filter(CharFilter(digits_only));
    assert_eq!(f.process("123", None), Some("123".to_owned()));
    assert_eq!(f.process("1x3", None), None);
}

#[test]
fn text_input_process_is_idempotent_for_integers() {
    for t in ["+0012", "-0", "-2147483648", "99"] {
        let once = TextInputMode::Integer.process(t, None).unwrap();
        let twice = TextInputMode::Integer.process(&once, None).unwrap();
        assert_eq!(once, twice);
    }
}

#[test]
fn text_with_cursor() {
    assert_eq!(input_text_with_cursor("hello", 2, '|'), "he|llo");
    assert_eq!(input_text_with_cursor("hello", 0, '|'), "|hello");
    assert_eq!(input_text_with_cursor("hello", 99, '|'), "hello|");
    assert_eq!(input_text_with_cursor("", 0, '_'), "_");
    assert_eq!(input_text_with_cursor("héllo", 2, '|'), "hé|llo");
    let with = input_text_with_cursor("abc", 1, '|');
    let back: String = with.chars().enumerate().filter(|(i, _)| *i != 1).map(|(_, c)| c).collect();
    assert_eq!(back, "abc");
}

#[test]
fn text_input_insert_and_move() {
    let r = text_input_update(
        &TextInputMode::Text,
        false,
        focused(1),
        "ab",
        &[change(NavTextChange::InsertCharacter('x'))],
    );
    assert_eq!(r.text, "axb");
    assert_eq!(r.state, focused(2));
    assert!(r.text_changed && r.state_changed && !r.submitted);

    let r = text_input_update(
        &TextInputMode::Text,
        false,
        focused(1),
        "abc",
        &[
            change(NavTextChange::MoveCursorEnd),
            change(NavTextChange::MoveCursorRight),
            change(NavTextChange::MoveCursorLeft),
            change(NavTextChange::MoveCursorLeft),
        ],
    );
    assert_eq!(r.state.cursor_position, 1);
    assert!(!r.text_changed && r.state_changed);

    let r = text_input_update(
        &TextInputMode::Text,
        false,
        focused(2),
        "abc",
        &[change(NavTextChange::MoveCursorStart), change(NavTextChange::MoveCursorLeft)],
    );
    assert_eq!(r.state.cursor_position, 0);
}

#[test]
fn text_input_deletes() {
    let r = text_input_update(
        &TextInputMode::Text,
        false,
        focused(2),
        "abc",
        &[change(NavTextChange::DeleteLeft)],
    );
    assert_eq!(r.text, "ac");
    assert_eq!(r.state.cursor_position, 1);

    let r = text_input_update(
        &TextInputMode::Text,
        false,
        focused(1),
        "abc",
        &[change(NavTextChange::DeleteRight)],
    );
    assert_eq!(r.text, "ac");
    assert_eq!(r.state.cursor_position, 1);

    let r = text_input_update(
        &TextInputMode::Text,
        false,
        focused(0),
        "abc",
        &[change(NavTextChange::DeleteLeft)],
    );
    assert_eq!(r.text, "abc");
    assert!(!r.text_changed && !r.state_changed);

    let r = text_input_update(
        &TextInputMode::Text,
        false,
        focused(3),
        "abc",
        &[change(NavTextChange::DeleteRight)],
    );
    assert_eq!(r.text, "abc");
    assert!(r.text_changed);
}

#[test]
fn text_input_rejects_invalid_edits() {
    let r = text_input_update(
        &TextInputMode::Integer,
        false,
        focused(5),
        "12",
        &[change(NavTextChange::InsertCharacter('a'))],
    );
    assert_eq!(r.text, "12");
    assert!(!r.text_changed && !r.state_changed);
    assert_eq!(r.state.cursor_position, 2);

    let r = text_input_update(
        &TextInputMode::Integer,
        false,
        focused(0),
        "12",
        &[change(NavTextChange::InsertCharacter('-'))],
    );
    assert_eq!(r.text, "-12");

    let r = text_input_update(
        &TextInputMode::Filter(CharFilter(digits_only)),
        false,
        focused(0),
        "1",
        &[
            change(NavTextChange::InsertCharacter('z')),
            change(NavTextChange::InsertCharacter('2')),
        ],
    );
    assert_eq!(r.text, "21");
}

#[test]
fn text_input_focus_and_submit() {
    let unfocused = TextInputState::default();
    let r = text_input_update(
        &TextInputMode::Text,
        false,
        unfocused,
        "a",
        &[change(NavTextChange::InsertCharacter('b'))],
    );
    assert_eq!(r.text, "a");
    assert!(!r.state_changed);

    let target = WidgetIdOrRef::Id(WidgetId::new("input", &["x"]));
    let r = text_input_update(
        &TextInputMode::Text,
        false,
        unfocused,
        "a",
        &[
            TextInputSignal::FocusTextInput(target),
            change(NavTextChange::InsertCharacter('b')),
        ],
    );
    assert_eq!(r.text, "ba");
    assert!(r.state.focused);

    let r = text_input_update(
        &TextInputMode::Text,
        false,
        focused(1),
        "a",
        &[change(NavTextChange::NewLine)],
    );
    assert!(r.submitted && r.state_changed);
    assert_eq!(r.text, "a");

    let r = text_input_update(
        &TextInputMode::Text,
        true,
        focused(1),
        "ab",
        &[change(NavTextChange::NewLine)],
    );
    assert_eq!(r.text, "a\nb");
    assert_eq!(r.state.cursor_position, 2);
    assert!(!r.submitted);

    let r = text_input_update(
        &TextInputMode::Text,
        false,
        focused(1),
        "a",
        &[TextInputSignal::FocusTextInput(WidgetIdOrRef::Unset)],
    );
    assert!(!r.state.focused);
}

#[test]
fn text_input_controls_and_clamp() {
    let r = text_input_update(
        &TextInputMode::Text,
        false,
        focused(0),
        "a",
        &[
            change(NavTextChange::InsertCharacter('\u{8}')),
            change(NavTextChange::InsertCharacter('\u{1b}')),
        ],
    );
    assert_eq!(r.control_characters, vec!['\u{8}', '\u{1b}']);
    assert_eq!(r.text, "a");
    assert!(!r.state_changed);

    let r = text_input_update(
        &TextInputMode::Text,
        false,
        focused(10),
        "ab",
        &[change(NavTextChange::MoveCursorLeft)],
    );
    assert_eq!(r.state.cursor_position, 2);
}

#[test]
fn text_input_notified_state_keeps_last() {
    let sender = WidgetId::new("t", &["i"]);
    let messages = vec![
        TextInputNotifyMessage { sender: sender.clone(), state: focused(1), submitted: false },
        TextInputNotifyMessage { sender, state: focused(4), submitted: true },
    ];
    assert_eq!(text_input_notified_state(&messages), Some(focused(4)));
    assert_eq!(text_input_notified_state(&[]), None);
}

#[test]
fn number_mode_accepts_what_f32_parses() {
    let m = TextInputMode::Number;
    let samples = [
        "0", "42", "-42", "+42", ".5", "5.", "-.5", "+5.", "1e5", "1E5", "1e+5", "1e-5", "1.5e3",
        ".5e2", "5.e2", "inf", "-inf", "+INF", "Inf", "infinity", "-Infinity", "INFINITY", "nan",
        "NaN", "-nan", "+NAN", "", ".", "e5", "1e", "1e+", "1.2.3", "--1", "+-1", " 1", "1 ", "1,5",
        "0x10", "in", "infinit", "nana", "1e5.5", "..5", "5..", "١", "1_000",
    ];
    for s in samples {
        let by_std = s.parse::<f32>().is_ok() || s == "-";
        assert_eq!(m.is_valid(s), by_std, "{:?}", s);
    }
    assert!(m.is_valid("-"));
}
