use rython::check_float_text;

/// Each text is accepted exactly when the standard library parses it as an `f64`.
fn agrees_with_std(text: &str) {
    assert_eq!(
        check_float_text(text.as_bytes()),
        text.parse::<f64>().is_ok(),
        "float text {text:?}"
    );
}

#[test]
fn float_text_agrees_with_std_on_edge_cases() {
    for text in [
        "+.5", "1.", "infinity", "1_0", "e5", "inf", "NaN", "1e", ".", "-0.0", "1e+5", "+inf",
        "-NaN", "Infinity", "INF", "iNfInItY", "infinit", "nan(1)", "1.5e-3", "0x10", "", "+",
        "-", "e", ".e1", "1.e1", ".5e-2", "1e5.0", " 1", "1 ", "++1", "+-1", "1e+", "1e-",
        "1E5", "00012", "1.2.3", "5e0005", "-.0", "0.", "+infinity", "-inf", "nan", "NAN",
        "1e1_0", "\u{661}", "1ee5",
    ] {
        agrees_with_std(text);
    }
}

#[test]
fn float_text_accepts_and_refuses() {
    assert!(check_float_text(b"+.5"));
    assert!(check_float_text(b"1."));
    assert!(check_float_text(b"infinity"));
    assert!(!check_float_text(b"1_0"));
    assert!(!check_float_text(b"e5"));
    assert!(!check_float_text(b"."));
}
