use rython::{display_value, print_line_pieces, Piece, VmValue};

fn text_of(pieces: Vec<Piece>) -> String {
    let mut text = String::new();
    for piece in pieces {
        match piece {
            Piece::Text(part) => text.push_str(&part),
            Piece::Float(bits) => text.push_str(&format!("{}", f64::from_bits(bits))),
        }
    }
    text
}

#[test]
fn values_render_as_the_vm_shows_them() {
    assert_eq!(text_of(display_value(&VmValue::PyNone)), "None");
    assert_eq!(text_of(display_value(&VmValue::Bool(false))), "False");
    assert_eq!(text_of(display_value(&VmValue::Int(-42))), "-42");
    assert_eq!(
        text_of(display_value(&VmValue::String("a\"b".to_string()))),
        "\"a\\\"b\""
    );
    assert_eq!(
        text_of(display_value(&VmValue::Bytes(vec![1, 255]))),
        "bytes([1, 255])"
    );
    assert_eq!(
        text_of(display_value(&VmValue::Tuple(vec![VmValue::Int(1)]))),
        "(1)"
    );
    assert_eq!(
        text_of(display_value(&VmValue::List(vec![
            VmValue::String("x".to_string()),
            VmValue::Float(2.5f64.to_bits()),
            VmValue::List(vec![]),
        ]))),
        "[\"x\", 2.5, []]"
    );
    assert_eq!(
        text_of(display_value(&VmValue::FrozenSet(vec![VmValue::Int(1), VmValue::Int(2)]))),
        "frozenset({1, 2})"
    );
    assert_eq!(
        text_of(display_value(&VmValue::Dict(vec![
            (VmValue::String("a".to_string()), VmValue::Int(1)),
            (VmValue::Int(2), VmValue::PyNone),
        ]))),
        "{\"a\": 1, 2: None}"
    );
    assert_eq!(
        text_of(display_value(&VmValue::BuiltinPrint)),
        "<built-in function print>"
    );
}

#[test]
fn print_writes_strings_bare_and_ends_the_line() {
    assert_eq!(
        text_of(print_line_pieces(&[
            VmValue::String("value:".to_string()),
            VmValue::Int(3),
        ])),
        "value: 3\n"
    );
    assert_eq!(
        text_of(print_line_pieces(&[VmValue::Bool(true), VmValue::PyNone])),
        "True None\n"
    );
    assert_eq!(
        text_of(print_line_pieces(&[VmValue::Bytes(vec![97, 98])])),
        "b[97, 98]\n"
    );
    assert_eq!(
        text_of(print_line_pieces(&[VmValue::Float(0.1f64.to_bits())])),
        "0.1\n"
    );
    assert_eq!(text_of(print_line_pieces(&[])), "\n");
}
