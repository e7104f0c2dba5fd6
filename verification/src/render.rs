//! The text of values, as the VM shows a result and as `print` writes its
//! arguments. Floats are left as slots that the host fills in with Rust's
//! shortest round-trip text of the binary64 value.
use crate::decimal::{decimal, decimal_text, signed_decimal, signed_decimal_text};
use crate::message::{debug_quoted, debug_text};
use crate::value::{
    Value, VmValue, lemma_vm_entries_view, lemma_vm_values_view, vm_entries_view, vm_values_view,
    vm_view,
};
use vstd::prelude::*;
use vstd::string::StringExecFns;

verus! {

broadcast use vstd::string::to_string_from_display_ensures_for_str;

/// A piece of rendered text: literal text, or a float for the host to write.
pub enum Piece {
    Text(String),
    Float(u64),
}

/// The mathematical content of a piece.
pub enum SpecPiece {
    Text(Seq<char>),
    Float(u64),
}

/// The content of a piece.
pub open spec fn piece_view(p: Piece) -> SpecPiece {
    match p {
        Piece::Text(t) => SpecPiece::Text(t@),
        Piece::Float(b) => SpecPiece::Float(b),
    }
}

/// The content of a sequence of pieces.
pub open spec fn pieces_view(s: Seq<Piece>) -> Seq<SpecPiece> {
    Seq::new(s.len(), |i: int| piece_view(s[i]))
}

/// Bytes as Rust's `{:?}` shows a byte vector: `[1, 2, 3]`.
pub open spec fn byte_list(b: Seq<u8>) -> Seq<char> {
    "["@ + byte_items(b) + "]"@
}

/// The bytes in decimal, separated by `, `.
pub open spec fn byte_items(b: Seq<u8>) -> Seq<char>
    decreases b.len(),
{
    if b.len() == 0 {
        Seq::empty()
    } else if b.len() == 1 {
        decimal(b[0] as nat)
    } else {
        byte_items(b.drop_last()) + ", "@ + decimal(b.last() as nat)
    }
}

/// A single text piece.
pub open spec fn text(t: Seq<char>) -> Seq<SpecPiece> {
    seq![SpecPiece::Text(t)]
}

/// How the VM shows a value: `None`, `True`, integers in decimal, strings
/// quoted as Rust's `{:?}` quotes them, bytes as `bytes([..])`, containers
/// with their items shown the same way between brackets.
pub open spec fn display(v: Value) -> Seq<SpecPiece>
    decreases v, 1nat,
{
    match v {
        Value::PyNone => text("None"@),
        Value::Bool(b) => text(
            if b {
                "True"@
            } else {
                "False"@
            },
        ),
        Value::Int(i) => text(signed_decimal(i as int)),
        Value::Float(bits) => seq![SpecPiece::Float(bits)],
        Value::String(s) => text(debug_text(s)),
        Value::Bytes(b) => text("bytes("@ + byte_list(b) + ")"@),
        Value::Tuple(items) => text("("@) + display_items(items) + text(")"@),
        Value::List(items) => text("["@) + display_items(items) + text("]"@),
        Value::PySet(items) => text("{"@) + display_items(items) + text("}"@),
        Value::FrozenSet(items) => text("frozenset({"@) + display_items(items) + text("})"@),
        Value::Dict(entries) => text("{"@) + display_entries(entries) + text("}"@),
        Value::Code(code) => text("<code object "@ + code.name + ">"@),
        Value::BuiltinPrint => text("<built-in function print>"@),
    }
}

/// Values shown one after the other, separated by `, `.
pub open spec fn display_items(s: Seq<Value>) -> Seq<SpecPiece>
    decreases s, 0nat,
{
    if s.len() == 0 {
        Seq::empty()
    } else if s.len() == 1 {
        display(s[0])
    } else {
        display_items(s.drop_last()) + text(", "@) + display(s.last())
    }
}

/// Key/value pairs shown as `key: value`, separated by `, `.
pub open spec fn display_entries(s: Seq<(Value, Value)>) -> Seq<SpecPiece>
    decreases s, 0nat,
{
    if s.len() == 0 {
        Seq::empty()
    } else if s.len() == 1 {
        display(s[0].0) + text(": "@) + display(s[0].1)
    } else {
        display_entries(s.drop_last()) + text(", "@) + display(s.last().0) + text(": "@) + display(
            s.last().1,
        )
    }
}

/// What `print` writes for one argument: a string as it is, bytes as
/// `b[..]`, anything else as the VM shows it.
pub open spec fn print_pieces(v: Value) -> Seq<SpecPiece> {
    match v {
        Value::String(s) => text(s),
        Value::Bytes(b) => text("b"@ + byte_list(b)),
        _ => display(v),
    }
}

/// The line `print` writes: its arguments separated by spaces, then a newline.
pub open spec fn print_line(args: Seq<Value>) -> Seq<SpecPiece> {
    print_items(args) + text("\n"@)
}

/// Arguments written one after the other, separated by a space.
pub open spec fn print_items(s: Seq<Value>) -> Seq<SpecPiece>
    decreases s.len(),
{
    if s.len() == 0 {
        Seq::empty()
    } else if s.len() == 1 {
        print_pieces(s[0])
    } else {
        print_items(s.drop_last()) + text(" "@) + print_pieces(s.last())
    }
}

/// Appends a text piece.
fn push_text(out: &mut Vec<Piece>, t: &str)
    ensures
        pieces_view(final(out)@) == pieces_view(old(out)@) + text(t@),
{
    out.push(Piece::Text(t.to_string()));
    assert(pieces_view(out@) =~= pieces_view(old(out)@) + text(t@));
}

/// Appends pieces.
fn append_pieces(out: &mut Vec<Piece>, more: Vec<Piece>)
    ensures
        pieces_view(final(out)@) == pieces_view(old(out)@) + pieces_view(more@),
{
    let mut more = more;
    let ghost start = out@;
    let ghost added = more@;
    out.append(&mut more);
    assert(out@ =~= start + added);
    assert(pieces_view(out@) =~= pieces_view(start) + pieces_view(added));
}

/// The bytes in decimal, separated by `, `, between brackets.
fn byte_list_text(b: &[u8]) -> (s: String)
    ensures
        s@ == byte_list(b@),
{
    let mut s = "[".to_string();
    let mut i: usize = 0;
    while i < b.len()
        invariant
            i <= b@.len(),
            s@ == "["@ + byte_items(b@.take(i as int)),
        decreases b@.len() - i,
    {
        assert(b@.take(i + 1).drop_last() =~= b@.take(i as int));
        if i > 0 {
            s.append(", ");
        } else {
            assert(b@.take(0) =~= Seq::<u8>::empty());
        }
        s.append(decimal_text(b[i] as u64).as_str());
        i += 1;
        proof {
            if i == 1 {
                assert(byte_items(Seq::<u8>::empty()) =~= Seq::<char>::empty());
                assert("["@ + byte_items(b@.take(0)) + decimal(b@[0] as nat) =~= "["@ + decimal(
                    b@[0] as nat,
                ));
            }
        }
        assert(s@ =~= "["@ + byte_items(b@.take(i as int)));
    }
    assert(b@.take(i as int) =~= b@);
    s.append("]");
    s
}

/// How the VM shows a value, with floats left for the host.
pub fn display_value(v: &VmValue) -> (r: Vec<Piece>)
    ensures
        pieces_view(r@) == display(vm_view(*v)),
    decreases *v, 1nat,
{
    let mut out: Vec<Piece> = Vec::new();
    match v {
        VmValue::PyNone => push_text(&mut out, "None"),
        VmValue::Bool(b) => push_text(
            &mut out,
            if *b {
                "True"
            } else {
                "False"
            },
        ),
        VmValue::Int(i) => push_text(&mut out, signed_decimal_text(*i).as_str()),
        VmValue::Float(bits) => {
            out.push(Piece::Float(*bits));
            assert(pieces_view(out@) =~= seq![SpecPiece::Float(*bits)]);
        },
        VmValue::String(s) => push_text(&mut out, debug_quoted(s.as_str()).as_str()),
        VmValue::Bytes(b) => {
            let mut t = "bytes(".to_string();
            t.append(byte_list_text(b.as_slice()).as_str());
            t.append(")");
            push_text(&mut out, t.as_str());
        },
        VmValue::Tuple(items) => {
            push_text(&mut out, "(");
            append_pieces(&mut out, display_values(items));
            push_text(&mut out, ")");
        },
        VmValue::List(items) => {
            push_text(&mut out, "[");
            append_pieces(&mut out, display_values(items));
            push_text(&mut out, "]");
        },
        VmValue::PySet(items) => {
            push_text(&mut out, "{");
            append_pieces(&mut out, display_values(items));
            push_text(&mut out, "}");
        },
        VmValue::FrozenSet(items) => {
            push_text(&mut out, "frozenset({");
            append_pieces(&mut out, display_values(items));
            push_text(&mut out, "})");
        },
        VmValue::Dict(entries) => {
            push_text(&mut out, "{");
            append_pieces(&mut out, display_pairs(entries));
            push_text(&mut out, "}");
        },
        VmValue::Code(code) => {
            let mut t = "<code object ".to_string();
            t.append(code.name.as_str());
            t.append(">");
            push_text(&mut out, t.as_str());
        },
        VmValue::BuiltinPrint => push_text(&mut out, "<built-in function print>"),
    }
    assert(pieces_view(Seq::<Piece>::empty()) =~= Seq::<SpecPiece>::empty());
    out
}

/// Values shown one after the other, separated by `, `.
fn display_values(items: &Vec<VmValue>) -> (r: Vec<Piece>)
    ensures
        pieces_view(r@) == display_items(vm_values_view(items@)),
    decreases *items, 0nat,
{
    proof {
        lemma_vm_values_view(items@);
    }
    let ghost vs = vm_values_view(items@);
    let mut out: Vec<Piece> = Vec::new();
    let mut i: usize = 0;
    assert(pieces_view(out@) =~= Seq::<SpecPiece>::empty());
    while i < items.len()
        invariant
            i <= items@.len(),
            vs == vm_values_view(items@),
            vs.len() == items@.len(),
            forall|j: int| 0 <= j < items@.len() ==> #[trigger] vs[j] == vm_view(items@[j]),
            pieces_view(out@) == display_items(vs.take(i as int)),
        decreases items@.len() - i,
    {
        assert(vs.take(i + 1).drop_last() =~= vs.take(i as int));
        assert(vs.take(i + 1).last() == vs[i as int]);
        if i > 0 {
            push_text(&mut out, ", ");
        }
        append_pieces(&mut out, display_value(&items[i]));
        i += 1;
        proof {
            if i == 1 {
                assert(vs.take(1)[0] == vs[0]);
                assert(pieces_view(out@) =~= display_items(vs.take(1)));
            }
        }
    }
    assert(vs.take(i as int) =~= vs);
    out
}

/// Key/value pairs shown as `key: value`, separated by `, `.
fn display_pairs(entries: &Vec<(VmValue, VmValue)>) -> (r: Vec<Piece>)
    ensures
        pieces_view(r@) == display_entries(vm_entries_view(entries@)),
    decreases *entries, 0nat,
{
    proof {
        lemma_vm_entries_view(entries@);
    }
    let ghost es = vm_entries_view(entries@);
    let mut out: Vec<Piece> = Vec::new();
    let mut i: usize = 0;
    assert(pieces_view(out@) =~= Seq::<SpecPiece>::empty());
    while i < entries.len()
        invariant
            i <= entries@.len(),
            es == vm_entries_view(entries@),
            es.len() == entries@.len(),
            forall|j: int|
                0 <= j < entries@.len() ==> #[trigger] es[j] == (vm_view(entries@[j].0), vm_view(
                    entries@[j].1,
                )),
            pieces_view(out@) == display_entries(es.take(i as int)),
        decreases entries@.len() - i,
    {
        assert(es.take(i + 1).drop_last() =~= es.take(i as int));
        assert(es.take(i + 1).last() == es[i as int]);
        if i > 0 {
            push_text(&mut out, ", ");
        }
        append_pieces(&mut out, display_value(&entries[i].0));
        push_text(&mut out, ": ");
        append_pieces(&mut out, display_value(&entries[i].1));
        i += 1;
        proof {
            if i == 1 {
                assert(es.take(1)[0] == es[0]);
                assert(pieces_view(out@) =~= display_entries(es.take(1)));
            }
        }
    }
    assert(es.take(i as int) =~= es);
    out
}

/// What `print` writes for one argument.
fn print_value(v: &VmValue) -> (r: Vec<Piece>)
    ensures
        pieces_view(r@) == print_pieces(vm_view(*v)),
{
    let mut out: Vec<Piece> = Vec::new();
    match v {
        VmValue::String(s) => {
            push_text(&mut out, s.as_str());
            assert(pieces_view(Seq::<Piece>::empty()) =~= Seq::<SpecPiece>::empty());
            out
        },
        VmValue::Bytes(b) => {
            let mut t = "b".to_string();
            t.append(byte_list_text(b.as_slice()).as_str());
            push_text(&mut out, t.as_str());
            assert(pieces_view(Seq::<Piece>::empty()) =~= Seq::<SpecPiece>::empty());
            out
        },
        _ => display_value(v),
    }
}

/// The line `print` writes for its arguments: separated by spaces, ended by
/// a newline, with floats left for the host.
pub fn print_line_pieces(args: &[VmValue]) -> (r: Vec<Piece>)
    ensures
        pieces_view(r@) == print_line(vm_values_view(args@)),
{
    proof {
        lemma_vm_values_view(args@);
    }
    let ghost vs = vm_values_view(args@);
    let mut out: Vec<Piece> = Vec::new();
    let mut i: usize = 0;
    assert(pieces_view(out@) =~= Seq::<SpecPiece>::empty());
    while i < args.len()
        invariant
            i <= args@.len(),
            vs == vm_values_view(args@),
            vs.len() == args@.len(),
            forall|j: int| 0 <= j < args@.len() ==> #[trigger] vs[j] == vm_view(args@[j]),
            pieces_view(out@) == print_items(vs.take(i as int)),
        decreases args@.len() - i,
    {
        assert(vs.take(i + 1).drop_last() =~= vs.take(i as int));
        assert(vs.take(i + 1).last() == vs[i as int]);
        if i > 0 {
            push_text(&mut out, " ");
        }
        append_pieces(&mut out, print_value(&args[i]));
        i += 1;
        proof {
            if i == 1 {
                assert(vs.take(1)[0] == vs[0]);
                assert(pieces_view(out@) =~= print_items(vs.take(1)));
            }
        }
    }
    assert(vs.take(i as int) =~= vs);
    push_text(&mut out, "\n");
    out
}

} // verus!

verus! {

/// A set or a tuple is shown as its items are shown in a list, with braces
/// or parentheses in place of the brackets: a list is shown from `[` to `]`,
/// and a set with the same items shows the same pieces between `{` and `}`,
/// a tuple between `(` and `)`.
pub proof fn lemma_set_shown_in_braces(items: Seq<Value>)
    ensures
        display(Value::List(items)).len() >= 2,
        display(Value::List(items))[0] == SpecPiece::Text("["@),
        display(Value::List(items)).last() == SpecPiece::Text("]"@),
        display(Value::PySet(items)) == seq![SpecPiece::Text("{"@)] + display(
            Value::List(items),
        ).subrange(1, display(Value::List(items)).len() - 1) + seq![SpecPiece::Text("}"@)],
        display(Value::Tuple(items)) == seq![SpecPiece::Text("("@)] + display(
            Value::List(items),
        ).subrange(1, display(Value::List(items)).len() - 1) + seq![SpecPiece::Text(")"@)],
{
    let list = display(Value::List(items));
    let inner = display_items(items);
    assert(list == text("["@) + inner + text("]"@));
    assert(list.subrange(1, list.len() - 1) =~= inner);
    assert(display(Value::PySet(items)) =~= seq![SpecPiece::Text("{"@)] + inner + seq![
        SpecPiece::Text("}"@),
    ]);
    assert(display(Value::Tuple(items)) =~= seq![SpecPiece::Text("("@)] + inner + seq![
        SpecPiece::Text(")"@),
    ]);
}

} // verus!
