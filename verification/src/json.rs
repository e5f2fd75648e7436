//! The byte form of a document: the JSON text that a frame's payload holds.
//!
//! The encoder is defined here twice: once as a mathematical function from a
//! document to its byte sequence (`json_of`), and once as executable code
//! proved to produce exactly those bytes.  The encoding is canonical: no
//! whitespace, integers in decimal, and every character outside printable
//! ASCII written as a `\u` escape, so the emitted bytes are always ASCII.

use vstd::prelude::*;

use crate::doc::Doc;
use crate::doc::DocV;
use crate::doc::doc_view;

verus! {

broadcast use vstd::std_specs::vec::group_vec_axioms, vstd::seq::group_seq_axioms;

/// ASCII bytes of the JSON punctuation and escape characters.
pub const QUOTE: u8 = 0x22;
pub const BACKSLASH: u8 = 0x5c;
pub const MINUS: u8 = 0x2d;
pub const COMMA: u8 = 0x2c;
pub const COLON: u8 = 0x3a;
pub const LBRACKET: u8 = 0x5b;
pub const RBRACKET: u8 = 0x5d;
pub const LBRACE: u8 = 0x7b;
pub const RBRACE: u8 = 0x7d;
pub const LOWER_U: u8 = 0x75;

/// The byte for one hexadecimal digit, lower case.
pub open spec fn hex_digit(d: int) -> u8 {
    if d < 10 {
        (0x30 + d) as u8
    } else {
        (0x57 + d) as u8
    }
}

/// Four hexadecimal digits for a value below 0x10000.
pub open spec fn hex4(v: int) -> Seq<u8> {
    seq![
        hex_digit((v / 0x1000) % 16),
        hex_digit((v / 0x100) % 16),
        hex_digit((v / 0x10) % 16),
        hex_digit(v % 16),
    ]
}

/// The bytes a character contributes inside a JSON string literal:
/// printable ASCII stands for itself, quote and backslash are escaped, and
/// everything else becomes `\u` escapes (a surrogate pair beyond the basic
/// plane).
pub open spec fn esc_char(c: char) -> Seq<u8> {
    let v = c as u32;
    if c == '"' {
        seq![BACKSLASH, QUOTE]
    } else if c == '\\' {
        seq![BACKSLASH, BACKSLASH]
    } else if 0x20 <= v <= 0x7e {
        seq![v as u8]
    } else if v <= 0xffff {
        seq![BACKSLASH, LOWER_U] + hex4(v as int)
    } else {
        seq![BACKSLASH, LOWER_U] + hex4(0xd800 + (v - 0x10000) as int / 0x400) + seq![BACKSLASH, LOWER_U]
            + hex4(0xdc00 + (v - 0x10000) as int % 0x400)
    }
}

/// The escaped bytes of a whole string, between the quotes.
pub open spec fn esc_str(s: Seq<char>) -> Seq<u8>
    decreases s.len(),
{
    if s.len() == 0 {
        Seq::empty()
    } else {
        esc_char(s[0]) + esc_str(s.drop_first())
    }
}

/// A JSON string literal: the escaped characters between quotes.
pub open spec fn quoted(s: Seq<char>) -> Seq<u8> {
    seq![QUOTE] + esc_str(s) + seq![QUOTE]
}

/// The decimal digits of a natural number, most significant first.
pub open spec fn dec_digits(n: nat) -> Seq<u8>
    decreases n,
{
    if n < 10 {
        seq![(0x30 + n) as u8]
    } else {
        dec_digits(n / 10) + seq![(0x30 + n % 10) as u8]
    }
}

/// The bytes of a number's decimal text, written verbatim.  A well-formed
/// number text is ASCII; a character outside ASCII cannot occur in one and
/// falls back to a zero digit, so the emitted frame stays ASCII whatever
/// the text holds.
pub open spec fn num_bytes(s: Seq<char>) -> Seq<u8> {
    Seq::new(
        s.len(),
        |i: int|
            if 0 <= i < s.len() && (s[i] as u32) < 0x80 {
                (s[i] as u32) as u8
            } else {
                0x30u8
            },
    )
}

/// A JSON integer: decimal digits, with a leading minus sign if negative.
pub open spec fn int_text(i: int) -> Seq<u8> {
    if i < 0 {
        seq![MINUS] + dec_digits((-i) as nat)
    } else {
        dec_digits(i as nat)
    }
}

/// The canonical JSON text of a document, as bytes.
pub open spec fn json_of(d: DocV) -> Seq<u8>
    decreases d,
{
    match d {
        DocV::Null => seq![0x6eu8, 0x75u8, 0x6cu8, 0x6cu8],
        DocV::Bool(b) => if b {
            seq![0x74u8, 0x72u8, 0x75u8, 0x65u8]
        } else {
            seq![0x66u8, 0x61u8, 0x6cu8, 0x73u8, 0x65u8]
        },
        DocV::Int(i) => int_text(i as int),
        DocV::Num(s) => num_bytes(s),
        DocV::Text(s) => quoted(s),
        DocV::Arr(items) => seq![LBRACKET] + arr_body(items) + seq![RBRACKET],
        DocV::Obj(fields) => seq![LBRACE] + obj_body(fields) + seq![RBRACE],
    }
}

/// The comma-separated element list of a JSON array.
pub open spec fn arr_body(items: Seq<DocV>) -> Seq<u8>
    decreases items,
{
    if items.len() == 0 {
        Seq::empty()
    } else if items.len() == 1 {
        json_of(items[0])
    } else {
        json_of(items[0]) + seq![COMMA] + arr_body(items.drop_first())
    }
}

/// One `"key":value` member of a JSON object.
pub open spec fn field_text(f: (Seq<char>, DocV)) -> Seq<u8>
    decreases f,
{
    quoted(f.0) + seq![COLON] + json_of(f.1)
}

/// The comma-separated member list of a JSON object.
pub open spec fn obj_body(fields: Seq<(Seq<char>, DocV)>) -> Seq<u8>
    decreases fields,
{
    if fields.len() == 0 {
        Seq::empty()
    } else if fields.len() == 1 {
        field_text(fields[0])
    } else {
        field_text(fields[0]) + seq![COMMA] + obj_body(fields.drop_first())
    }
}

/// Escaping distributes over appending one character.
proof fn lemma_esc_str_push(t: Seq<char>, c: char)
    ensures
        esc_str(t.push(c)) == esc_str(t) + esc_char(c),
    decreases t.len(),
{
    if t.len() == 0 {
        assert(t.push(c)[0] == c);
        assert(t.push(c).drop_first() =~= t);
        assert(esc_str(t.push(c)) == esc_char(c) + esc_str(t));
        assert(esc_str(t) =~= Seq::<u8>::empty());
        assert(esc_str(t.push(c)) =~= esc_str(t) + esc_char(c));
    } else {
        assert(t.push(c).drop_first() =~= t.drop_first().push(c));
        lemma_esc_str_push(t.drop_first(), c);
        assert(esc_str(t.push(c)) =~= esc_str(t) + esc_char(c));
    }
}

/// What one more element adds to an array's element list.
proof fn lemma_arr_body_push(s: Seq<DocV>, x: DocV)
    ensures
        arr_body(s.push(x)) == if s.len() == 0 {
            json_of(x)
        } else {
            arr_body(s) + seq![COMMA] + json_of(x)
        },
    decreases s.len(),
{
    if s.len() == 0 {
        assert(s.push(x)[0] == x);
        assert(arr_body(s.push(x)) =~= json_of(x));
    } else if s.len() == 1 {
        assert(s.push(x)[0] == s[0]);
        assert(s.push(x).drop_first() =~= s.drop_first().push(x));
        assert(s.drop_first().push(x)[0] == x);
        assert(s.drop_first().push(x).len() == 1);
        assert(arr_body(s.drop_first().push(x)) == json_of(x));
        assert(arr_body(s.push(x)) =~= arr_body(s) + seq![COMMA] + json_of(x));
    } else {
        assert(s.push(x).drop_first() =~= s.drop_first().push(x));
        lemma_arr_body_push(s.drop_first(), x);
        assert(arr_body(s.push(x)) =~= arr_body(s) + seq![COMMA] + json_of(x));
    }
}

/// What one more member adds to an object's member list.
proof fn lemma_obj_body_push(s: Seq<(Seq<char>, DocV)>, x: (Seq<char>, DocV))
    ensures
        obj_body(s.push(x)) == if s.len() == 0 {
            field_text(x)
        } else {
            obj_body(s) + seq![COMMA] + field_text(x)
        },
    decreases s.len(),
{
    if s.len() == 0 {
        assert(s.push(x)[0] == x);
        assert(obj_body(s.push(x)) =~= field_text(x));
    } else if s.len() == 1 {
        assert(s.push(x)[0] == s[0]);
        assert(s.push(x).drop_first() =~= s.drop_first().push(x));
        assert(s.drop_first().push(x)[0] == x);
        assert(s.drop_first().push(x).len() == 1);
        assert(obj_body(s.drop_first().push(x)) == field_text(x));
        assert(obj_body(s.push(x)) =~= obj_body(s) + seq![COMMA] + field_text(x));
    } else {
        assert(s.push(x).drop_first() =~= s.drop_first().push(x));
        lemma_obj_body_push(s.drop_first(), x);
        assert(obj_body(s.push(x)) =~= obj_body(s) + seq![COMMA] + field_text(x));
    }
}

/// One hexadecimal digit, lower case.
fn hex_digit_byte(d: u32) -> (r: u8)
    requires
        d < 16,
    ensures
        r == hex_digit(d as int),
{
    if d < 10 {
        (0x30 + d) as u8
    } else {
        (0x57 + d) as u8
    }
}

/// Four hexadecimal digits of a value below 0x10000.
fn write_hex4(v: u32, out: &mut Vec<u8>)
    requires
        v <= 0xffff,
    ensures
        final(out)@ == old(out)@ + hex4(v as int),
{
    out.push(hex_digit_byte(v / 0x1000 % 16));
    out.push(hex_digit_byte(v / 0x100 % 16));
    out.push(hex_digit_byte(v / 0x10 % 16));
    out.push(hex_digit_byte(v % 16));
    assert(out@ =~= old(out)@ + hex4(v as int));
}

/// One character of a string literal, escaped as the encoding prescribes.
fn write_char(c: char, out: &mut Vec<u8>)
    ensures
        final(out)@ == old(out)@ + esc_char(c),
{
    let v = c as u32;
    if c == '"' {
        out.push(BACKSLASH);
        out.push(QUOTE);
        assert(out@ =~= old(out)@ + esc_char(c));
    } else if c == '\\' {
        out.push(BACKSLASH);
        out.push(BACKSLASH);
        assert(out@ =~= old(out)@ + esc_char(c));
    } else if 0x20 <= v && v <= 0x7e {
        out.push(v as u8);
        assert(out@ =~= old(out)@ + esc_char(c));
    } else if v <= 0xffff {
        out.push(BACKSLASH);
        out.push(LOWER_U);
        write_hex4(v, out);
        assert(out@ =~= old(out)@ + esc_char(c));
    } else {
        let w = v - 0x10000;
        out.push(BACKSLASH);
        out.push(LOWER_U);
        write_hex4(0xd800 + w / 0x400, out);
        out.push(BACKSLASH);
        out.push(LOWER_U);
        write_hex4(0xdc00 + w % 0x400, out);
        assert(out@ =~= old(out)@ + esc_char(c));
    }
}

/// A whole JSON string literal, quotes included.
fn write_string(s: &str, out: &mut Vec<u8>)
    ensures
        final(out)@ == old(out)@ + quoted(s@),
{
    out.push(QUOTE);
    let len = s.unicode_len();
    let mut i: usize = 0;
    proof {
        assert(s@.take(0) =~= Seq::<char>::empty());
        assert(out@ =~= old(out)@ + seq![QUOTE] + esc_str(s@.take(0)));
    }
    while i < len
        invariant
            i <= len,
            len == s@.len(),
            out@ == old(out)@ + seq![QUOTE] + esc_str(s@.take(i as int)),
        decreases len - i,
    {
        let c = s.get_char(i);
        write_char(c, out);
        proof {
            assert(s@.take(i + 1) =~= s@.take(i as int).push(s@[i as int]));
            lemma_esc_str_push(s@.take(i as int), s@[i as int]);
            assert(out@ =~= old(out)@ + seq![QUOTE] + esc_str(s@.take(i + 1)));
        }
        i = i + 1;
    }
    out.push(QUOTE);
    proof {
        assert(s@.take(len as int) =~= s@);
        assert(out@ =~= old(out)@ + quoted(s@));
    }
}

/// The decimal digits of a magnitude, most significant first.
fn write_digits(m: u64, out: &mut Vec<u8>)
    ensures
        final(out)@ == old(out)@ + dec_digits(m as nat),
    decreases m,
{
    if m < 10 {
        out.push((0x30 + m) as u8);
        assert(out@ =~= old(out)@ + dec_digits(m as nat));
    } else {
        write_digits(m / 10, out);
        out.push((0x30 + m % 10) as u8);
        assert(out@ =~= old(out)@ + dec_digits(m as nat));
    }
}

/// A JSON integer, sign included.
fn write_int(i: i64, out: &mut Vec<u8>)
    ensures
        final(out)@ == old(out)@ + int_text(i as int),
{
    if i < 0 {
        out.push(MINUS);
        let mag = (-(i as i128)) as u64;
        write_digits(mag, out);
        assert(out@ =~= old(out)@ + int_text(i as int));
    } else {
        write_digits(i as u64, out);
    }
}

/// A number's decimal text, byte for byte.
fn write_num(s: &str, out: &mut Vec<u8>)
    ensures
        final(out)@ == old(out)@ + num_bytes(s@),
{
    let len = s.unicode_len();
    let mut i: usize = 0;
    proof {
        assert(out@ =~= old(out)@ + num_bytes(s@).take(0));
    }
    while i < len
        invariant
            i <= len,
            len == s@.len(),
            out@ == old(out)@ + num_bytes(s@).take(i as int),
        decreases len - i,
    {
        let c = s.get_char(i);
        let v = c as u32;
        if v < 0x80 {
            out.push(v as u8);
        } else {
            out.push(0x30);
        }
        proof {
            assert(num_bytes(s@).take(i + 1) =~= num_bytes(s@).take(i as int).push(
                num_bytes(s@)[i as int],
            ));
            assert(out@ =~= old(out)@ + num_bytes(s@).take(i + 1));
        }
        i = i + 1;
    }
    proof {
        assert(num_bytes(s@).take(len as int) =~= num_bytes(s@));
    }
}

/// The canonical JSON text of a document, appended to `out`.
fn write_doc(d: &Doc, out: &mut Vec<u8>)
    ensures
        final(out)@ == old(out)@ + json_of(d@),
    decreases d,
{
    match d {
        Doc::Null => {
            out.push(0x6e);
            out.push(0x75);
            out.push(0x6c);
            out.push(0x6c);
            assert(out@ =~= old(out)@ + json_of(d@));
        },
        Doc::Bool(b) => {
            if *b {
                out.push(0x74);
                out.push(0x72);
                out.push(0x75);
                out.push(0x65);
            } else {
                out.push(0x66);
                out.push(0x61);
                out.push(0x6c);
                out.push(0x73);
                out.push(0x65);
            }
            assert(out@ =~= old(out)@ + json_of(d@));
        },
        Doc::Int(i) => {
            write_int(*i, out);
        },
        Doc::Num(s) => {
            write_num(s.as_str(), out);
        },
        Doc::Text(s) => {
            write_string(s.as_str(), out);
        },
        Doc::Arr(items) => {
            let ghost va = d@->Arr_0;
            out.push(LBRACKET);
            let n = items.len();
            let mut i: usize = 0;
            proof {
                assert(va.take(0) =~= Seq::<DocV>::empty());
                assert(out@ =~= old(out)@ + seq![LBRACKET] + arr_body(va.take(0)));
            }
            while i < n
                invariant
                    i <= n,
                    n == items@.len(),
                    *d == Doc::Arr(*items),
                    va == d@->Arr_0,
                    out@ == old(out)@ + seq![LBRACKET] + arr_body(va.take(i as int)),
                decreases n - i,
            {
                if i > 0 {
                    out.push(COMMA);
                }
                proof {
                    assert(va[i as int] == doc_view(items@[i as int]));
                    assert(decreases_to!(*d => d->Arr_0));
                    assert(d->Arr_0 == *items);
                    assert(decreases_to!(*items => items@));
                    assert(decreases_to!(items@ => items@[i as int]));
                }
                write_doc(&items[i], out);
                proof {
                    assert(va.take(i + 1) =~= va.take(i as int).push(va[i as int]));
                    lemma_arr_body_push(va.take(i as int), va[i as int]);
                    assert(out@ =~= old(out)@ + seq![LBRACKET] + arr_body(va.take(i + 1)));
                }
                i = i + 1;
            }
            out.push(RBRACKET);
            proof {
                assert(va.take(n as int) =~= va);
                assert(out@ =~= old(out)@ + json_of(d@));
            }
        },
        Doc::Obj(fields) => {
            let ghost vf = d@->Obj_0;
            out.push(LBRACE);
            let n = fields.len();
            let mut i: usize = 0;
            proof {
                assert(vf.take(0) =~= Seq::<(Seq<char>, DocV)>::empty());
                assert(out@ =~= old(out)@ + seq![LBRACE] + obj_body(vf.take(0)));
            }
            while i < n
                invariant
                    i <= n,
                    n == fields@.len(),
                    *d == Doc::Obj(*fields),
                    vf == d@->Obj_0,
                    out@ == old(out)@ + seq![LBRACE] + obj_body(vf.take(i as int)),
                decreases n - i,
            {
                if i > 0 {
                    out.push(COMMA);
                }
                proof {
                    assert(vf[i as int] == (fields@[i as int].0@, doc_view(fields@[i as int].1)));
                }
                write_string(fields[i].0.as_str(), out);
                out.push(COLON);
                proof {
                    assert(decreases_to!(*d => d->Obj_0));
                    assert(d->Obj_0 == *fields);
                    assert(decreases_to!(*fields => fields@));
                    assert(decreases_to!(fields@ => fields@[i as int]));
                    assert(decreases_to!(fields@[i as int] => fields@[i as int].1));
                }
                write_doc(&fields[i].1, out);
                proof {
                    assert(vf.take(i + 1) =~= vf.take(i as int).push(vf[i as int]));
                    lemma_obj_body_push(vf.take(i as int), vf[i as int]);
                    assert(out@ =~= old(out)@ + seq![LBRACE] + obj_body(vf.take(i + 1)));
                }
                i = i + 1;
            }
            out.push(RBRACE);
            proof {
                assert(vf.take(n as int) =~= vf);
                assert(out@ =~= old(out)@ + json_of(d@));
            }
        },
    }
}

/// The canonical JSON text of a document.
pub fn encode_doc(d: &Doc) -> (r: Vec<u8>)
    ensures
        r@ == json_of(d@),
{
    let mut out: Vec<u8> = Vec::new();
    write_doc(d, &mut out);
    proof {
        assert(out@ =~= json_of(d@));
    }
    out
}

} // verus!
