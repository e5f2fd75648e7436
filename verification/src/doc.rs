//! The generic tree-structured document that travels in frames.
//!
//! The wire payloads are JSON documents of open-ended shape; the transport
//! itself only ever inspects the top-level keys of an object (whether an
//! `"event"` or `"error"` field is present, and extraction of a named
//! sub-field such as `"info"`).  `Doc` models such a document as a tree of
//! plain values; `DocV` is its mathematical view.

use vstd::prelude::*;

verus! {

broadcast use vstd::std_specs::vec::group_vec_axioms, vstd::seq::axiom_seq_index_decreases;

/// A JSON-like document: string-keyed objects over null, booleans,
/// numbers, strings and arrays.
///
/// A number with a 64-bit integer representation — everything the
/// transport core itself reads — is an `Int`; any other number (fractional,
/// or beyond the `i64` range) is carried losslessly as its decimal text in
/// a `Num`, for the callers above the core to interpret.
#[derive(Debug, PartialEq, Eq)]
pub enum Doc {
    Null,
    Bool(bool),
    Int(i64),
    Num(String),
    Text(String),
    Arr(Vec<Doc>),
    Obj(Vec<(String, Doc)>),
}

/// The mathematical shape of a `Doc`.
pub enum DocV {
    Null,
    Bool(bool),
    Int(i64),
    Num(Seq<char>),
    Text(Seq<char>),
    Arr(Seq<DocV>),
    Obj(Seq<(Seq<char>, DocV)>),
}

/// The view of a document: the same tree over `Seq` values.
pub open spec fn doc_view(d: Doc) -> DocV
    decreases d,
{
    match d {
        Doc::Null => DocV::Null,
        Doc::Bool(b) => DocV::Bool(b),
        Doc::Int(i) => DocV::Int(i),
        Doc::Num(s) => DocV::Num(s@),
        Doc::Text(s) => DocV::Text(s@),
        Doc::Arr(items) => DocV::Arr(
            Seq::new(
                items@.len(),
                |i: int|
                    if 0 <= i < items@.len() {
                        doc_view(items@[i])
                    } else {
                        DocV::Null
                    },
            ),
        ),
        Doc::Obj(fields) => DocV::Obj(
            Seq::new(
                fields@.len(),
                |i: int|
                    if 0 <= i < fields@.len() {
                        (fields@[i].0@, doc_view(fields@[i].1))
                    } else {
                        (Seq::<char>::empty(), DocV::Null)
                    },
            ),
        ),
    }
}

impl View for Doc {
    type V = DocV;

    open spec fn view(&self) -> DocV {
        doc_view(*self)
    }
}

/// The value under the first field named `key`, if the document is an
/// object with such a field.
pub open spec fn lookup_fields(fields: Seq<(Seq<char>, DocV)>, key: Seq<char>) -> Option<DocV>
    decreases fields.len(),
{
    if fields.len() == 0 {
        Option::None
    } else if fields[0].0 == key {
        Option::Some(fields[0].1)
    } else {
        lookup_fields(fields.drop_first(), key)
    }
}

/// The value of field `key`, or `None` where the document is not an object
/// or has no such field.
pub open spec fn lookup(d: DocV, key: Seq<char>) -> Option<DocV> {
    match d {
        DocV::Obj(fields) => lookup_fields(fields, key),
        _ => Option::None,
    }
}

/// Whether the document is an object with a field named `key`.
pub open spec fn has_key(d: DocV, key: Seq<char>) -> bool {
    lookup(d, key) is Some
}

/// A character of the JSON number alphabet: a digit, sign, decimal point
/// or exponent letter.  All of them are ASCII.
pub open spec fn is_number_char(c: char) -> bool {
    ||| 0x30 <= c as u32 <= 0x39
    ||| c == '-'
    ||| c == '+'
    ||| c == '.'
    ||| c == 'e'
    ||| c == 'E'
}

/// The character shape of a number's decimal text: non-empty, drawn from
/// the number alphabet, and led by a digit or a minus sign.  The full
/// number grammar is the wire parser's concern; this shape is what the
/// document type holds as its invariant.
pub open spec fn is_number_shaped(s: Seq<char>) -> bool {
    &&& s.len() > 0
    &&& forall|i: int| 0 <= i < s.len() ==> is_number_char(#[trigger] s[i])
    &&& (0x30 <= s[0] as u32 <= 0x39 || s[0] == '-')
}

/// Well-formedness of a document: every object in the tree has pairwise
/// distinct keys, and every number text has a number's shape.
/// Constructors above the transport keep this; a document breaking it has
/// no single canonical byte form.
pub open spec fn doc_wf(d: DocV) -> bool
    decreases d,
{
    match d {
        DocV::Num(s) => is_number_shaped(s),
        DocV::Arr(items) => forall|i: int| 0 <= i < items.len() ==> doc_wf(#[trigger] items[i]),
        DocV::Obj(fields) => {
            &&& forall|i: int| 0 <= i < fields.len() ==> doc_wf(#[trigger] fields[i].1)
            &&& forall|i: int, j: int|
                #![trigger fields[i], fields[j]]
                0 <= i < j < fields.len() ==> fields[i].0 != fields[j].0
        },
        _ => true,
    }
}

/// Whether every number in the document is a 64-bit integer.  Only such a
/// document has one canonical text that the wire parser hands back
/// verbatim: any other number is re-rendered by the parser, which need not
/// reproduce the text it read.
pub open spec fn int_only(d: DocV) -> bool
    decreases d,
{
    match d {
        DocV::Num(_) => false,
        DocV::Arr(items) => forall|i: int| 0 <= i < items.len() ==> int_only(#[trigger] items[i]),
        DocV::Obj(fields) => forall|i: int|
            0 <= i < fields.len() ==> int_only(#[trigger] fields[i].1),
        _ => true,
    }
}

/// The nesting depth of a document: scalars are one level deep, and each
/// array or object adds a level above its deepest member.
pub open spec fn depth(d: DocV) -> nat
    decreases d,
{
    match d {
        DocV::Arr(items) => 1 + depth_items(items),
        DocV::Obj(fields) => 1 + depth_fields(fields),
        _ => 1,
    }
}

/// The deepest element of an array body; zero for an empty one.
pub open spec fn depth_items(items: Seq<DocV>) -> nat
    decreases items,
{
    if items.len() == 0 {
        0
    } else {
        let h = depth(items[0]);
        let t = depth_items(items.drop_first());
        if h > t {
            h
        } else {
            t
        }
    }
}

/// The deepest member value of an object body; zero for an empty one.
pub open spec fn depth_fields(fields: Seq<(Seq<char>, DocV)>) -> nat
    decreases fields,
{
    if fields.len() == 0 {
        0
    } else {
        let h = depth(fields[0].1);
        let t = depth_fields(fields.drop_first());
        if h > t {
            h
        } else {
            t
        }
    }
}

/// An event document: an unsolicited push, never the answer to a request.
pub open spec fn is_event_doc(d: DocV) -> bool {
    has_key(d, "event"@)
}

/// An error answer from the remote side; still a normal answer to the
/// transport.
pub open spec fn is_error_doc(d: DocV) -> bool {
    has_key(d, "error"@)
}

impl Doc {
    /// The value under field `key`, where this document is an object that
    /// has one.
    pub fn get<'a>(&'a self, key: &str) -> (r: Option<&'a Doc>)
        ensures
            match r {
                Option::Some(v) => lookup(self@, key@) == Option::Some(v@),
                Option::None => lookup(self@, key@) is None,
            },
    {
        match self {
            Doc::Obj(fields) => {
                let owned_key: String = key.to_owned();
                let n = fields.len();
                let mut i: usize = 0;
                proof {
                    assert(self@->Obj_0.skip(0) =~= self@->Obj_0);
                }
                while i < n
                    invariant
                        n == fields@.len(),
                        i <= n,
                        owned_key@ == key@,
                        lookup_fields(self@->Obj_0, key@) == lookup_fields(
                            self@->Obj_0.skip(i as int),
                            key@,
                        ),
                        self@ == doc_view(Doc::Obj(*fields)),
                    decreases n - i,
                {
                    proof {
                        assert(self@->Obj_0[i as int] == (fields@[i as int].0@, doc_view(
                            fields@[i as int].1,
                        )));
                        assert(self@->Obj_0.skip(i as int)[0] == self@->Obj_0[i as int]);
                    }
                    if fields[i].0 == owned_key {
                        return Option::Some(&fields[i].1);
                    }
                    proof {
                        assert(self@->Obj_0.skip(i as int).drop_first() =~= self@->Obj_0.skip(
                            i as int + 1,
                        ));
                    }
                    i = i + 1;
                }
                proof {
                    assert(self@->Obj_0.skip(n as int) =~= Seq::<(Seq<char>, DocV)>::empty());
                }
                Option::None
            },
            _ => Option::None,
        }
    }

    /// A deep copy: a fresh document with the same view.
    pub fn duplicate(&self) -> (r: Doc)
        ensures
            r@ == self@,
        decreases self,
    {
        match self {
            Doc::Null => Doc::Null,
            Doc::Bool(b) => Doc::Bool(*b),
            Doc::Int(i) => Doc::Int(*i),
            Doc::Num(s) => Doc::Num(s.clone()),
            Doc::Text(s) => Doc::Text(s.clone()),
            Doc::Arr(items) => {
                let n = items.len();
                let mut out: Vec<Doc> = Vec::new();
                let mut i: usize = 0;
                while i < n
                    invariant
                        *self == Doc::Arr(*items),
                        n == items@.len(),
                        i <= n,
                        out@.len() == i,
                        forall|j: int| 0 <= j < i ==> (#[trigger] out@[j])@ == self@->Arr_0[j],
                    decreases n - i,
                {
                    proof {
                        assert(decreases_to!(*self => self->Arr_0));
                        assert(self->Arr_0 == *items);
                        assert(decreases_to!(*items => items@));
                        assert(decreases_to!(items@ => items@[i as int]));
                        assert(self@->Arr_0[i as int] == doc_view(items@[i as int]));
                    }
                    out.push(items[i].duplicate());
                    i = i + 1;
                }
                let r = Doc::Arr(out);
                proof {
                    assert(r@->Arr_0 =~= self@->Arr_0);
                    assert(r@ == self@);
                }
                r
            },
            Doc::Obj(fields) => {
                let n = fields.len();
                let mut out: Vec<(String, Doc)> = Vec::new();
                let mut i: usize = 0;
                while i < n
                    invariant
                        *self == Doc::Obj(*fields),
                        n == fields@.len(),
                        i <= n,
                        out@.len() == i,
                        forall|j: int|
                            0 <= j < i ==> ((#[trigger] out@[j]).0@, out@[j].1@) == self@->Obj_0[j],
                    decreases n - i,
                {
                    proof {
                        assert(decreases_to!(*self => self->Obj_0));
                        assert(self->Obj_0 == *fields);
                        assert(decreases_to!(*fields => fields@));
                        assert(decreases_to!(fields@ => fields@[i as int]));
                        assert(decreases_to!(fields@[i as int] => fields@[i as int].1));
                        assert(self@->Obj_0[i as int] == (fields@[i as int].0@, doc_view(
                            fields@[i as int].1,
                        )));
                    }
                    let copied = (fields[i].0.clone(), fields[i].1.duplicate());
                    out.push(copied);
                    i = i + 1;
                }
                let r = Doc::Obj(out);
                proof {
                    assert(r@->Obj_0 =~= self@->Obj_0);
                    assert(r@ == self@);
                }
                r
            },
        }
    }

    /// Whether this document is an object with a field named `key`.
    pub fn has_field(&self, key: &str) -> (r: bool)
        ensures
            r == has_key(self@, key@),
    {
        self.get(key).is_some()
    }

    /// Whether this document is an event (carries an `"event"` field).
    pub fn is_event(&self) -> (r: bool)
        ensures
            r == is_event_doc(self@),
    {
        self.has_field("event")
    }

    /// Whether this document reports a remote error (carries an `"error"`
    /// field).  Such a document is still the answer to its request.
    pub fn is_error(&self) -> (r: bool)
        ensures
            r == is_error_doc(self@),
    {
        self.has_field("error")
    }
}

} // verus!
