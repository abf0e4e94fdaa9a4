use crate::map::{lemma_entries_decrease, ObjectMap};
use crate::spanned::{lemma_value_decreases, Spanned};
use vstd::prelude::*;
use vstd::string::StringExecFns;

verus! {

/// serde_json's arbitrary-precision number; carried through as it is.
#[verifier::external_type_specification]
#[verifier::external_body]
pub struct ExNumber(serde_json::Number);

/// The text that serde_json writes for a number.
pub uninterp spec fn number_text(n: serde_json::Number) -> Seq<char>;

/// Relies on serde_json::Number's Display: the number's text as serde_json
/// writes it.
#[verifier::external_body]
fn write_number(n: &serde_json::Number) -> (r: String)
    ensures
        r@ == number_text(*n),
{
    n.to_string()
}

/// Rust's debug text of a string: quoted, with escapes.
pub uninterp spec fn quoted(s: Seq<char>) -> Seq<char>;

/// Relies on str's Debug: the quoted, escaped text of the string.
#[verifier::external_body]
fn write_quoted(s: &str) -> (r: String)
    ensures
        r@ == quoted(s@),
{
    format!("{:?}", s)
}

/// How many children an array or object may have and still be shown.
pub const SHOWN_CHILDREN: usize = 32;

/// The debug text of a value: `null`, `true`, `false`, the number's text, the
/// quoted string, or the children between brackets or braces, each after
/// `" "` or `", "` and with a closing `" "`; a container with more than
/// [`SHOWN_CHILDREN`] children shows `...` instead.
pub open spec fn debug_text(v: Value) -> Seq<char>
    decreases v, 0nat
    via debug_text_decreases
{
    match v {
        Value::Null => "null"@,
        Value::Bool(b) => if b {
            "true"@
        } else {
            "false"@
        },
        Value::Number(n) => number_text(n),
        Value::String(s) => quoted(s@),
        Value::Array(a) => "["@ + (if a@.len() > SHOWN_CHILDREN {
            "..."@
        } else {
            items_text(a@, 0)
        }) + "]"@,
        Value::Object(o) => "{"@ + (if o.entries().len() > SHOWN_CHILDREN {
            "..."@
        } else {
            entries_text(o.entries(), 0)
        }) + "}"@,
    }
}

/// The separator before the child at position `i`.
pub open spec fn separator(i: int) -> Seq<char> {
    if i == 0 {
        " "@
    } else {
        ", "@
    }
}

/// The text that closes a list of `n` children.
pub open spec fn closing(n: int) -> Seq<char> {
    if n == 0 {
        Seq::empty()
    } else {
        " "@
    }
}

/// The debug text of the array elements from position `i` on.
pub open spec fn items_text(s: Seq<Spanned<Value>>, i: int) -> Seq<char>
    decreases s, s.len() - i
    via items_text_decreases
{
    if i < 0 || i >= s.len() {
        closing(s.len() as int)
    } else {
        separator(i) + debug_text(s[i].spec_value()) + items_text(s, i + 1)
    }
}

/// The debug text of the object entries from position `i` on.
pub open spec fn entries_text(e: Seq<(Spanned<String>, Spanned<Value>)>, i: int) -> Seq<char>
    decreases e, e.len() - i
    via entries_text_decreases
{
    if i < 0 || i >= e.len() {
        closing(e.len() as int)
    } else {
        separator(i) + quoted(e[i].0.spec_value()@) + ": "@ + debug_text(e[i].1.spec_value())
            + entries_text(e, i + 1)
    }
}

/// Child texts joined as a container shows them, from position `i` on:
/// each after `" "` or `", "`, with a closing `" "` when there are any.
pub open spec fn joined(t: Seq<Seq<char>>, i: int) -> Seq<char>
    decreases t.len() - i,
{
    if i < 0 || i >= t.len() {
        closing(t.len() as int)
    } else {
        separator(i) + t[i] + joined(t, i + 1)
    }
}

/// The debug text of an object entry.
pub open spec fn entry_text(e: (Spanned<String>, Spanned<Value>)) -> Seq<char> {
    quoted(e.0.spec_value()@) + ": "@ + debug_text(e.1.spec_value())
}

proof fn lemma_items_joined(s: Seq<Spanned<Value>>, t: Seq<Seq<char>>, i: int)
    requires
        0 <= i <= s.len(),
        t.len() == s.len(),
        forall|j: int| 0 <= j < s.len() ==> t[j] == debug_text(#[trigger] s[j].spec_value()),
    ensures
        items_text(s, i) == joined(t, i),
    decreases s.len() - i,
{
    if i < s.len() {
        lemma_items_joined(s, t, i + 1);
    }
}

proof fn lemma_entries_joined(e: Seq<(Spanned<String>, Spanned<Value>)>, t: Seq<Seq<char>>, i: int)
    requires
        0 <= i <= e.len(),
        t.len() == e.len(),
        forall|j: int| 0 <= j < e.len() ==> t[j] == entry_text(#[trigger] e[j]),
    ensures
        entries_text(e, i) == joined(t, i),
    decreases e.len() - i,
{
    if i < e.len() {
        lemma_entries_joined(e, t, i + 1);
        assert(entries_text(e, i) =~= separator(i) + entry_text(e[i]) + entries_text(e, i + 1));
    }
}

#[via_fn]
proof fn debug_text_decreases(v: Value) {
    if let Value::Object(o) = v {
        assert(decreases_to!(v => o));
        lemma_entries_seq_decreases(o);
    }
}

#[via_fn]
proof fn items_text_decreases(s: Seq<Spanned<Value>>, i: int) {
    if 0 <= i < s.len() {
        lemma_value_decreases(s[i]);
        assert(decreases_to!(s => s[i]));
    }
}

#[via_fn]
proof fn entries_text_decreases(e: Seq<(Spanned<String>, Spanned<Value>)>, i: int) {
    if 0 <= i < e.len() {
        lemma_value_decreases(e[i].1);
        assert(decreases_to!(e => e[i]));
        assert(decreases_to!(e[i] => e[i].1));
    }
}

proof fn lemma_entries_seq_decreases(o: ObjectMap<Spanned<String>, Spanned<Value>>)
    ensures
        decreases_to!(o => o.entries()),
{
    lemma_entries_decrease(o);
}

proof fn lemma_element_decreases(v: Value, a: Vec<Spanned<Value>>, i: int)
    requires
        v == Value::Array(a),
        0 <= i < a@.len(),
    ensures
        decreases_to!(v => a@[i].spec_value()),
{
    lemma_value_decreases(a@[i]);
    if let Value::Array(b) = v {
        assert(decreases_to!(v => b));
    }
    assert(decreases_to!(a => a@));
    assert(decreases_to!(a@ => a@[i]));
}

proof fn lemma_object_decreases(v: Value, o: ObjectMap<Spanned<String>, Spanned<Value>>)
    requires
        v == Value::Object(o),
    ensures
        decreases_to!(v => o),
{
    if let Value::Object(m) = v {
        assert(decreases_to!(v => m));
    }
}

/// A JSON value whose children carry their spans.
#[derive(Debug)]
pub enum Value {
    /// `null`
    Null,
    /// `true` or `false`
    Bool(bool),
    /// A number like `123`
    Number(serde_json::Number),
    /// A string like `"asdf"`
    String(String),
    /// An array like `[1, 2, 3]`
    Array(Vec<Spanned<Value>>),
    /// An object like `{"a": 1, "b": 2}`
    Object(ObjectMap<Spanned<String>, Spanned<Value>>),
}

impl Value {
    /// Whether this is `null`.
    pub fn is_null(&self) -> (r: bool)
        ensures
            r == self is Null,
    {
        match self {
            Value::Null => true,
            _ => false,
        }
    }

    /// Whether this is `true` or `false`.
    pub fn is_bool(&self) -> (r: bool)
        ensures
            r == self is Bool,
    {
        match self {
            Value::Bool(_) => true,
            _ => false,
        }
    }

    /// Whether this is a number.
    pub fn is_number(&self) -> (r: bool)
        ensures
            r == self is Number,
    {
        match self {
            Value::Number(_) => true,
            _ => false,
        }
    }

    /// Whether this is a string.
    pub fn is_string(&self) -> (r: bool)
        ensures
            r == self is String,
    {
        match self {
            Value::String(_) => true,
            _ => false,
        }
    }

    /// Whether this is an array.
    pub fn is_array(&self) -> (r: bool)
        ensures
            r == self is Array,
    {
        match self {
            Value::Array(_) => true,
            _ => false,
        }
    }

    /// Whether this is an object.
    pub fn is_object(&self) -> (r: bool)
        ensures
            r == self is Object,
    {
        match self {
            Value::Object(_) => true,
            _ => false,
        }
    }

    /// `Some(())` if this is `null`.
    pub fn as_null(&self) -> (r: Option<()>)
        ensures
            r is Some == self is Null,
    {
        match self {
            Value::Null => Some(()),
            _ => None,
        }
    }

    /// The boolean, if this is one.
    pub fn as_bool(&self) -> (r: Option<bool>)
        ensures
            r == (match *self {
                Value::Bool(b) => Some(b),
                _ => None::<bool>,
            }),
    {
        match self {
            Value::Bool(v) => Some(*v),
            _ => None,
        }
    }

    /// The number, if this is one.
    pub fn as_number(&self) -> (r: Option<&serde_json::Number>)
        ensures
            match *self {
                Value::Number(n) => r == Some(&n),
                _ => r is None,
            },
    {
        match self {
            Value::Number(v) => Some(v),
            _ => None,
        }
    }

    /// The string, if this is one.
    pub fn as_string(&self) -> (r: Option<&str>)
        ensures
            match *self {
                Value::String(s) => r is Some && r->Some_0@ == s@,
                _ => r is None,
            },
    {
        match self {
            Value::String(v) => Some(v.as_str()),
            _ => None,
        }
    }

    /// The elements, if this is an array.
    pub fn as_array(&self) -> (r: Option<&Vec<Spanned<Value>>>)
        ensures
            match *self {
                Value::Array(a) => r == Some(&a),
                _ => r is None,
            },
    {
        match self {
            Value::Array(v) => Some(v),
            _ => None,
        }
    }

    /// The entries, if this is an object.
    pub fn as_object(&self) -> (r: Option<&ObjectMap<Spanned<String>, Spanned<Value>>>)
        ensures
            match *self {
                Value::Object(o) => r == Some(&o),
                _ => r is None,
            },
    {
        match self {
            Value::Object(v) => Some(v),
            _ => None,
        }
    }

    /// The boolean, for update, if this is one.
    pub fn as_bool_mut(&mut self) -> (r: Option<&mut bool>)
        ensures
            match *old(self) {
                Value::Bool(b) => r is Some && *r->Some_0 == b && *final(self) == Value::Bool(
                    *final(r->Some_0),
                ),
                _ => r is None && *final(self) == *old(self),
            },
    {
        match self {
            Value::Bool(v) => Some(v),
            _ => None,
        }
    }

    /// The number, for update, if this is one.
    pub fn as_number_mut(&mut self) -> (r: Option<&mut serde_json::Number>)
        ensures
            match *old(self) {
                Value::Number(n) => r is Some && *r->Some_0 == n && *final(self) == Value::Number(
                    *final(r->Some_0),
                ),
                _ => r is None && *final(self) == *old(self),
            },
    {
        match self {
            Value::Number(v) => Some(v),
            _ => None,
        }
    }

    /// The string, for update, if this is one.
    pub fn as_string_mut(&mut self) -> (r: Option<&mut String>)
        ensures
            match *old(self) {
                Value::String(s) => r is Some && *r->Some_0 == s && *final(self) == Value::String(
                    *final(r->Some_0),
                ),
                _ => r is None && *final(self) == *old(self),
            },
    {
        match self {
            Value::String(v) => Some(v),
            _ => None,
        }
    }

    /// The elements, for update, if this is an array.
    pub fn as_array_mut(&mut self) -> (r: Option<&mut Vec<Spanned<Value>>>)
        ensures
            match *old(self) {
                Value::Array(a) => r is Some && *r->Some_0 == a && *final(self) == Value::Array(
                    *final(r->Some_0),
                ),
                _ => r is None && *final(self) == *old(self),
            },
    {
        match self {
            Value::Array(v) => Some(v),
            _ => None,
        }
    }

    /// The entries, for update, if this is an object.
    pub fn as_object_mut(&mut self) -> (r: Option<&mut ObjectMap<Spanned<String>, Spanned<Value>>>)
        ensures
            match *old(self) {
                Value::Object(o) => r is Some && *r->Some_0 == o && *final(self) == Value::Object(
                    *final(r->Some_0),
                ),
                _ => r is None && *final(self) == *old(self),
            },
    {
        match self {
            Value::Object(v) => Some(v),
            _ => None,
        }
    }

    /// `Ok(())` if this is `null`, else the value back.
    pub fn into_null(self) -> (r: Result<(), Self>)
        ensures
            match self {
                Value::Null => r is Ok,
                _ => r == Err::<(), Value>(self),
            },
    {
        match self {
            Value::Null => Ok(()),
            o => Err(o),
        }
    }

    /// The boolean if this is one, else the value back.
    pub fn into_bool(self) -> (r: Result<bool, Self>)
        ensures
            match self {
                Value::Bool(b) => r == Ok::<bool, Value>(b),
                _ => r == Err::<bool, Value>(self),
            },
    {
        match self {
            Value::Bool(v) => Ok(v),
            o => Err(o),
        }
    }

    /// The number if this is one, else the value back.
    pub fn into_number(self) -> (r: Result<serde_json::Number, Self>)
        ensures
            match self {
                Value::Number(n) => r == Ok::<serde_json::Number, Value>(n),
                _ => r == Err::<serde_json::Number, Value>(self),
            },
    {
        match self {
            Value::Number(v) => Ok(v),
            o => Err(o),
        }
    }

    /// The string if this is one, else the value back.
    pub fn into_string(self) -> (r: Result<String, Self>)
        ensures
            match self {
                Value::String(s) => r == Ok::<String, Value>(s),
                _ => r == Err::<String, Value>(self),
            },
    {
        match self {
            Value::String(v) => Ok(v),
            o => Err(o),
        }
    }

    /// The elements if this is an array, else the value back.
    pub fn into_array(self) -> (r: Result<Vec<Spanned<Value>>, Self>)
        ensures
            match self {
                Value::Array(a) => r == Ok::<Vec<Spanned<Value>>, Value>(a),
                _ => r == Err::<Vec<Spanned<Value>>, Value>(self),
            },
    {
        match self {
            Value::Array(v) => Ok(v),
            o => Err(o),
        }
    }

    /// The entries if this is an object, else the value back.
    pub fn into_object(self) -> (r: Result<ObjectMap<Spanned<String>, Spanned<Value>>, Self>)
        ensures
            match self {
                Value::Object(o) => r == Ok::<ObjectMap<Spanned<String>, Spanned<Value>>, Value>(o),
                _ => r == Err::<ObjectMap<Spanned<String>, Spanned<Value>>, Value>(self),
            },
    {
        match self {
            Value::Object(v) => Ok(v),
            o => Err(o),
        }
    }

    /// Child texts joined as a container shows them: each after `" "` or
    /// `", "`, with a closing `" "` when there are any.
    pub fn list_text(texts: &Vec<String>) -> (r: String)
        ensures
            r@ == joined(texts@.map_values(|t: String| t@), 0),
    {
        let ghost t = texts@.map_values(|t: String| t@);
        let mut out = String::new();
        let mut i: usize = 0;
        while i < texts.len()
            invariant
                i <= texts@.len(),
                t == texts@.map_values(|t: String| t@),
                out@ + joined(t, i as int) == joined(t, 0),
            decreases texts@.len() - i,
        {
            let ghost before = out@;
            if i == 0 {
                out.append(" ");
            } else {
                out.append(", ");
            }
            out.append(texts[i].as_str());
            assert(out@ + joined(t, i + 1) =~= before + joined(t, i as int));
            i = i + 1;
        }
        if texts.len() > 0 {
            out.append(" ");
        }
        assert(out@ =~= joined(t, 0));
        out
    }

    /// The debug text of an object; see [`debug_text`].
    pub fn object_debug_text(o: &ObjectMap<Spanned<String>, Spanned<Value>>) -> (r: String)
        ensures
            r@ == debug_text(Value::Object(*o)),
        decreases *o,
    {
        let mut out = String::from_str("{");
        if o.len() > SHOWN_CHILDREN {
            out.append("...");
        } else {
            let n = o.len();
            let mut texts: Vec<String> = Vec::new();
            let mut i: usize = 0;
            while i < n
                invariant
                    i <= n == o.entries().len(),
                    texts@.len() == i,
                    forall|j: int| 0 <= j < i ==> (#[trigger] texts@[j])@ == entry_text(o.entries()[j]),
                decreases n - i,
            {
                let (k, v) = o.entry_at(i);
                let mut text = write_quoted(k.get_ref().as_str());
                text.append(": ");
                proof {
                    lemma_entries_decrease(*o);
                    lemma_value_decreases(o.entries()[i as int].1);
                    assert(decreases_to!(o.entries()[i as int] => o.entries()[i as int].1));
                }
                let child = v.get_ref().debug_text();
                text.append(child.as_str());
                texts.push(text);
                i = i + 1;
            }
            let inner = Value::list_text(&texts);
            proof {
                lemma_entries_joined(o.entries(), texts@.map_values(|t: String| t@), 0);
            }
            out.append(inner.as_str());
        }
        out.append("}");
        out
    }

    /// The debug text of this value; see [`debug_text`].
    pub fn debug_text(&self) -> (r: String)
        ensures
            r@ == debug_text(*self),
        decreases *self,
    {
        match self {
            Value::Null => String::from_str("null"),
            Value::Bool(b) => if *b {
                String::from_str("true")
            } else {
                String::from_str("false")
            },
            Value::Number(n) => write_number(n),
            Value::String(s) => write_quoted(s.as_str()),
            Value::Array(a) => {
                let mut out = String::from_str("[");
                if a.len() > SHOWN_CHILDREN {
                    out.append("...");
                } else {
                    let mut texts: Vec<String> = Vec::new();
                    let mut i: usize = 0;
                    while i < a.len()
                        invariant
                            i <= a@.len(),
                            *self == Value::Array(*a),
                            texts@.len() == i,
                            forall|j: int|
                                0 <= j < i ==> (#[trigger] texts@[j])@ == debug_text(a@[j].spec_value()),
                        decreases a@.len() - i,
                    {
                        proof {
                            lemma_element_decreases(*self, *a, i as int);
                        }
                        texts.push(a[i].get_ref().debug_text());
                        i = i + 1;
                    }
                    let inner = Value::list_text(&texts);
                    proof {
                        lemma_items_joined(a@, texts@.map_values(|t: String| t@), 0);
                    }
                    out.append(inner.as_str());
                }
                out.append("]");
                out
            },
            Value::Object(o) => {
                proof {
                    lemma_object_decreases(*self, *o);
                }
                Value::object_debug_text(o)
            },
        }
    }

    /// A human-readable name of this value's type.
    pub fn type_str(&self) -> (r: &'static str)
        ensures
            r@ == (match *self {
                Value::Null => "null"@,
                Value::Bool(_) => "boolean"@,
                Value::Number(_) => "number"@,
                Value::String(_) => "string"@,
                Value::Array(_) => "array"@,
                Value::Object(_) => "object"@,
            }),
    {
        match self {
            Value::Null => "null",
            Value::Bool(_) => "boolean",
            Value::Number(_) => "number",
            Value::String(_) => "string",
            Value::Array(_) => "array",
            Value::Object(_) => "object",
        }
    }
}

} // verus!
