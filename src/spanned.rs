//! [`Spanned`] and its aliases for the shapes of JSON values.
use crate::map::ObjectMap;
use crate::pointer::{index_value, parse_index, pointer_tokens, tokens_of};
use vstd::prelude::*;
use vstd::std_specs::cmp::{PartialEqSpec, PartialOrdSpec};
use vstd::string::StringSliceAdditionalSpecFns;

verus! {

/// A value with the byte range `start .. end` of the input it was read from.
#[derive(Clone, Debug)]
pub struct Spanned<V> {
    start: usize,
    end: usize,
    value: V,
}

/// Whether a value whose first byte is `c` ends with its own closing byte
/// (arrays, objects, strings, `null`, `true`, `false`). A number has no
/// closing byte: the parser reads one byte past it to find its end.
pub open spec fn is_delimited(c: char) -> bool {
    c == '[' || c == '{' || c == 'n' || c == 't' || c == 'f' || c == '"'
}

/// The end of a value's span: the read cursor after the value was decoded,
/// less the one byte of look-ahead that a value without a closing byte needs
/// to find its end. Where the input ran out (`at_end`) no byte was read
/// ahead and nothing is taken off.
pub open spec fn span_end(start_ch: char, cursor: nat, at_end: bool) -> nat {
    if is_delimited(start_ch) || at_end {
        cursor
    } else if cursor > 0 {
        (cursor - 1) as nat
    } else {
        0
    }
}

impl<V> Spanned<V> {
    /// The start offset (inclusive).
    pub closed spec fn spec_start(&self) -> usize {
        self.start
    }

    /// The end offset (exclusive).
    pub closed spec fn spec_end(&self) -> usize {
        self.end
    }

    /// The value.
    pub closed spec fn spec_value(&self) -> V {
        self.value
    }

    /// `value` with the span `start .. end`.
    pub fn new(start: usize, end: usize, value: V) -> (r: Spanned<V>)
        ensures
            r.spec_start() == start,
            r.spec_end() == end,
            r.spec_value() == value,
    {
        Spanned { start, end, value }
    }

    /// `value` with the span read off a tracker: `start` is the token start
    /// before the value was decoded, `end` the read cursor after, `at_end`
    /// whether the input had run out by then. With no tracker the span is
    /// `0 .. 0`.
    pub fn capture(start: Option<(usize, char)>, end: Option<usize>, at_end: bool, value: V) -> (r: Spanned<V>)
        ensures
            r.spec_value() == value,
            r.spec_start() == (match start {
                Some(s) => s.0,
                None => 0,
            }),
            r.spec_end() == span_end(
                match start {
                    Some(s) => s.1,
                    None => '\0',
                },
                match end {
                    Some(e) => e as nat,
                    None => 0,
                },
                at_end,
            ),
    {
        let (start, start_ch) = match start {
            Some(s) => s,
            None => (0, '\0'),
        };
        let cursor = match end {
            Some(e) => e,
            None => 0,
        };
        let delimited = start_ch == '[' || start_ch == '{' || start_ch == 'n' || start_ch == 't'
            || start_ch == 'f' || start_ch == '"';
        let end = if delimited || at_end {
            cursor
        } else if cursor > 0 {
            cursor - 1
        } else {
            0
        };
        Spanned { start, end, value }
    }

    /// The start offset (inclusive); `0` unless read from an input.
    pub fn start(&self) -> (r: usize)
        ensures
            r == self.spec_start(),
    {
        self.start
    }

    /// The end offset (exclusive); `0` unless read from an input.
    pub fn end(&self) -> (r: usize)
        ensures
            r == self.spec_end(),
    {
        self.end
    }

    /// The span as a `(start, end)` pair.
    pub fn span(&self) -> (r: (usize, usize))
        ensures
            r == (self.spec_start(), self.spec_end()),
    {
        (self.start, self.end)
    }

    /// The span as a range `start .. end`.
    pub fn range(&self) -> (r: std::ops::Range<usize>)
        ensures
            r.start == self.spec_start(),
            r.end == self.spec_end(),
    {
        self.start..self.end
    }

    /// The value, without its span.
    pub fn into_inner(self) -> (r: V)
        ensures
            r == self.spec_value(),
    {
        self.value
    }

    /// The value, by reference.
    pub fn get_ref(&self) -> (r: &V)
        ensures
            *r == self.spec_value(),
    {
        &self.value
    }

    /// The value, for update; the span stays as it is.
    pub fn get_mut(&mut self) -> (r: &mut V)
        ensures
            *r == old(self).spec_value(),
            final(self).spec_start() == old(self).spec_start(),
            final(self).spec_end() == old(self).spec_end(),
            final(self).spec_value() == *final(r),
    {
        &mut self.value
    }
}

impl<V> std::ops::Deref for Spanned<V> {
    type Target = V;

    fn deref(&self) -> (r: &V)
        ensures
            *r == self.spec_value(),
    {
        &self.value
    }
}

/// A spanned value is larger than the value it holds.
pub proof fn lemma_value_decreases<V>(s: Spanned<V>)
    ensures
        decreases_to!(s => s.spec_value()),
{
}

impl<V> From<V> for Spanned<V> {
    /// `v` with the empty span `0 .. 0`, for a value not read from an input.
    fn from(v: V) -> (r: Spanned<V>)
        ensures
            r.spec_start() == 0,
            r.spec_end() == 0,
            r.spec_value() == v,
    {
        Spanned { start: 0, end: 0, value: v }
    }
}

impl<V> vstd::std_specs::convert::FromSpecImpl<V> for Spanned<V> {
    open spec fn obeys_from_spec() -> bool {
        true
    }

    closed spec fn from_spec(v: V) -> Spanned<V> {
        Spanned { start: 0, end: 0, value: v }
    }
}

/// What `Spanned::from` builds: the value with the empty span.
pub proof fn lemma_from_spec<V>(v: V)
    ensures
        <Spanned<V> as vstd::std_specs::convert::FromSpec<V>>::from_spec(v).spec_start() == 0,
        <Spanned<V> as vstd::std_specs::convert::FromSpec<V>>::from_spec(v).spec_end() == 0,
        <Spanned<V> as vstd::std_specs::convert::FromSpec<V>>::from_spec(v).spec_value() == v,
{
}

/// Spanned values are equal when their values are: the span is where a
/// value was written, not part of what it is.
impl<V: PartialEq + PartialEqSpec> PartialEq for Spanned<V> {
    fn eq(&self, other: &Self) -> (r: bool) {
        self.value == other.value
    }
}

impl<V: Eq + PartialEqSpec> Eq for Spanned<V> {}

impl<V: PartialEq + PartialEqSpec> vstd::std_specs::cmp::PartialEqSpecImpl for Spanned<V> {
    open spec fn obeys_eq_spec() -> bool {
        V::obeys_eq_spec()
    }

    open spec fn eq_spec(&self, other: &Self) -> bool {
        self.spec_value().eq_spec(&other.spec_value())
    }
}

/// Spanned values are ordered as their values are.
impl<V: PartialOrd + PartialOrdSpec + PartialEqSpec> PartialOrd for Spanned<V> {
    fn partial_cmp(&self, other: &Self) -> (r: Option<std::cmp::Ordering>) {
        self.value.partial_cmp(&other.value)
    }
}

impl<V: PartialOrd + PartialOrdSpec + PartialEqSpec> vstd::std_specs::cmp::PartialOrdSpecImpl for Spanned<V> {
    open spec fn obeys_partial_cmp_spec() -> bool {
        V::obeys_partial_cmp_spec()
    }

    open spec fn partial_cmp_spec(&self, other: &Self) -> Option<std::cmp::Ordering> {
        self.spec_value().partial_cmp_spec(&other.spec_value())
    }
}

/// The child of `v` under reference token `tok`: an object's value under
/// that key, or an array's element at that index.
pub open spec fn child(v: Value, tok: Seq<u8>) -> Option<Value> {
    match v.spec_value() {
        crate::value::Value::Object(o) => o.spec_get(tok),
        crate::value::Value::Array(a) => match index_value(tok) {
            Some(n) => if n < a@.len() {
                Some(a@[n as int])
            } else {
                None
            },
            None => None,
        },
        _ => None,
    }
}

/// The value reached from `v` by following `toks` in turn.
pub open spec fn lookup(v: Value, toks: Seq<Seq<u8>>) -> Option<Value>
    decreases toks.len(),
{
    if toks.len() == 0 {
        Some(v)
    } else {
        match child(v, toks[0]) {
            Some(c) => lookup(c, toks.drop_first()),
            None => None,
        }
    }
}

/// The value that JSON Pointer `path` selects in `v`: `v` itself for the
/// empty pointer, nothing for a pointer that does not start with `/`.
pub open spec fn resolve(v: Value, path: Seq<u8>) -> Option<Value> {
    if path.len() == 0 {
        Some(v)
    } else if path[0] != 0x2f {
        None
    } else {
        lookup(v, pointer_tokens(path))
    }
}

/// `after` is `before` with the value that `toks` leads to replaced by
/// `target`: every span, key and other child stays as it was.
pub open spec fn replaced_at(before: Value, after: Value, toks: Seq<Seq<u8>>, target: Value) -> bool
    decreases toks.len(),
{
    if toks.len() == 0 {
        after == target
    } else {
        &&& after.spec_start() == before.spec_start()
        &&& after.spec_end() == before.spec_end()
        &&& match (before.spec_value(), after.spec_value()) {
            (crate::value::Value::Object(o1), crate::value::Value::Object(o2)) => {
                let i = o1.index(toks[0]);
                &&& 0 <= i < o1.entries().len()
                &&& o2.entries().len() == o1.entries().len()
                &&& o2.entries() == o1.entries().update(i, (o1.entries()[i].0, o2.entries()[i].1))
                &&& replaced_at(o1.entries()[i].1, o2.entries()[i].1, toks.drop_first(), target)
            },
            (crate::value::Value::Array(a1), crate::value::Value::Array(a2)) => match index_value(
                toks[0],
            ) {
                Some(n) => {
                    &&& n < a1@.len()
                    &&& a2@.len() == a1@.len()
                    &&& a2@ == a1@.update(n as int, a2@[n as int])
                    &&& replaced_at(a1@[n as int], a2@[n as int], toks.drop_first(), target)
                },
                None => false,
            },
            _ => false,
        }
    }
}

/// `after` is what pointer `path` leaves of `before` when the value it
/// selects becomes `target`.
pub open spec fn replaced(before: Value, after: Value, path: Seq<u8>, target: Value) -> bool {
    if path.len() == 0 {
        after == target
    } else {
        replaced_at(before, after, pointer_tokens(path), target)
    }
}

impl Value {
    /// `null` with this span, if this is `null`.
    pub fn as_span_null(&self) -> (r: Option<Null>)
        ensures
            match self.spec_value() {
                crate::value::Value::Null => r is Some && r->Some_0.spec_start() == self.spec_start()
                    && r->Some_0.spec_end() == self.spec_end(),
                _ => r is None,
            },
    {
        match self.value {
            crate::value::Value::Null => Some(Spanned { start: self.start, end: self.end, value: () }),
            _ => None,
        }
    }

    /// The boolean with this span, if this is one.
    pub fn as_span_bool(&self) -> (r: Option<Bool>)
        ensures
            match self.spec_value() {
                crate::value::Value::Bool(b) => r is Some && r->Some_0.spec_start() == self.spec_start()
                    && r->Some_0.spec_end() == self.spec_end() && r->Some_0.spec_value() == b,
                _ => r is None,
            },
    {
        match self.value {
            crate::value::Value::Bool(v) => Some(Spanned { start: self.start, end: self.end, value: v }),
            _ => None,
        }
    }

    /// The number with this span, if this is one.
    pub fn as_span_number(&self) -> (r: Option<Spanned<&serde_json::Number>>)
        ensures
            match self.spec_value() {
                crate::value::Value::Number(n) => r is Some && r->Some_0.spec_start() == self.spec_start()
                    && r->Some_0.spec_end() == self.spec_end() && *r->Some_0.spec_value() == n,
                _ => r is None,
            },
    {
        match &self.value {
            crate::value::Value::Number(v) => Some(Spanned { start: self.start, end: self.end, value: v }),
            _ => None,
        }
    }

    /// The string with this span, if this is one.
    pub fn as_span_string(&self) -> (r: Option<Str>)
        ensures
            match self.spec_value() {
                crate::value::Value::String(v) => r is Some && r->Some_0.spec_start() == self.spec_start()
                    && r->Some_0.spec_end() == self.spec_end() && r->Some_0.spec_value()@ == v@,
                _ => r is None,
            },
    {
        match &self.value {
            crate::value::Value::String(v) => Some(
                Spanned { start: self.start, end: self.end, value: v.as_str() },
            ),
            _ => None,
        }
    }

    /// The elements with this span, if this is an array.
    pub fn as_span_array(&self) -> (r: Option<Span>)
        ensures
            match self.spec_value() {
                crate::value::Value::Array(v) => r is Some && r->Some_0.spec_start() == self.spec_start()
                    && r->Some_0.spec_end() == self.spec_end() && r->Some_0.spec_value()@ == v@,
                _ => r is None,
            },
    {
        match &self.value {
            crate::value::Value::Array(v) => Some(
                Spanned { start: self.start, end: self.end, value: v.as_slice() },
            ),
            _ => None,
        }
    }

    /// The entries with this span, if this is an object.
    pub fn as_span_object(&self) -> (r: Option<Obj>)
        ensures
            match self.spec_value() {
                crate::value::Value::Object(v) => r is Some && r->Some_0.spec_start() == self.spec_start()
                    && r->Some_0.spec_end() == self.spec_end() && *r->Some_0.spec_value() == v,
                _ => r is None,
            },
    {
        match &self.value {
            crate::value::Value::Object(v) => Some(Spanned { start: self.start, end: self.end, value: v }),
            _ => None,
        }
    }

    /// `null` with this span if this is `null`, else the value back.
    pub fn into_span_null(self) -> (r: Result<Null, Self>)
        ensures
            match self.spec_value() {
                crate::value::Value::Null => r is Ok && r->Ok_0.spec_start() == self.spec_start()
                    && r->Ok_0.spec_end() == self.spec_end(),
                _ => r == Err::<Null, Value>(self),
            },
    {
        let Spanned { start, end, value } = self;
        match value {
            crate::value::Value::Null => Ok(Spanned { start, end, value: () }),
            value => Err(Spanned { start, end, value }),
        }
    }

    /// The boolean with this span if this is one, else the value back.
    pub fn into_span_bool(self) -> (r: Result<Bool, Self>)
        ensures
            match self.spec_value() {
                crate::value::Value::Bool(b) => r is Ok && r->Ok_0.spec_start() == self.spec_start()
                    && r->Ok_0.spec_end() == self.spec_end() && r->Ok_0.spec_value() == b,
                _ => r == Err::<Bool, Value>(self),
            },
    {
        let Spanned { start, end, value } = self;
        match value {
            crate::value::Value::Bool(v) => Ok(Spanned { start, end, value: v }),
            value => Err(Spanned { start, end, value }),
        }
    }

    /// The number with this span if this is one, else the value back.
    pub fn into_span_number(self) -> (r: Result<Spanned<serde_json::Number>, Self>)
        ensures
            match self.spec_value() {
                crate::value::Value::Number(n) => r is Ok && r->Ok_0.spec_start() == self.spec_start()
                    && r->Ok_0.spec_end() == self.spec_end() && r->Ok_0.spec_value() == n,
                _ => r == Err::<Spanned<serde_json::Number>, Value>(self),
            },
    {
        let Spanned { start, end, value } = self;
        match value {
            crate::value::Value::Number(v) => Ok(Spanned { start, end, value: v }),
            value => Err(Spanned { start, end, value }),
        }
    }

    /// The string with this span if this is one, else the value back.
    pub fn into_span_string(self) -> (r: Result<String, Self>)
        ensures
            match self.spec_value() {
                crate::value::Value::String(v) => r is Ok && r->Ok_0.spec_start() == self.spec_start()
                    && r->Ok_0.spec_end() == self.spec_end() && r->Ok_0.spec_value() == v,
                _ => r == Err::<String, Value>(self),
            },
    {
        let Spanned { start, end, value } = self;
        match value {
            crate::value::Value::String(v) => Ok(Spanned { start, end, value: v }),
            value => Err(Spanned { start, end, value }),
        }
    }

    /// The elements with this span if this is an array, else the value back.
    pub fn into_span_array(self) -> (r: Result<Array, Self>)
        ensures
            match self.spec_value() {
                crate::value::Value::Array(v) => r is Ok && r->Ok_0.spec_start() == self.spec_start()
                    && r->Ok_0.spec_end() == self.spec_end() && r->Ok_0.spec_value() == v,
                _ => r == Err::<Array, Value>(self),
            },
    {
        let Spanned { start, end, value } = self;
        match value {
            crate::value::Value::Array(v) => Ok(Spanned { start, end, value: v }),
            value => Err(Spanned { start, end, value }),
        }
    }

    /// The entries with this span if this is an object, else the value back.
    pub fn into_span_object(self) -> (r: Result<Object, Self>)
        ensures
            match self.spec_value() {
                crate::value::Value::Object(v) => r is Ok && r->Ok_0.spec_start() == self.spec_start()
                    && r->Ok_0.spec_end() == self.spec_end() && r->Ok_0.spec_value() == v,
                _ => r == Err::<Object, Value>(self),
            },
    {
        let Spanned { start, end, value } = self;
        match value {
            crate::value::Value::Object(v) => Ok(Spanned { start, end, value: v }),
            value => Err(Spanned { start, end, value }),
        }
    }

    fn child(&self, tok: &[u8]) -> (r: Option<&Value>)
        ensures
            match r {
                Some(c) => child(*self, tok@) == Some(*c),
                None => child(*self, tok@) is None,
            },
    {
        match &self.value {
            crate::value::Value::Object(o) => o.get_by_bytes(tok),
            crate::value::Value::Array(a) => match parse_index(tok) {
                Some(n) => if n < a.len() {
                    Some(&a[n])
                } else {
                    None
                },
                None => None,
            },
            _ => None,
        }
    }

    /// Looks up a value by JSON Pointer (RFC 6901).
    pub fn pointer(&self, path: &str) -> (r: Option<&Value>)
        ensures
            match r {
                Some(x) => resolve(*self, path.spec_bytes()) == Some(*x),
                None => resolve(*self, path.spec_bytes()) is None,
            },
    {
        let bytes = path.as_bytes();
        if bytes.len() == 0 {
            return Some(self);
        }
        if bytes[0] != 0x2f {
            return None;
        }
        let toks = tokens_of(bytes);
        let ghost ts = pointer_tokens(bytes@);
        assert(toks@.map_values(|v: Vec<u8>| v@) == ts);
        let mut current = self;
        let mut i: usize = 0;
        assert(ts.skip(0) =~= ts);
        while i < toks.len()
            invariant
                i <= toks@.len(),
                resolve(*self, path.spec_bytes()) == lookup(*self, ts),
                ts.len() == toks@.len(),
                forall|j: int| 0 <= j < ts.len() ==> ts[j] == #[trigger] toks@[j]@,
                lookup(*current, ts.skip(i as int)) == lookup(*self, ts),
            decreases toks@.len() - i,
        {
            assert(ts.skip(i as int)[0] == ts[i as int]);
            assert(ts.skip(i as int).drop_first() =~= ts.skip(i + 1));
            match current.child(toks[i].as_slice()) {
                Some(c) => {
                    current = c;
                },
                None => {
                    return None;
                },
            }
            i = i + 1;
        }
        assert(ts.skip(i as int) =~= Seq::<Seq<u8>>::empty());
        Some(current)
    }

    fn pointer_mut_from(&mut self, toks: &Vec<Vec<u8>>, i: usize) -> (r: Option<&mut Value>)
        requires
            i <= toks@.len(),
            lookup(*old(self), toks@.skip(i as int).map_values(|v: Vec<u8>| v@)) is Some,
        ensures
            r is Some,
            lookup(*old(self), toks@.skip(i as int).map_values(|v: Vec<u8>| v@)) == Some(
                *r->Some_0,
            ),
            replaced_at(
                *old(self),
                *final(self),
                toks@.skip(i as int).map_values(|v: Vec<u8>| v@),
                *final(r->Some_0),
            ),
        decreases toks@.len() - i,
    {
        let ghost ts = toks@.skip(i as int).map_values(|v: Vec<u8>| v@);
        if i == toks.len() {
            assert(ts =~= Seq::<Seq<u8>>::empty());
            return Some(self);
        }
        assert(ts[0] == toks@[i as int]@);
        assert(ts.drop_first() =~= toks@.skip(i + 1).map_values(|v: Vec<u8>| v@));
        let tok = toks[i].as_slice();
        match &mut self.value {
            crate::value::Value::Object(o) => match o.get_mut_by_bytes(tok) {
                Some(c) => c.pointer_mut_from(toks, i + 1),
                None => None,
            },
            crate::value::Value::Array(a) => match parse_index(tok) {
                Some(n) => if n < a.len() {
                    a[n].pointer_mut_from(toks, i + 1)
                } else {
                    None
                },
                None => None,
            },
            _ => None,
        }
    }

    /// Looks up a value by JSON Pointer (RFC 6901), for update.
    pub fn pointer_mut(&mut self, path: &str) -> (r: Option<&mut Value>)
        ensures
            match r {
                Some(x) => resolve(*old(self), path.spec_bytes()) == Some(*x) && replaced(
                    *old(self),
                    *final(self),
                    path.spec_bytes(),
                    *final(x),
                ),
                None => resolve(*old(self), path.spec_bytes()) is None && *final(self) == *old(self),
            },
    {
        let bytes = path.as_bytes();
        if bytes.len() == 0 {
            return Some(self);
        }
        if bytes[0] != 0x2f {
            return None;
        }
        if self.pointer(path).is_none() {
            return None;
        }
        let toks = tokens_of(bytes);
        assert(toks@.skip(0) =~= toks@);
        self.pointer_mut_from(&toks, 0)
    }
}

/// Any JSON value, with its span.
pub type Value = Spanned<crate::value::Value>;

/// `null`, with its span.
pub type Null = Spanned<()>;

/// `true` or `false`, with its span.
pub type Bool = Spanned<bool>;

/// A borrowed string, with its span.
pub type Str<'s> = Spanned<&'s str>;

/// A string, with its span.
pub type String = Spanned<std::string::String>;

/// A borrowed object, with its span.
pub type Obj<'o> = Spanned<&'o ObjectMap<String, Value>>;

/// An object, with its span.
pub type Object = Spanned<ObjectMap<String, Value>>;

/// A borrowed array, with its span.
pub type Span<'s> = Spanned<&'s [Value]>;

/// An array, with its span.
pub type Array = Spanned<Vec<Value>>;

} // verus!
