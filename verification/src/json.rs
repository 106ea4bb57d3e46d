//! JSON values: building them, looking into them, and writing them as text.

use vstd::prelude::*;

pub mod readback;
pub mod reading;

use crate::numbers::{dec, digit_char, push_dec};
use crate::text::{chars_of, owned, push_text, str_eq};

verus! {

/// A JSON value. Whole numbers are kept as such; other numbers as they were written.
pub enum Json {
    Null,
    Bool(bool),
    /// A whole number.
    Num(u64),
    /// A whole number below zero, by its magnitude.
    Neg(u64),
    /// Another number, as text.
    Lit(String),
    Str(String),
    Arr(Vec<Json>),
    /// The members of an object, in order.
    Obj(Vec<(String, Json)>),
}

/// What a JSON value says.
pub enum Value {
    Null,
    Bool(bool),
    Num(int),
    Lit(Seq<char>),
    Str(Seq<char>),
    Arr(Seq<Value>),
    Obj(Seq<(Seq<char>, Value)>),
}

impl View for Json {
    type V = Value;

    open spec fn view(&self) -> Value {
        value_of(*self)
    }
}

/// What a JSON value says.
pub open spec fn value_of(j: Json) -> Value
    decreases j,
{
    match j {
        Json::Null => Value::Null,
        Json::Bool(b) => Value::Bool(b),
        Json::Num(n) => Value::Num(n as int),
        Json::Neg(n) => Value::Num(-n),
        Json::Lit(t) => Value::Lit(t@),
        Json::Str(t) => Value::Str(t@),
        Json::Arr(v) => Value::Arr(
            Seq::new(
                v@.len(),
                |i: int|
                    if 0 <= i < v@.len() {
                        value_of(v@[i])
                    } else {
                        Value::Null
                    },
            ),
        ),
        Json::Obj(v) => Value::Obj(
            Seq::new(
                v@.len(),
                |i: int|
                    if 0 <= i < v@.len() {
                        (v@[i].0@, value_of(v@[i].1))
                    } else {
                        (Seq::empty(), Value::Null)
                    },
            ),
        ),
    }
}

/// The values of a list.
pub open spec fn values(v: Seq<Json>) -> Seq<Value> {
    v.map_values(|j: Json| j@)
}

/// The members of an object.
pub open spec fn members(v: Seq<(String, Json)>) -> Seq<(Seq<char>, Value)> {
    v.map_values(|m: (String, Json)| (m.0@, m.1@))
}

proof fn lemma_arr(v: Vec<Json>)
    ensures
        (Json::Arr(v))@ == Value::Arr(values(v@)),
{
    assert((Json::Arr(v))@->Arr_0 =~= values(v@));
}

proof fn lemma_obj(v: Vec<(String, Json)>)
    ensures
        (Json::Obj(v))@ == Value::Obj(members(v@)),
{
    assert((Json::Obj(v))@->Obj_0 =~= members(v@));
}

// ---------------------------------------------------------------------------
// Building

/// A text.
pub fn s(t: &str) -> (r: Json)
    ensures
        r@ == Value::Str(t@),
{
    Json::Str(owned(t))
}

/// A list.
pub fn arr(v: Vec<Json>) -> (r: Json)
    ensures
        r@ == Value::Arr(values(v@)),
{
    proof {
        lemma_arr(v);
    }
    Json::Arr(v)
}

/// An object.
pub fn obj(v: Vec<(String, Json)>) -> (r: Json)
    ensures
        r@ == Value::Obj(members(v@)),
{
    proof {
        lemma_obj(v);
    }
    Json::Obj(v)
}

/// An object to which members are added.
pub struct Fields {
    items: Vec<(String, Json)>,
}

impl View for Fields {
    type V = Seq<(Seq<char>, Value)>;

    closed spec fn view(&self) -> Seq<(Seq<char>, Value)> {
        members(self.items@)
    }
}

impl Fields {
    /// No members.
    pub fn new() -> (r: Fields)
        ensures
            r@ == Seq::<(Seq<char>, Value)>::empty(),
    {
        let r = Fields { items: Vec::new() };
        assert(r@ =~= Seq::empty());
        r
    }

    /// Add a member.
    pub fn put(&mut self, key: &str, value: Json)
        ensures
            final(self)@ == old(self)@.push((key@, value@)),
    {
        let ghost m = (key@, value@);
        self.items.push((owned(key), value));
        assert(self@ =~= old(self)@.push(m));
    }

    /// Add a text.
    pub fn text(&mut self, key: &str, value: &str)
        ensures
            final(self)@ == old(self)@.push((key@, Value::Str(value@))),
    {
        self.put(key, s(value));
    }

    /// Add a number.
    pub fn num(&mut self, key: &str, value: u64)
        ensures
            final(self)@ == old(self)@.push((key@, Value::Num(value as int))),
    {
        self.put(key, Json::Num(value));
    }

    /// Add a flag.
    pub fn flag(&mut self, key: &str, value: bool)
        ensures
            final(self)@ == old(self)@.push((key@, Value::Bool(value))),
    {
        self.put(key, Json::Bool(value));
    }

    /// The object.
    pub fn done(self) -> (r: Json)
        ensures
            r@ == Value::Obj(self@),
    {
        obj(self.items)
    }
}

/// A list to which values are added.
pub struct Items {
    items: Vec<Json>,
}

impl View for Items {
    type V = Seq<Value>;

    closed spec fn view(&self) -> Seq<Value> {
        values(self.items@)
    }
}

impl Items {
    /// No values.
    pub fn new() -> (r: Items)
        ensures
            r@ == Seq::<Value>::empty(),
    {
        let r = Items { items: Vec::new() };
        assert(r@ =~= Seq::empty());
        r
    }

    /// Add a value.
    pub fn put(&mut self, value: Json)
        ensures
            final(self)@ == old(self)@.push(value@),
    {
        let ghost m = value@;
        self.items.push(value);
        assert(self@ =~= old(self)@.push(m));
    }

    /// How many values there are.
    pub fn len(&self) -> (r: usize)
        ensures
            r == self@.len(),
    {
        self.items.len()
    }

    /// The list.
    pub fn done(self) -> (r: Json)
        ensures
            r@ == Value::Arr(self@),
    {
        arr(self.items)
    }
}

// ---------------------------------------------------------------------------
// Looking into values

/// Index of the first member with a name, from the `i`-th on.
pub open spec fn member_at(fs: Seq<(Seq<char>, Value)>, key: Seq<char>, i: int) -> Option<int>
    decreases fs.len() - i,
{
    if i >= fs.len() {
        None
    } else if fs[i].0 == key {
        Some(i)
    } else {
        member_at(fs, key, i + 1)
    }
}

/// The first member of an object with a name; other values have no members.
pub open spec fn member(v: Value, key: Seq<char>) -> Option<Value> {
    match v {
        Value::Obj(fs) => match member_at(fs, key, 0) {
            Some(i) => Some(fs[i].1),
            None => None,
        },
        _ => None,
    }
}

/// The value of an optional reference.
pub open spec fn seen(r: Option<&Json>) -> Option<Value> {
    match r {
        Some(j) => Some(j@),
        None => None,
    }
}

/// The text that a value is.
pub open spec fn text_in(v: Option<Value>) -> Option<Seq<char>> {
    match v {
        Some(Value::Str(t)) => Some(t),
        _ => None,
    }
}

/// The flag that a value is.
pub open spec fn flag_in(v: Option<Value>) -> Option<bool> {
    match v {
        Some(Value::Bool(b)) => Some(b),
        _ => None,
    }
}

/// The number from 0 to `u64::MAX` that a value is.
pub open spec fn num_in(v: Option<Value>) -> Option<u64> {
    match v {
        Some(Value::Num(n)) => if 0 <= n <= u64::MAX {
            Some(n as u64)
        } else {
            None
        },
        _ => None,
    }
}

/// The list that a value is.
pub open spec fn list_in(v: Option<Value>) -> Option<Seq<Value>> {
    match v {
        Some(Value::Arr(a)) => Some(a),
        _ => None,
    }
}

impl Json {
    /// The member of an object with a name.
    pub fn get(&self, key: &str) -> (r: Option<&Json>)
        ensures
            seen(r) == member(self@, key@),
    {
        match self {
            Json::Obj(v) => {
                proof {
                    lemma_obj(*v);
                }
                let ghost fs = members(v@);
                let mut i: usize = 0;
                while i < v.len()
                    invariant
                        i <= v@.len(),
                        fs == members(v@),
                        self@ == Value::Obj(fs),
                        member_at(fs, key@, 0) == member_at(fs, key@, i as int),
                    decreases v.len() - i,
                {
                    assert(fs[i as int] == (v@[i as int].0@, v@[i as int].1@));
                    if str_eq(v[i].0.as_str(), key) {
                        return Some(&v[i].1);
                    }
                    i = i + 1;
                }
                None
            },
            _ => None,
        }
    }

    /// The text that the value is.
    pub fn as_str(&self) -> (r: Option<&str>)
        ensures
            match r {
                Some(t) => text_in(Some(self@)) == Some(t@),
                None => text_in(Some(self@)) is None,
            },
    {
        match self {
            Json::Str(t) => Some(t.as_str()),
            _ => None,
        }
    }

    /// The flag that the value is.
    pub fn as_bool(&self) -> (r: Option<bool>)
        ensures
            r == flag_in(Some(self@)),
    {
        match self {
            Json::Bool(b) => Some(*b),
            _ => None,
        }
    }

    /// The whole number, not below zero, that the value is.
    pub fn as_u64(&self) -> (r: Option<u64>)
        ensures
            r == num_in(Some(self@)),
    {
        match self {
            Json::Num(n) => Some(*n),
            Json::Neg(n) => if *n == 0 {
                Some(0)
            } else {
                None
            },
            _ => None,
        }
    }

    /// The list that the value is.
    pub fn as_array(&self) -> (r: Option<&Vec<Json>>)
        ensures
            match r {
                Some(v) => list_in(Some(self@)) == Some(values(v@)),
                None => list_in(Some(self@)) is None,
            },
    {
        match self {
            Json::Arr(v) => {
                proof {
                    lemma_arr(*v);
                }
                Some(v)
            },
            _ => None,
        }
    }

    /// A copy of the value.
    pub fn copied(&self) -> (r: Json)
        ensures
            r@ == self@,
        decreases self,
    {
        match self {
            Json::Null => Json::Null,
            Json::Bool(b) => Json::Bool(*b),
            Json::Num(n) => Json::Num(*n),
            Json::Neg(n) => Json::Neg(*n),
            Json::Lit(t) => Json::Lit(owned(t.as_str())),
            Json::Str(t) => Json::Str(owned(t.as_str())),
            Json::Arr(v) => {
                let mut out: Vec<Json> = Vec::new();
                let mut i: usize = 0;
                while i < v.len()
                    invariant
                        i <= v@.len(),
                        *self == Json::Arr(*v),
                        out@.len() == i,
                        forall|k: int| 0 <= k < i ==> (#[trigger] out@[k])@ == v@[k]@,
                    decreases v.len() - i,
                {
                    assert(decreases_to!(*self => self->Arr_0));
                    assert(decreases_to!(v => v@));
                    assert(decreases_to!(v@ => v@[i as int]));
                    out.push(v[i].copied());
                    i = i + 1;
                }
                proof {
                    lemma_arr(*v);
                    assert(values(out@) =~= values(v@));
                }
                arr(out)
            },
            Json::Obj(v) => {
                let mut out: Vec<(String, Json)> = Vec::new();
                let mut i: usize = 0;
                while i < v.len()
                    invariant
                        i <= v@.len(),
                        *self == Json::Obj(*v),
                        out@.len() == i,
                        forall|k: int|
                            0 <= k < i ==> (#[trigger] out@[k]).0@ == v@[k].0@ && out@[k].1@
                                == v@[k].1@,
                    decreases v.len() - i,
                {
                    assert(decreases_to!(*self => self->Obj_0));
                    assert(decreases_to!(v => v@));
                    assert(decreases_to!(v@ => v@[i as int]));
                    assert(decreases_to!(v@[i as int] => v@[i as int].1));
                    let m = &v[i];
                    out.push((owned(m.0.as_str()), m.1.copied()));
                    i = i + 1;
                }
                proof {
                    lemma_obj(*v);
                    assert(members(out@) =~= members(v@));
                }
                obj(out)
            },
        }
    }
}

// ---------------------------------------------------------------------------
// Writing

/// A character as it stands in a text.
pub open spec fn escaped(c: char) -> Seq<char> {
    if c == '"' {
        seq!['\\', '"']
    } else if c == '\\' {
        seq!['\\', '\\']
    } else if c == '\n' {
        seq!['\\', 'n']
    } else if c == '\r' {
        seq!['\\', 'r']
    } else if c == '\t' {
        seq!['\\', 't']
    } else if (c as u32) < 0x20 {
        seq!['\\', 'u', '0', '0', digit_char((c as u32 / 16) as int), digit_char((c as u32 % 16) as int)]
    } else {
        seq![c]
    }
}

/// The first `n` characters of a text, escaped.
pub open spec fn escaped_text(t: Seq<char>, n: int) -> Seq<char>
    decreases n,
{
    if n <= 0 {
        Seq::empty()
    } else {
        escaped_text(t, n - 1) + escaped(t[n - 1])
    }
}

/// A text in quotes.
pub open spec fn quoted(t: Seq<char>) -> Seq<char> {
    seq!['"'] + escaped_text(t, t.len() as int) + seq!['"']
}

/// A whole number in decimal.
pub open spec fn int_text(n: int) -> Seq<char> {
    if n < 0 {
        seq!['-'] + dec(-n)
    } else {
        dec(n)
    }
}

/// A JSON value as text, without white space.
pub open spec fn json_text(v: Value) -> Seq<char>
    decreases v, 0int,
{
    match v {
        Value::Null => seq!['n', 'u', 'l', 'l'],
        Value::Bool(b) => if b {
            seq!['t', 'r', 'u', 'e']
        } else {
            seq!['f', 'a', 'l', 's', 'e']
        },
        Value::Num(n) => int_text(n),
        Value::Lit(t) => t,
        Value::Str(t) => quoted(t),
        Value::Arr(a) => seq!['['] + list_text(a, a.len() as int) + seq![']'],
        Value::Obj(fs) => seq!['{'] + members_text(fs, fs.len() as int) + seq!['}'],
    }
}

/// What stands between the `i`-th element and the one before it.
pub open spec fn comma(i: int) -> Seq<char> {
    if i > 0 {
        seq![',']
    } else {
        Seq::empty()
    }
}

/// The first `n` values of a list, with commas between them.
pub open spec fn list_text(a: Seq<Value>, n: int) -> Seq<char>
    decreases a, n,
{
    if n <= 0 || n > a.len() {
        Seq::empty()
    } else {
        list_text(a, n - 1) + comma(n - 1) + json_text(a[n - 1])
    }
}

/// The first `n` members of an object, with commas between them.
pub open spec fn members_text(fs: Seq<(Seq<char>, Value)>, n: int) -> Seq<char>
    decreases fs, n,
{
    if n <= 0 || n > fs.len() {
        Seq::empty()
    } else {
        members_text(fs, n - 1) + comma(n - 1) + quoted(fs[n - 1].0) + seq![':'] + json_text(
            fs[n - 1].1,
        )
    }
}

fn push_quoted(out: &mut String, t: &str)
    ensures
        final(out)@ == old(out)@ + quoted(t@),
{
    let ghost start = out@;
    let v = chars_of(t);
    out.push('"');
    let mut i: usize = 0;
    assert(out@ =~= start + seq!['"'] + escaped_text(t@, 0));
    while i < v.len()
        invariant
            v@ == t@,
            i <= v@.len(),
            out@ == start + seq!['"'] + escaped_text(t@, i as int),
        decreases v.len() - i,
    {
        let c = v[i];
        let ghost before = out@;
        if c == '"' {
            out.push('\\');
            out.push('"');
        } else if c == '\\' {
            out.push('\\');
            out.push('\\');
        } else if c == '\n' {
            out.push('\\');
            out.push('n');
        } else if c == '\r' {
            out.push('\\');
            out.push('r');
        } else if c == '\t' {
            out.push('\\');
            out.push('t');
        } else if (c as u32) < 0x20 {
            out.push('\\');
            out.push('u');
            out.push('0');
            out.push('0');
            out.push(crate::numbers::char_of_digit((c as u32 / 16) as u8));
            out.push(crate::numbers::char_of_digit((c as u32 % 16) as u8));
        } else {
            out.push(c);
        }
        assert(out@ =~= before + escaped(c));
        assert(before + escaped(c) =~= start + seq!['"'] + (escaped_text(t@, i as int) + escaped(
            c,
        )));
        i = i + 1;
    }
    out.push('"');
    assert(out@ =~= start + quoted(t@));
}

fn push_json(out: &mut String, j: &Json)
    ensures
        final(out)@ == old(out)@ + json_text(j@),
    decreases j,
{
    let ghost start = out@;
    match j {
        Json::Null => {
            proof {
                reveal_strlit("null");
            }
            push_text(out, "null");
            assert(out@ =~= start + json_text(j@));
        },
        Json::Bool(b) => {
            proof {
                reveal_strlit("true");
                reveal_strlit("false");
            }
            if *b {
                push_text(out, "true");
            } else {
                push_text(out, "false");
            }
            assert(out@ =~= start + json_text(j@));
        },
        Json::Num(n) => {
            push_dec(out, *n);
        },
        Json::Neg(n) => {
            if *n > 0 {
                out.push('-');
            }
            push_dec(out, *n);
            assert(out@ =~= start + json_text(j@));
        },
        Json::Lit(t) => {
            push_text(out, t.as_str());
        },
        Json::Str(t) => {
            push_quoted(out, t.as_str());
        },
        Json::Arr(v) => {
            proof {
                lemma_arr(*v);
            }
            let ghost a = values(v@);
            out.push('[');
            let mut i: usize = 0;
            assert(out@ =~= start + seq!['['] + list_text(a, 0));
            while i < v.len()
                invariant
                    i <= v@.len(),
                    *j == Json::Arr(*v),
                    a == values(v@),
                    out@ == start + seq!['['] + list_text(a, i as int),
                decreases v.len() - i,
            {
                let ghost before = list_text(a, i as int);
                if i > 0 {
                    out.push(',');
                }
                assert(out@ =~= start + seq!['['] + (before + comma(i as int)));
                assert(decreases_to!(*j => j->Arr_0));
                assert(decreases_to!(v => v@));
                assert(decreases_to!(v@ => v@[i as int]));
                push_json(out, &v[i]);
                assert(out@ =~= start + seq!['['] + (before + comma(i as int) + json_text(
                    a[i as int],
                )));
                i = i + 1;
            }
            out.push(']');
            assert(out@ =~= start + json_text(j@));
        },
        Json::Obj(v) => {
            proof {
                lemma_obj(*v);
            }
            let ghost fs = members(v@);
            out.push('{');
            let mut i: usize = 0;
            assert(out@ =~= start + seq!['{'] + members_text(fs, 0));
            while i < v.len()
                invariant
                    i <= v@.len(),
                    *j == Json::Obj(*v),
                    fs == members(v@),
                    out@ == start + seq!['{'] + members_text(fs, i as int),
                decreases v.len() - i,
            {
                let ghost before = members_text(fs, i as int);
                if i > 0 {
                    out.push(',');
                }
                assert(out@ =~= start + seq!['{'] + (before + comma(i as int)));
                let m = &v[i];
                push_quoted(out, m.0.as_str());
                out.push(':');
                assert(out@ =~= start + seq!['{'] + (before + comma(i as int) + quoted(
                    fs[i as int].0,
                ) + seq![':']));
                assert(decreases_to!(*j => j->Obj_0));
                assert(decreases_to!(v => v@));
                assert(decreases_to!(v@ => v@[i as int]));
                assert(decreases_to!(v@[i as int] => v@[i as int].1));
                push_json(out, &m.1);
                assert(out@ =~= start + seq!['{'] + (before + comma(i as int) + quoted(
                    fs[i as int].0,
                ) + seq![':'] + json_text(fs[i as int].1)));
                i = i + 1;
            }
            out.push('}');
            assert(out@ =~= start + json_text(j@));
        },
    }
}

impl Json {
    /// The value as text on one line.
    pub fn to_text(&self) -> (r: String)
        ensures
            r@ == json_text(self@),
    {
        let mut out = String::new();
        push_json(&mut out, self);
        assert(out@ =~= json_text(self@));
        out
    }
}

} // verus!
