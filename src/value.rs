//! The runtime value model: a tagged tree in the shape of JSON.
use vstd::prelude::*;
use crate::error::NatsuzoraError;
use crate::text::{push_char, str_eq};

verus! {

broadcast use vstd::std_specs::vec::group_vec_axioms;

/// Smallest integer a value may hold: `-(2^53 - 1)`.
pub const INTEGER_MIN: i64 = -9007199254740991;
/// Largest integer a value may hold: `2^53 - 1`.
pub const INTEGER_MAX: i64 = 9007199254740991;

/// A runtime value. An object is an association list whose keys are meant
/// to be distinct (data converted from JSON has distinct keys). Lookups take
/// the first entry with the key asked for, so when a key repeats, its first
/// entry wins and the others are never seen.
#[derive(Debug, PartialEq)]
pub enum Value {
    Null,
    Bool(bool),
    Integer(i64),
    String(String),
    Array(Vec<Value>),
    Object(Vec<(String, Value)>),
}

/// The mathematical model of a value: the same tree with integers as `int`,
/// strings as character sequences and containers as sequences.
pub enum Json {
    Null,
    Bool(bool),
    Int(int),
    Str(Seq<char>),
    Array(Seq<Json>),
    Object(Seq<(Seq<char>, Json)>),
}

impl Value {
    /// The model of this value.
    pub open spec fn model(self) -> Json
        decreases self,
    {
        match self {
            Value::Null => Json::Null,
            Value::Bool(b) => Json::Bool(b),
            Value::Integer(n) => Json::Int(n as int),
            Value::String(s) => Json::Str(s@),
            Value::Array(items) => Json::Array(models(items@)),
            Value::Object(entries) => Json::Object(entry_models(entries@)),
        }
    }
}

/// The models of a sequence of values, in order.
pub open spec fn models(s: Seq<Value>) -> Seq<Json>
    decreases s,
{
    if s.len() == 0 {
        Seq::empty()
    } else {
        models(s.subrange(0, s.len() - 1)).push(s[s.len() - 1].model())
    }
}

/// The models of an entry list: keys as character sequences, values as models.
pub open spec fn entry_models(s: Seq<(String, Value)>) -> Seq<(Seq<char>, Json)>
    decreases s,
{
    if s.len() == 0 {
        Seq::empty()
    } else {
        entry_models(s.subrange(0, s.len() - 1)).push((s[s.len() - 1].0@, s[s.len() - 1].1.model()))
    }
}

pub proof fn lemma_models(s: Seq<Value>)
    ensures
        models(s).len() == s.len(),
        forall|j: int| 0 <= j < s.len() ==> #[trigger] models(s)[j] == s[j].model(),
    decreases s.len(),
{
    if s.len() > 0 {
        lemma_models(s.subrange(0, s.len() - 1));
    }
}

pub proof fn lemma_entry_models(s: Seq<(String, Value)>)
    ensures
        entry_models(s).len() == s.len(),
        forall|j: int| 0 <= j < s.len() ==> #[trigger] entry_models(s)[j] == (s[j].0@, s[j].1.model()),
    decreases s.len(),
{
    if s.len() > 0 {
        lemma_entry_models(s.subrange(0, s.len() - 1));
    }
}

/// The model stored under `key` in a modelled entry list: the first match.
pub open spec fn lookup_entry(entries: Seq<(Seq<char>, Json)>, key: Seq<char>) -> Option<Json>
    decreases entries.len(),
{
    if entries.len() == 0 {
        None
    } else if entries[0].0 == key {
        Some(entries[0].1)
    } else {
        lookup_entry(entries.drop_first(), key)
    }
}

/// Whether an integer lies in the range values may hold.
pub open spec fn int_in_range(n: int) -> bool {
    INTEGER_MIN <= n <= INTEGER_MAX
}

/// Truthiness: `false`, `null`, `0`, `""`, `[]` and `{}` are falsy.
pub open spec fn truthy(v: Json) -> bool {
    match v {
        Json::Null => false,
        Json::Bool(b) => b,
        Json::Int(n) => n != 0,
        Json::Str(s) => s.len() > 0,
        Json::Array(a) => a.len() > 0,
        Json::Object(o) => o.len() > 0,
    }
}

/// The decimal digit for `d` in `0..10`.
pub open spec fn digit_char(d: int) -> char {
    if d == 0 { '0' } else if d == 1 { '1' } else if d == 2 { '2' } else if d == 3 { '3' }
    else if d == 4 { '4' } else if d == 5 { '5' } else if d == 6 { '6' } else if d == 7 { '7' }
    else if d == 8 { '8' } else { '9' }
}

/// The decimal digits of a natural number, most significant first.
pub open spec fn nat_digits(n: nat) -> Seq<char>
    decreases n,
{
    if n < 10 {
        seq![digit_char(n as int)]
    } else {
        nat_digits((n / 10) as nat).push(digit_char((n % 10) as int))
    }
}

/// The signed decimal representation of an integer.
pub open spec fn decimal(n: int) -> Seq<char> {
    if n < 0 {
        seq!['-'] + nat_digits((-n) as nat)
    } else {
        nat_digits(n as nat)
    }
}

/// What a value prints as under the plain policy: strings as they are,
/// integers in decimal; anything else has no text.
pub open spec fn plain_text(v: Json) -> Option<Seq<char>> {
    match v {
        Json::Str(s) => Some(s),
        Json::Int(n) => if int_in_range(n) { Some(decimal(n)) } else { None },
        _ => None,
    }
}

/// The text under the `?` policy: as the plain policy, with null as empty.
pub open spec fn nullable_text(v: Json) -> Option<Seq<char>> {
    match v {
        Json::Null => Some(Seq::empty()),
        _ => plain_text(v),
    }
}

/// The text under the `!` policy: as the plain policy, but the empty string has none.
pub open spec fn required_text(v: Json) -> Option<Seq<char>> {
    match v {
        Json::Str(s) => if s.len() == 0 { None } else { Some(s) },
        _ => plain_text(v),
    }
}

/// Whether an error is a type error.
pub open spec fn is_type_error(e: NatsuzoraError) -> bool {
    e is TypeError
}

/// The result of a stringify call, against the text a policy gives.
pub open spec fn stringified(r: Result<String, NatsuzoraError>, t: Option<Seq<char>>) -> bool {
    match t {
        Some(s) => r is Ok && r->Ok_0@ == s,
        None => r is Err && is_type_error(r->Err_0),
    }
}

/// Decimal digits of `n`, most significant first.
pub fn digits_of(n: u64) -> (r: Vec<char>)
    ensures
        r@ == nat_digits(n as nat),
{
    let mut out: Vec<char> = Vec::new();
    let mut m: u64 = n;
    loop
        invariant
            nat_digits(n as nat) == nat_digits(m as nat) + out@,
        decreases m,
    {
        let d = m % 10;
        let c = if d == 0 { '0' } else if d == 1 { '1' } else if d == 2 { '2' } else if d == 3 { '3' }
            else if d == 4 { '4' } else if d == 5 { '5' } else if d == 6 { '6' } else if d == 7 { '7' }
            else if d == 8 { '8' } else { '9' };
        assert(c == digit_char(d as int));
        let ghost old_out = out@;
        out.insert(0, c);
        assert(out@ =~= seq![c] + old_out);
        if m < 10 {
            assert(nat_digits(m as nat) == seq![c]);
            assert(nat_digits(n as nat) =~= out@);
            return out;
        }
        assert(nat_digits(m as nat) == nat_digits((m / 10) as nat).push(c));
        assert(nat_digits((m / 10) as nat).push(c) + old_out =~= nat_digits((m / 10) as nat) + out@);
        m = m / 10;
    }
}

/// The decimal text of an integer in the value range.
pub fn decimal_string(n: i64) -> (r: String)
    requires
        int_in_range(n as int),
    ensures
        r@ == decimal(n as int),
{
    let mut s = String::new();
    let digits: Vec<char>;
    if n < 0 {
        push_char(&mut s, '-');
        digits = digits_of((0 - n) as u64);
    } else {
        digits = digits_of(n as u64);
    }
    let mut i: usize = 0;
    let ghost pre = s@;
    while i < digits.len()
        invariant
            i <= digits@.len(),
            s@ == pre + digits@.subrange(0, i as int),
        decreases digits@.len() - i,
    {
        push_char(&mut s, digits[i]);
        i += 1;
        assert(digits@.subrange(0, i as int) =~= digits@.subrange(0, i - 1 as int).push(digits@[i - 1]));
    }
    assert(digits@.subrange(0, digits@.len() as int) =~= digits@);
    assert(s@ =~= decimal(n as int));
    s
}

fn type_error(message: &str) -> (r: NatsuzoraError)
    ensures
        r is TypeError,
{
    NatsuzoraError::TypeError { message: message.to_owned() }
}

impl Value {
    /// An exact copy of the value.
    pub fn duplicate(&self) -> (r: Value)
        ensures
            r.model() == self.model(),
        decreases self,
    {
        match self {
            Value::Null => Value::Null,
            Value::Bool(b) => Value::Bool(*b),
            Value::Integer(n) => Value::Integer(*n),
            Value::String(s) => Value::String(s.clone()),
            Value::Array(items) => {
                let mut out: Vec<Value> = Vec::new();
                let mut i: usize = 0;
                while i < items.len()
                    invariant
                        *self is Array,
                        self->Array_0 == *items,
                        i <= items@.len(),
                        out@.len() == i,
                        forall|j: int| 0 <= j < i ==> #[trigger] out@[j].model() == items@[j].model(),
                    decreases items@.len() - i,
                {
                    proof {
                        assert(decreases_to!(*self => self->Array_0));
                        assert(decreases_to!(*items => items@));
                        assert(decreases_to!(items@ => items@[i as int]));
                    }
                    out.push(items[i].duplicate());
                    i += 1;
                }
                proof {
                    lemma_models(out@);
                    lemma_models(items@);
                    assert(models(out@) =~= models(items@));
                }
                Value::Array(out)
            },
            Value::Object(entries) => {
                let mut out: Vec<(String, Value)> = Vec::new();
                let mut i: usize = 0;
                while i < entries.len()
                    invariant
                        *self is Object,
                        self->Object_0 == *entries,
                        i <= entries@.len(),
                        out@.len() == i,
                        forall|j: int| 0 <= j < i ==> #[trigger] out@[j].0@ == entries@[j].0@
                            && out@[j].1.model() == entries@[j].1.model(),
                    decreases entries@.len() - i,
                {
                    proof {
                        assert(decreases_to!(*self => self->Object_0));
                        assert(decreases_to!(*entries => entries@));
                        assert(decreases_to!(entries@ => entries@[i as int]));
                        assert(decreases_to!(entries@[i as int] => entries@[i as int].1));
                    }
                    let k = entries[i].0.clone();
                    let v = entries[i].1.duplicate();
                    out.push((k, v));
                    i += 1;
                }
                proof {
                    lemma_entry_models(out@);
                    lemma_entry_models(entries@);
                    assert(entry_models(out@) =~= entry_models(entries@));
                }
                Value::Object(out)
            },
        }
    }

    /// An integer value, refused with a type error outside `INTEGER_MIN..=INTEGER_MAX`.
    pub fn integer(n: i64) -> (r: Result<Value, NatsuzoraError>)
        ensures
            int_in_range(n as int) ==> r == Ok::<Value, NatsuzoraError>(Value::Integer(n)),
            !int_in_range(n as int) ==> r is Err && is_type_error(r->Err_0),
    {
        if n < INTEGER_MIN || n > INTEGER_MAX {
            Err(type_error("Integer out of range"))
        } else {
            Ok(Value::Integer(n))
        }
    }

    /// Whether the value takes the branch of `#if`.
    pub fn is_truthy(&self) -> (r: bool)
        ensures
            r == truthy(self.model()),
    {
        match self {
            Value::Null => false,
            Value::Bool(b) => *b,
            Value::Integer(n) => *n != 0,
            Value::String(s) => !s.as_str().is_empty(),
            Value::Array(a) => a.len() != 0,
            Value::Object(o) => o.len() != 0,
        }
    }

    /// The text of a string or in-range integer; a type error for anything else.
    pub fn stringify(&self) -> (r: Result<String, NatsuzoraError>)
        ensures
            stringified(r, plain_text(self.model())),
    {
        match self {
            Value::String(s) => Ok(s.clone()),
            Value::Integer(n) => {
                if *n < INTEGER_MIN || *n > INTEGER_MAX {
                    Err(type_error("Integer out of range"))
                } else {
                    Ok(decimal_string(*n))
                }
            },
            Value::Null => Err(type_error("Cannot stringify null value without '?' modifier")),
            Value::Bool(_) => Err(type_error("Cannot stringify boolean value")),
            Value::Array(_) => Err(type_error("Cannot stringify array")),
            Value::Object(_) => Err(type_error("Cannot stringify object")),
        }
    }

    /// As `stringify`, with null giving the empty string.
    pub fn stringify_nullable(&self) -> (r: Result<String, NatsuzoraError>)
        ensures
            stringified(r, nullable_text(self.model())),
    {
        match self {
            Value::Null => Ok(String::new()),
            _ => self.stringify(),
        }
    }

    /// As `stringify`, with null and the empty string refused.
    pub fn stringify_required(&self) -> (r: Result<String, NatsuzoraError>)
        ensures
            stringified(r, required_text(self.model())),
    {
        if self.is_null() {
            return Err(type_error("Cannot stringify null value with '!' modifier"));
        }
        if self.is_empty_string() {
            return Err(type_error("Cannot stringify empty string with '!' modifier"));
        }
        self.stringify()
    }

    pub fn is_null(&self) -> (r: bool)
        ensures
            r == (*self is Null),
    {
        match self {
            Value::Null => true,
            _ => false,
        }
    }

    pub fn is_empty_string(&self) -> (r: bool)
        ensures
            r == (*self is String && self->String_0@.len() == 0),
    {
        match self {
            Value::String(s) => s.as_str().is_empty(),
            _ => false,
        }
    }

    /// The items of an array; a type error for any other value.
    pub fn as_array(&self) -> (r: Result<&Vec<Value>, NatsuzoraError>)
        ensures
            *self is Array ==> r is Ok && r->Ok_0@ == self->Array_0@,
            !(*self is Array) ==> r is Err && is_type_error(r->Err_0),
    {
        match self {
            Value::Array(a) => Ok(a),
            _ => Err(type_error("Expected array")),
        }
    }

    /// The name of the value's kind, as error messages give it.
    pub fn kind_name(&self) -> (r: &'static str)
        ensures
            *self is Null ==> r@ == "NilClass"@,
            *self is Integer ==> r@ == "Integer"@,
            *self is String ==> r@ == "String"@,
            *self is Array ==> r@ == "Array"@,
            *self is Object ==> r@ == "Hash"@,
    {
        match self {
            Value::Null => "NilClass",
            Value::Bool(true) => "TrueClass",
            Value::Bool(false) => "FalseClass",
            Value::Integer(_) => "Integer",
            Value::String(_) => "String",
            Value::Array(_) => "Array",
            Value::Object(_) => "Hash",
        }
    }
}

/// The value stored under `key` in an entry list: the first entry with that key.
pub fn find_entry<'a>(entries: &'a Vec<(String, Value)>, key: &str) -> (r: Option<&'a Value>)
    ensures
        lookup_entry(entry_models(entries@), key@) == match r {
            Some(v) => Some(v.model()),
            None => None::<Json>,
        },
{
    let ghost m = entry_models(entries@);
    proof {
        lemma_entry_models(entries@);
        assert(m.subrange(0, m.len() as int) =~= m);
    }
    let mut i: usize = 0;
    while i < entries.len()
        invariant
            i <= entries@.len(),
            m == entry_models(entries@),
            m.len() == entries@.len(),
            forall|j: int| 0 <= j < entries@.len() ==> #[trigger] m[j] == (entries@[j].0@, entries@[j].1.model()),
            lookup_entry(m, key@) == lookup_entry(m.subrange(i as int, m.len() as int), key@),
        decreases entries@.len() - i,
    {
        let ghost tail = m.subrange(i as int, m.len() as int);
        assert(tail[0] == m[i as int]);
        if str_eq(entries[i].0.as_str(), key) {
            return Some(&entries[i].1);
        }
        assert(tail.drop_first() =~= m.subrange(i + 1, m.len() as int));
        i += 1;
    }
    None
}

} // verus!
