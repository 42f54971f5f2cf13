//! JSON values as the provider payloads carry them, and the conversions the
//! normalisers read them through.
use vstd::prelude::*;

use crate::clean::eq_str;
use crate::text::{chars_eq, chars_of, is_digit, lower_chars, lowercase, string_of, trim, trim_chars};

verus! {

/// A JSON value. Integers that fit an `i64` are `Int`; larger nonnegative
/// ones are `UInt`; other numbers keep their text in `Float`. Objects keep
/// their members in order.
pub enum JsonValue {
    Null,
    Bool(bool),
    Int(i64),
    UInt(u64),
    Float(String),
    Str(String),
    Array(Vec<JsonValue>),
    Object(Vec<(String, JsonValue)>),
}

/// The member `key` of an object's member list: the first one so named.
pub open spec fn members_get(ms: Seq<(String, JsonValue)>, key: Seq<char>) -> Option<JsonValue>
    decreases ms.len(),
{
    if ms.len() == 0 {
        None
    } else if ms[0].0@ == key {
        Some(ms[0].1)
    } else {
        members_get(ms.drop_first(), key)
    }
}

/// `Value::get(key)`: the member of an object, `None` for anything else.
pub open spec fn get_spec(v: JsonValue, key: Seq<char>) -> Option<JsonValue> {
    match v {
        JsonValue::Object(ms) => members_get(ms@, key),
        _ => None,
    }
}

/// `Value::as_str`.
pub open spec fn as_str_spec(v: JsonValue) -> Option<Seq<char>> {
    match v {
        JsonValue::Str(s) => Some(s@),
        _ => None,
    }
}

/// `Value::as_i64`.
pub open spec fn as_i64_spec(v: JsonValue) -> Option<i64> {
    match v {
        JsonValue::Int(n) => Some(n),
        JsonValue::UInt(n) => if n <= i64::MAX {
            Some(n as i64)
        } else {
            None
        },
        _ => None,
    }
}

/// `Value::as_u64`.
pub open spec fn as_u64_spec(v: JsonValue) -> Option<u64> {
    match v {
        JsonValue::Int(n) => if n >= 0 {
            Some(n as u64)
        } else {
            None
        },
        JsonValue::UInt(n) => Some(n),
        _ => None,
    }
}

/// `Value::as_bool`.
pub open spec fn as_bool_spec(v: JsonValue) -> Option<bool> {
    match v {
        JsonValue::Bool(b) => Some(b),
        _ => None,
    }
}

impl JsonValue {
    pub fn get(&self, key: &str) -> (res: Option<&JsonValue>)
        ensures
            match res {
                Some(r) => get_spec(*self, key@) == Some(*r),
                None => get_spec(*self, key@) is None,
            },
    {
        match self {
            JsonValue::Object(ms) => {
                let k = chars_of(key);
                let mut i: usize = 0;
                assert(ms@.skip(0) =~= ms@);
                while i < ms.len()
                    invariant
                        *self == JsonValue::Object(*ms),
                        i <= ms.len(),
                        k@ == key@,
                        members_get(ms@, key@) == members_get(ms@.skip(i as int), key@),
                    decreases ms.len() - i,
                {
                    let ghost rest = ms@.skip(i as int);
                    assert(rest[0] == ms@[i as int]);
                    assert(rest.drop_first() =~= ms@.skip(i + 1));
                    let name = chars_of(ms[i].0.as_str());
                    if chars_eq(&name, &k) {
                        assert(members_get(rest, key@) == Some(ms@[i as int].1));
                        let r = &ms[i].1;
                        assert(*r == ms@[i as int].1);
                        return Some(r);
                    }
                    i = i + 1;
                }
                None
            },
            _ => None,
        }
    }

    pub fn as_str(&self) -> (res: Option<&String>)
        ensures
            match res {
                Some(s) => as_str_spec(*self) == Some(s@),
                None => as_str_spec(*self) is None,
            },
    {
        match self {
            JsonValue::Str(s) => Some(s),
            _ => None,
        }
    }

    pub fn as_i64(&self) -> (res: Option<i64>)
        ensures
            res == as_i64_spec(*self),
    {
        match self {
            JsonValue::Int(n) => Some(*n),
            JsonValue::UInt(n) => if *n <= 9_223_372_036_854_775_807u64 {
                Some(*n as i64)
            } else {
                None
            },
            _ => None,
        }
    }

    pub fn as_u64(&self) -> (res: Option<u64>)
        ensures
            res == as_u64_spec(*self),
    {
        match self {
            JsonValue::Int(n) => if *n >= 0 {
                Some(*n as u64)
            } else {
                None
            },
            JsonValue::UInt(n) => Some(*n),
            _ => None,
        }
    }

    pub fn as_bool(&self) -> (res: Option<bool>)
        ensures
            res == as_bool_spec(*self),
    {
        match self {
            JsonValue::Bool(b) => Some(*b),
            _ => None,
        }
    }

    pub fn is_null(&self) -> (res: bool)
        ensures
            res == (*self is Null),
    {
        match self {
            JsonValue::Null => true,
            _ => false,
        }
    }

    pub fn as_array(&self) -> (res: Option<&Vec<JsonValue>>)
        ensures
            match res {
                Some(a) => *self == JsonValue::Array(*a),
                None => !(*self is Array),
            },
    {
        match self {
            JsonValue::Array(a) => Some(a),
            _ => None,
        }
    }

    /// A copy of the value.
    pub fn duplicate(&self) -> (res: JsonValue)
        ensures
            json_same(res, *self),
        decreases self,
    {
        match self {
            JsonValue::Null => JsonValue::Null,
            JsonValue::Bool(b) => JsonValue::Bool(*b),
            JsonValue::Int(n) => JsonValue::Int(*n),
            JsonValue::UInt(n) => JsonValue::UInt(*n),
            JsonValue::Float(s) => JsonValue::Float(s.clone()),
            JsonValue::Str(s) => JsonValue::Str(s.clone()),
            JsonValue::Array(a) => {
                let mut out: Vec<JsonValue> = Vec::new();
                let mut i: usize = 0;
                while i < a.len()
                    invariant
                        *self == JsonValue::Array(*a),
                        i <= a.len(),
                        out@.len() == i,
                        forall|k: int| 0 <= k < i ==> json_same(#[trigger] out@[k], a@[k]),
                    decreases a.len() - i,
                {
                    proof {
                        assert(decreases_to!(*self => (*self)->Array_0));
                        assert(decreases_to!(*a => a[i as int]));
                    }
                    let x = a[i].duplicate();
                    out.push(x);
                    i = i + 1;
                }
                JsonValue::Array(out)
            },
            JsonValue::Object(ms) => {
                let mut out: Vec<(String, JsonValue)> = Vec::new();
                let mut i: usize = 0;
                while i < ms.len()
                    invariant
                        *self == JsonValue::Object(*ms),
                        i <= ms.len(),
                        out@.len() == i,
                        forall|k: int|
                            0 <= k < i ==> (#[trigger] out@[k]).0@ == ms@[k].0@ && json_same(
                                out@[k].1,
                                ms@[k].1,
                            ),
                    decreases ms.len() - i,
                {
                    proof {
                        assert(decreases_to!(*self => (*self)->Object_0));
                        assert(decreases_to!(*ms => ms[i as int]));
                        assert(decreases_to!(ms[i as int] => ms[i as int].1));
                    }
                    let x = ms[i].1.duplicate();
                    out.push((ms[i].0.clone(), x));
                    i = i + 1;
                }
                JsonValue::Object(out)
            },
        }
    }
}

/// Two values with the same content.
pub open spec fn json_same(a: JsonValue, b: JsonValue) -> bool
    decreases a,
{
    match (a, b) {
        (JsonValue::Null, JsonValue::Null) => true,
        (JsonValue::Bool(x), JsonValue::Bool(y)) => x == y,
        (JsonValue::Int(x), JsonValue::Int(y)) => x == y,
        (JsonValue::UInt(x), JsonValue::UInt(y)) => x == y,
        (JsonValue::Float(x), JsonValue::Float(y)) => x@ == y@,
        (JsonValue::Str(x), JsonValue::Str(y)) => x@ == y@,
        (JsonValue::Array(x), JsonValue::Array(y)) => x@.len() == y@.len() && forall|k: int|
            0 <= k < x@.len() ==> json_same(#[trigger] x@[k], y@[k]),
        (JsonValue::Object(x), JsonValue::Object(y)) => x@.len() == y@.len() && forall|k: int|
            0 <= k < x@.len() ==> (#[trigger] x@[k]).0@ == y@[k].0@ && json_same(x@[k].1, y@[k].1),
        _ => false,
    }
}

// ------------------------------------------------------------------
// Decimal integers
// ------------------------------------------------------------------

pub open spec fn digit_value(c: char) -> int {
    (c as int) - ('0' as int)
}

/// The number that a run of decimal digits writes.
pub open spec fn digits_value(s: Seq<char>) -> nat
    decreases s.len(),
{
    if s.len() == 0 {
        0
    } else {
        (digits_value(s.drop_last()) * 10 + digit_value(s.last())) as nat
    }
}

pub open spec fn all_digits(s: Seq<char>) -> bool {
    forall|i: int| 0 <= i < s.len() ==> is_digit(#[trigger] s[i])
}

/// `str::parse::<i64>`: an optional sign, then one or more ASCII digits,
/// of a value that fits.
pub open spec fn parse_i64_spec(s: Seq<char>) -> Option<i64> {
    let neg = s.len() > 0 && s[0] == '-';
    let signed = s.len() > 0 && (s[0] == '-' || s[0] == '+');
    let digits = if signed {
        s.drop_first()
    } else {
        s
    };
    if digits.len() == 0 || !all_digits(digits) {
        None
    } else {
        let v: int = if neg {
            -digits_value(digits)
        } else {
            digits_value(digits) as int
        };
        if i64::MIN <= v <= i64::MAX {
            Some(v as i64)
        } else {
            None
        }
    }
}

proof fn lemma_digits_value_monotone(s: Seq<char>, i: int)
    requires
        0 <= i <= s.len(),
        all_digits(s),
    ensures
        digits_value(s.take(i)) <= digits_value(s),
    decreases s.len() - i,
{
    if i < s.len() {
        lemma_digits_value_monotone(s, i + 1);
        assert(s.take(i + 1).drop_last() =~= s.take(i));
        assert(is_digit(s[i]));
    } else {
        assert(s.take(i) =~= s);
    }
}

/// The value of the digits `d`, where they are all digits and the value is
/// at most 2^63.
fn digits_up_to_limit(s: &Vec<char>, start: usize) -> (res: Option<i128>)
    requires
        start <= s@.len(),
    ensures
        match res {
            Some(v) => all_digits(s@.skip(start as int)) && v == digits_value(s@.skip(start as int))
                && v <= 9_223_372_036_854_775_808,
            None => !all_digits(s@.skip(start as int)) || digits_value(s@.skip(start as int))
                > 9_223_372_036_854_775_808,
        },
{
    let ghost d = s@.skip(start as int);
    let n = s.len();
    let mut acc: i128 = 0;
    let mut i: usize = start;
    assert(d.take(0) =~= Seq::<char>::empty());
    while i < n
        invariant
            start <= i <= n == s@.len(),
            d == s@.skip(start as int),
            all_digits(d.take(i - start)),
            acc == digits_value(d.take(i - start)),
            0 <= acc <= 9_223_372_036_854_775_808,
        decreases n - i,
    {
        let c = s[i];
        assert(d[i - start] == c);
        if !('0' <= c && c <= '9') {
            assert(!is_digit(d[i - start]));
            return None;
        }
        let ghost prev = d.take(i - start);
        let ghost next = d.take(i - start + 1);
        assert(next.drop_last() =~= prev);
        assert(next.last() == c);
        let dv: i128 = (c as u32 - '0' as u32) as i128;
        acc = acc * 10 + dv;
        i = i + 1;
        assert(all_digits(next)) by {
            assert forall|k: int| 0 <= k < next.len() implies is_digit(#[trigger] next[k]) by {
                if k < prev.len() {
                    assert(next[k] == prev[k]);
                }
            }
        }
        if acc > 9_223_372_036_854_775_808 {
            proof {
                if all_digits(d) {
                    lemma_digits_value_monotone(d, i - start);
                }
            }
            return None;
        }
    }
    assert(d.take(n - start) =~= d);
    Some(acc)
}

/// The decimal number a string slice writes, as `str::parse::<i64>` reads it.
pub fn parse_i64(text: &str) -> (res: Option<i64>)
    ensures
        res == parse_i64_spec(text@),
{
    let s = chars_of(text);
    let n = s.len();
    let neg = n > 0 && s[0] == '-';
    let signed = n > 0 && (s[0] == '-' || s[0] == '+');
    let start: usize = if signed {
        1
    } else {
        0
    };
    let ghost digits = if signed {
        s@.drop_first()
    } else {
        s@
    };
    assert(digits =~= s@.skip(start as int));
    if start >= n {
        return None;
    }
    let acc = match digits_up_to_limit(&s, start) {
        Some(v) => v,
        None => return None,
    };
    if neg {
        let v = 0 - acc;
        Some(v as i64)
    } else {
        if acc > 9_223_372_036_854_775_807 {
            None
        } else {
            Some(acc as i64)
        }
    }
}

/// The decimal text of a natural number.
pub open spec fn nat_decimal(n: nat) -> Seq<char>
    decreases n,
{
    if n < 10 {
        seq![(('0' as int) + n) as char]
    } else {
        nat_decimal(n / 10).push((('0' as int) + (n % 10)) as char)
    }
}

/// `i64::to_string`.
pub open spec fn i64_decimal(n: int) -> Seq<char> {
    if n < 0 {
        seq!['-'] + nat_decimal((-n) as nat)
    } else {
        nat_decimal(n as nat)
    }
}

proof fn lemma_nat_decimal_digits(n: nat)
    ensures
        nat_decimal(n).len() > 0,
        all_digits(nat_decimal(n)),
        digits_value(nat_decimal(n)) == n,
    decreases n,
{
    if n >= 10 {
        lemma_nat_decimal_digits(n / 10);
        let s = nat_decimal(n / 10);
        let c = (('0' as int) + (n % 10)) as char;
        let t = s.push(c);
        assert(t.drop_last() =~= s);
        assert(t.last() == c);
        assert((c as int) == ('0' as int) + (n % 10));
        assert(digit_value(c) == n % 10);
        assert(digits_value(t) == digits_value(s) * 10 + digit_value(c));
        assert((n / 10) * 10 + n % 10 == n);
        assert forall|i: int| 0 <= i < t.len() implies is_digit(#[trigger] t[i]) by {
            if i < s.len() {
                assert(t[i] == s[i]);
            }
        }
    } else {
        let t = nat_decimal(n);
        let c = (('0' as int) + n) as char;
        assert(t =~= seq![c]);
        assert(t.drop_last() =~= Seq::<char>::empty());
        assert(t.last() == c);
        assert((c as int) == ('0' as int) + n);
        assert(digits_value(t) == digits_value(t.drop_last()) * 10 + digit_value(c));
    }
}

/// The decimal text of an integer reads back as that integer: what
/// `i64_to_string` writes, `parse_i64` (and so `value_to_i64` on a string)
/// reads as the same number.
pub proof fn law_decimal_round_trip(n: i64)
    ensures
        parse_i64_spec(i64_decimal(n as int)) == Some(n),
{
    if n < 0 {
        let m = (-n) as nat;
        lemma_nat_decimal_digits(m);
        let s = i64_decimal(n as int);
        assert(s == seq!['-'] + nat_decimal(m));
        assert(s.drop_first() =~= nat_decimal(m));
    } else {
        lemma_nat_decimal_digits(n as nat);
        let s = nat_decimal(n as nat);
        assert(is_digit(s[0]));
    }
}

fn nat_to_chars(n: u64) -> (res: Vec<char>)
    ensures
        res@ == nat_decimal(n as nat),
    decreases n,
{
    if n < 10 {
        let mut v: Vec<char> = Vec::new();
        v.push(((('0' as u32) + (n as u32)) as u8) as char);
        assert(v@ =~= nat_decimal(n as nat));
        v
    } else {
        let mut v = nat_to_chars(n / 10);
        v.push(((('0' as u32) + ((n % 10) as u32)) as u8) as char);
        assert(v@ =~= nat_decimal(n as nat));
        v
    }
}

/// The decimal text of a signed integer, as `to_string` writes it.
pub fn i64_to_string(n: i64) -> (res: String)
    ensures
        res@ == i64_decimal(n as int),
{
    if n < 0 {
        let m: u64 = if n == i64::MIN {
            9_223_372_036_854_775_808u64
        } else {
            (-n) as u64
        };
        let mut v: Vec<char> = Vec::new();
        v.push('-');
        let d = nat_to_chars(m);
        crate::text::append_chars(&mut v, &d);
        string_of(&v)
    } else {
        let d = nat_to_chars(n as u64);
        string_of(&d)
    }
}

/// The decimal text of an unsigned integer, as `to_string` writes it.
pub fn u64_to_string(n: u64) -> (res: String)
    ensures
        res@ == nat_decimal(n as nat),
{
    let d = nat_to_chars(n);
    string_of(&d)
}

// ------------------------------------------------------------------
// Reading provider fields
// ------------------------------------------------------------------

/// What `value_to_i64` returns: the integer, or the integer a string
/// writes.
pub open spec fn value_to_i64_spec(v: JsonValue) -> Option<i64> {
    if as_i64_spec(v) is Some {
        as_i64_spec(v)
    } else if as_str_spec(v) is Some {
        parse_i64_spec(as_str_spec(v)->0)
    } else {
        None
    }
}

/// What `value_to_bool` returns: a boolean, a nonzero integer, or one of
/// "1", "true", "yes" (trimmed, any case); anything else is false.
pub open spec fn value_to_bool_spec(v: JsonValue) -> bool {
    if as_bool_spec(v) is Some {
        as_bool_spec(v)->0
    } else if as_i64_spec(v) is Some {
        as_i64_spec(v)->0 != 0
    } else if as_str_spec(v) is Some {
        let t = lowercase(trim(as_str_spec(v)->0));
        t == "1"@ || t == "true"@ || t == "yes"@
    } else {
        false
    }
}

/// What `value_to_string` returns: a string that is not blank, or the
/// decimal text of an integer.
pub open spec fn value_to_string_spec(v: JsonValue) -> Option<Seq<char>> {
    if as_str_spec(v) is Some && trim(as_str_spec(v)->0).len() > 0 {
        as_str_spec(v)
    } else if as_i64_spec(v) is Some {
        Some(i64_decimal(as_i64_spec(v)->0 as int))
    } else if as_u64_spec(v) is Some {
        Some(nat_decimal(as_u64_spec(v)->0 as nat))
    } else {
        None
    }
}

pub fn value_to_i64(value: &JsonValue) -> (res: Option<i64>)
    ensures
        res == value_to_i64_spec(*value),
{
    if let Some(n) = value.as_i64() {
        return Some(n);
    }
    if let Some(text) = value.as_str() {
        return parse_i64(text.as_str());
    }
    None
}

pub fn value_to_bool(value: &JsonValue) -> (res: bool)
    ensures
        res == value_to_bool_spec(*value),
{
    if let Some(b) = value.as_bool() {
        return b;
    }
    if let Some(n) = value.as_i64() {
        return n != 0;
    }
    if let Some(text) = value.as_str() {
        let c = chars_of(text.as_str());
        let t = trim_chars(&c);
        let l = lower_chars(&t);
        return eq_str(&l, "1") || eq_str(&l, "true") || eq_str(&l, "yes");
    }
    false
}

pub fn value_to_string(value: &JsonValue) -> (res: Option<String>)
    ensures
        crate::text::opt_view(res) == value_to_string_spec(*value),
{
    if let Some(text) = value.as_str() {
        let c = chars_of(text.as_str());
        let t = trim_chars(&c);
        if t.len() > 0 {
            return Some(text.clone());
        }
    }
    if let Some(n) = value.as_i64() {
        return Some(i64_to_string(n));
    }
    if let Some(n) = value.as_u64() {
        return Some(u64_to_string(n));
    }
    None
}

// ------------------------------------------------------------------
// JSON text (the compact form that `Display` for a JSON value writes)
// ------------------------------------------------------------------

pub open spec fn hex_digit(n: int) -> char {
    if n < 10 {
        (('0' as int) + n) as char
    } else {
        (('a' as int) + n - 10) as char
    }
}

/// How one character of a string is written inside JSON quotes.
pub open spec fn json_char(c: char) -> Seq<char> {
    if c == '"' {
        seq!['\\', '"']
    } else if c == '\\' {
        seq!['\\', '\\']
    } else if c == '\x08' {
        seq!['\\', 'b']
    } else if c == '\t' {
        seq!['\\', 't']
    } else if c == '\n' {
        seq!['\\', 'n']
    } else if c == '\x0C' {
        seq!['\\', 'f']
    } else if c == '\r' {
        seq!['\\', 'r']
    } else if (c as int) < 0x20 {
        seq!['\\', 'u', '0', '0', hex_digit((c as int) / 16), hex_digit((c as int) % 16)]
    } else {
        seq![c]
    }
}

pub open spec fn json_chars(s: Seq<char>) -> Seq<char>
    decreases s.len(),
{
    if s.len() == 0 {
        seq![]
    } else {
        json_char(s[0]) + json_chars(s.drop_first())
    }
}

/// A string as a JSON string literal.
pub open spec fn json_quote(s: Seq<char>) -> Seq<char> {
    seq!['"'] + json_chars(s) + seq!['"']
}

/// The compact JSON text of a value.
pub open spec fn json_text(v: JsonValue) -> Seq<char>
    decreases v, 1nat, 0nat,
{
    match v {
        JsonValue::Null => "null"@,
        JsonValue::Bool(b) => if b {
            "true"@
        } else {
            "false"@
        },
        JsonValue::Int(n) => i64_decimal(n as int),
        JsonValue::UInt(n) => nat_decimal(n as nat),
        JsonValue::Float(t) => t@,
        JsonValue::Str(s) => json_quote(s@),
        JsonValue::Array(a) => seq!['['] + array_text(v, 0) + seq![']'],
        JsonValue::Object(ms) => seq!['{'] + object_text(v, 0) + seq!['}'],
    }
}

/// The elements of an array from position `i` on, comma-separated.
pub open spec fn array_text(v: JsonValue, i: nat) -> Seq<char>
    decreases v, 0nat, if v is Array {
        v->Array_0@.len() - i
    } else {
        0
    },
{
    match v {
        JsonValue::Array(a) => if i >= a@.len() {
            seq![]
        } else {
            proof {
                assert(decreases_to!(v => v->Array_0));
                assert(decreases_to!(a => a[i as int]));
            }
            (if i > 0 {
                seq![',']
            } else {
                seq![]
            }) + json_text(a[i as int]) + array_text(v, i + 1)
        },
        _ => seq![],
    }
}

/// The members of an object from position `i` on, comma-separated.
pub open spec fn object_text(v: JsonValue, i: nat) -> Seq<char>
    decreases v, 0nat, if v is Object {
        v->Object_0@.len() - i
    } else {
        0
    },
{
    match v {
        JsonValue::Object(ms) => if i >= ms@.len() {
            seq![]
        } else {
            proof {
                assert(decreases_to!(v => v->Object_0));
                assert(decreases_to!(ms => ms[i as int]));
            }
            (if i > 0 {
                seq![',']
            } else {
                seq![]
            }) + json_quote(ms[i as int].0@) + seq![':'] + json_text(ms[i as int].1) + object_text(
                v,
                i + 1,
            )
        },
        _ => seq![],
    }
}

fn hex_char(n: u32) -> (c: char)
    requires
        n < 16,
    ensures
        c == hex_digit(n as int),
{
    if n == 0 { '0' } else if n == 1 { '1' } else if n == 2 { '2' } else if n == 3 { '3' }
    else if n == 4 { '4' } else if n == 5 { '5' } else if n == 6 { '6' } else if n == 7 { '7' }
    else if n == 8 { '8' } else if n == 9 { '9' } else if n == 10 { 'a' } else if n == 11 { 'b' }
    else if n == 12 { 'c' } else if n == 13 { 'd' } else if n == 14 { 'e' } else { 'f' }
}

fn json_char_exec(c: char) -> (res: Vec<char>)
    ensures
        res@ == json_char(c),
{
    let mut out: Vec<char> = Vec::new();
    if c == '"' {
        out.push('\\');
        out.push('"');
    } else if c == '\\' {
        out.push('\\');
        out.push('\\');
    } else if c == '\x08' {
        out.push('\\');
        out.push('b');
    } else if c == '\t' {
        out.push('\\');
        out.push('t');
    } else if c == '\n' {
        out.push('\\');
        out.push('n');
    } else if c == '\x0C' {
        out.push('\\');
        out.push('f');
    } else if c == '\r' {
        out.push('\\');
        out.push('r');
    } else if (c as u32) < 32 {
        let code = c as u32;
        assert(code as int == c as int);
        out.push('\\');
        out.push('u');
        out.push('0');
        out.push('0');
        out.push(hex_char(code / 16));
        out.push(hex_char(code % 16));
    } else {
        out.push(c);
    }
    assert(out@ =~= json_char(c));
    out
}

fn push_json_string(out: &mut Vec<char>, s: &String)
    ensures
        final(out)@ == old(out)@ + json_quote(s@),
{
    let cs = crate::text::chars_of(s.as_str());
    out.push('"');
    let ghost start = out@;
    let mut i: usize = 0;
    assert(cs@.skip(0) =~= cs@);
    assert(start + Seq::<char>::empty() =~= start);
    while i < cs.len()
        invariant
            i <= cs.len(),
            cs@ == s@,
            out@ + json_chars(cs@.skip(i as int)) == start + json_chars(cs@),
        decreases cs.len() - i,
    {
        let ghost rest = cs@.skip(i as int);
        let ghost o = out@;
        assert(rest[0] == cs@[i as int]);
        assert(rest.drop_first() =~= cs@.skip(i + 1));
        let piece = json_char_exec(cs[i]);
        crate::text::append_chars(out, &piece);
        i = i + 1;
        assert(out@ + json_chars(cs@.skip(i as int)) =~= o + json_chars(rest));
    }
    assert(cs@.skip(i as int) =~= Seq::<char>::empty());
    out.push('"');
    assert(out@ =~= old(out)@ + json_quote(s@));
}

/// Appends the compact JSON text of a value.
pub fn push_json_text(out: &mut Vec<char>, v: &JsonValue)
    ensures
        final(out)@ == old(out)@ + json_text(*v),
    decreases v,
{
    match v {
        JsonValue::Null => crate::text::append_str(out, "null"),
        JsonValue::Bool(b) => if *b {
            crate::text::append_str(out, "true")
        } else {
            crate::text::append_str(out, "false")
        },
        JsonValue::Int(n) => {
            let t = i64_to_string(*n);
            crate::text::append_str(out, t.as_str());
        },
        JsonValue::UInt(n) => {
            let t = u64_to_string(*n);
            crate::text::append_str(out, t.as_str());
        },
        JsonValue::Float(t) => crate::text::append_str(out, t.as_str()),
        JsonValue::Str(s) => push_json_string(out, s),
        JsonValue::Array(a) => {
            out.push('[');
            let ghost start = out@;
            let mut i: usize = 0;
            assert(start + Seq::<char>::empty() =~= start);
            while i < a.len()
                invariant
                    *v == JsonValue::Array(*a),
                    i <= a.len(),
                    out@ + array_text(*v, i as nat) == start + array_text(*v, 0),
                decreases a.len() - i,
            {
                let ghost o = out@;
                if i > 0 {
                    out.push(',');
                }
                proof {
                    assert(decreases_to!(*v => (*v)->Array_0));
                    assert(decreases_to!(*a => a[i as int]));
                }
                push_json_text(out, &a[i]);
                i = i + 1;
                assert(out@ + array_text(*v, i as nat) =~= o + array_text(*v, (i - 1) as nat));
            }
            assert(out@ + Seq::<char>::empty() =~= out@);
            out.push(']');
            assert(out@ =~= old(out)@ + json_text(*v));
        },
        JsonValue::Object(ms) => {
            out.push('{');
            let ghost start = out@;
            let mut i: usize = 0;
            assert(start + Seq::<char>::empty() =~= start);
            while i < ms.len()
                invariant
                    *v == JsonValue::Object(*ms),
                    i <= ms.len(),
                    out@ + object_text(*v, i as nat) == start + object_text(*v, 0),
                decreases ms.len() - i,
            {
                let ghost o = out@;
                if i > 0 {
                    out.push(',');
                }
                push_json_string(out, &ms[i].0);
                out.push(':');
                proof {
                    assert(decreases_to!(*v => (*v)->Object_0));
                    assert(decreases_to!(*ms => ms[i as int]));
                }
                push_json_text(out, &ms[i].1);
                i = i + 1;
                assert(out@ + object_text(*v, i as nat) =~= o + object_text(*v, (i - 1) as nat));
            }
            assert(out@ + Seq::<char>::empty() =~= out@);
            out.push('}');
            assert(out@ =~= old(out)@ + json_text(*v));
        },
    }
}

} // verus!
