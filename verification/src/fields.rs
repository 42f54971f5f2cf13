//! Reading the members of provider records that arrive as JSON.
use vstd::prelude::*;

use crate::json::{as_bool_spec, as_i64_spec, as_str_spec, get_spec, parse_i64, parse_i64_spec, JsonValue};
use crate::text::{
    chars_of, lemma_string_views_push, opt_view, split, split_chars, string_of, string_views, trim,
    trim_chars, views,
};
use crate::time::{chrono_instant_exists, millis_parts, rfc3339_instant, Timestamp};

verus! {

/// The string under `key`, if there is one.
pub open spec fn str_at(raw: JsonValue, key: Seq<char>) -> Option<Seq<char>> {
    match get_spec(raw, key) {
        Some(v) => as_str_spec(v),
        None => None,
    }
}

/// The string under `key`, where it is not blank.
pub open spec fn text_at(raw: JsonValue, key: Seq<char>) -> Option<Seq<char>> {
    match str_at(raw, key) {
        Some(s) => if trim(s).len() > 0 {
            Some(s)
        } else {
            None
        },
        None => None,
    }
}

/// The boolean under `key`, if there is one.
pub open spec fn bool_at(raw: JsonValue, key: Seq<char>) -> Option<bool> {
    match get_spec(raw, key) {
        Some(v) => as_bool_spec(v),
        None => None,
    }
}

pub open spec fn or_false(o: Option<bool>) -> bool {
    match o {
        Some(b) => b,
        None => false,
    }
}

/// The string under `key`.
pub fn str_field(raw: &JsonValue, key: &str) -> (res: Option<String>)
    ensures
        opt_view(res) == str_at(*raw, key@),
{
    match raw.get(key) {
        Some(v) => match v.as_str() {
            Some(s) => Some(s.clone()),
            None => None,
        },
        None => None,
    }
}

/// The string under `key`, where it is not blank.
pub fn text_field(raw: &JsonValue, key: &str) -> (res: Option<String>)
    ensures
        opt_view(res) == text_at(*raw, key@),
{
    match str_field(raw, key) {
        Some(s) => {
            let c = chars_of(s.as_str());
            let t = trim_chars(&c);
            if t.len() > 0 {
                Some(s)
            } else {
                None
            }
        },
        None => None,
    }
}

/// The boolean under `key`.
pub fn bool_field(raw: &JsonValue, key: &str) -> (res: Option<bool>)
    ensures
        res == bool_at(*raw, key@),
{
    match raw.get(key) {
        Some(v) => v.as_bool(),
        None => None,
    }
}

// ------------------------------------------------------------------
// Epochs
// ------------------------------------------------------------------

/// How an epoch member reads: `None` where `key` is absent or holds neither
/// an integer nor a string (a lookup goes on to its next key); otherwise the
/// integer, or the integer that the string writes, `Some(None)` where it
/// writes none (a lookup ends there with nothing).
pub open spec fn epoch_at(raw: JsonValue, key: Seq<char>) -> Option<Option<i64>> {
    match get_spec(raw, key) {
        Some(v) => if as_i64_spec(v) is Some {
            Some(as_i64_spec(v))
        } else if as_str_spec(v) is Some {
            Some(parse_i64_spec(as_str_spec(v)->0))
        } else {
            None
        },
        None => None,
    }
}

/// A lookup over two keys: the first that decides.
pub open spec fn first_epoch(a: Option<Option<i64>>, b: Option<Option<i64>>) -> Option<i64> {
    match a {
        Some(r) => r,
        None => match b {
            Some(r) => r,
            None => None,
        },
    }
}

/// Epochs up to 9,999,999,999 count seconds and are taken to
/// milliseconds; larger ones count milliseconds already.
pub open spec fn epoch_millis(e: int) -> int {
    if e > 9_999_999_999 {
        e
    } else {
        e * 1000
    }
}

/// Whether the milliseconds of an epoch fit an `i64`.
pub open spec fn epoch_fits(o: Option<i64>) -> bool {
    match o {
        Some(e) => i64::MIN <= epoch_millis(e as int) <= i64::MAX,
        None => true,
    }
}

/// The instant of an epoch, where chrono represents it.
pub open spec fn epoch_instant(o: Option<i64>) -> Option<(int, int)> {
    match o {
        Some(e) => {
            let p = millis_parts(epoch_millis(e as int));
            if chrono_instant_exists(p.0, p.1) {
                Some(p)
            } else {
                None
            }
        },
        None => None,
    }
}

/// The epoch member under `key`.
pub fn epoch_field(raw: &JsonValue, key: &str) -> (res: Option<Option<i64>>)
    ensures
        res == epoch_at(*raw, key@),
{
    match raw.get(key) {
        Some(v) => {
            if let Some(n) = v.as_i64() {
                Some(Some(n))
            } else if let Some(t) = v.as_str() {
                Some(parse_i64(t.as_str()))
            } else {
                None
            }
        },
        None => None,
    }
}

/// Whether the milliseconds of an epoch fit an `i64`.
pub fn epoch_fits_check(o: Option<i64>) -> (res: bool)
    ensures
        res == epoch_fits(o),
{
    match o {
        Some(e) => e > 9_999_999_999 || e >= -9_223_372_036_854_775,
        None => true,
    }
}

/// The instant of an epoch, as `Utc.timestamp_millis_opt(millis).single()`
/// gives it.
pub fn epoch_timestamp(o: Option<i64>) -> (res: Option<Timestamp>)
    requires
        epoch_fits(o),
    ensures
        match res {
            Some(t) => epoch_instant(o) == Some(t@),
            None => epoch_instant(o) is None,
        },
{
    match o {
        Some(e) => {
            let millis = if e > 9_999_999_999 {
                e
            } else {
                e * 1000
            };
            Timestamp::from_millis(millis)
        },
        None => None,
    }
}

// ------------------------------------------------------------------
// RFC 3339 times
// ------------------------------------------------------------------

/// The instant that the string under `key` writes in RFC 3339.
pub open spec fn rfc3339_at(raw: JsonValue, key: Seq<char>) -> Option<(int, int)> {
    match str_at(raw, key) {
        Some(s) => rfc3339_instant(s),
        None => None,
    }
}

/// The instant that the string under `key` writes in RFC 3339.
pub fn rfc3339_field(raw: &JsonValue, key: &str) -> (res: Option<Timestamp>)
    ensures
        match res {
            Some(t) => rfc3339_at(*raw, key@) == Some(t@),
            None => rfc3339_at(*raw, key@) is None,
        },
{
    match raw.get(key) {
        Some(v) => match v.as_str() {
            Some(s) => Timestamp::parse_rfc3339(s.as_str()),
            None => None,
        },
        None => None,
    }
}

// ------------------------------------------------------------------
// Lists of strings
// ------------------------------------------------------------------

/// The strings among `items` that are not blank, as they are.
pub open spec fn nonblank_strs(items: Seq<JsonValue>) -> Seq<Seq<char>>
    decreases items.len(),
{
    if items.len() == 0 {
        seq![]
    } else {
        let r = nonblank_strs(items.drop_last());
        match as_str_spec(items.last()) {
            Some(s) => if trim(s).len() > 0 {
                r.push(s)
            } else {
                r
            },
            None => r,
        }
    }
}

/// The non-blank strings of the array under `key`.
pub open spec fn strs_at(raw: JsonValue, key: Seq<char>) -> Seq<Seq<char>> {
    match get_spec(raw, key) {
        Some(JsonValue::Array(a)) => nonblank_strs(a@),
        _ => seq![],
    }
}

/// The text of a list item: the item itself where it is a string, else
/// the string under its `value` member.
pub open spec fn item_text(v: JsonValue) -> Option<Seq<char>> {
    if as_str_spec(v) is Some {
        as_str_spec(v)
    } else {
        str_at(v, "value"@)
    }
}

/// The texts of `items` that are not blank, as they are.
pub open spec fn nonblank_item_texts(items: Seq<JsonValue>) -> Seq<Seq<char>>
    decreases items.len(),
{
    if items.len() == 0 {
        seq![]
    } else {
        let r = nonblank_item_texts(items.drop_last());
        match item_text(items.last()) {
            Some(s) => if trim(s).len() > 0 {
                r.push(s)
            } else {
                r
            },
            None => r,
        }
    }
}

/// The non-blank item texts of the array under `key`.
pub open spec fn item_texts_at(raw: JsonValue, key: Seq<char>) -> Seq<Seq<char>> {
    match get_spec(raw, key) {
        Some(JsonValue::Array(a)) => nonblank_item_texts(a@),
        _ => seq![],
    }
}

/// The strings among `items`, trimmed, that are not empty then.
pub open spec fn trimmed_strs(items: Seq<JsonValue>) -> Seq<Seq<char>>
    decreases items.len(),
{
    if items.len() == 0 {
        seq![]
    } else {
        let r = trimmed_strs(items.drop_last());
        match as_str_spec(items.last()) {
            Some(s) => if trim(s).len() > 0 {
                r.push(trim(s))
            } else {
                r
            },
            None => r,
        }
    }
}

/// The pieces, trimmed, that are not empty then.
pub open spec fn trimmed_pieces(ps: Seq<Seq<char>>) -> Seq<Seq<char>>
    decreases ps.len(),
{
    if ps.len() == 0 {
        seq![]
    } else {
        let r = trimmed_pieces(ps.drop_last());
        if trim(ps.last()).len() > 0 {
            r.push(trim(ps.last()))
        } else {
            r
        }
    }
}

/// The names under `key`: the trimmed strings of an array, or the trimmed
/// comma-separated parts of a string; empty names are left out.
pub open spec fn people_at(raw: JsonValue, key: Seq<char>) -> Seq<Seq<char>> {
    match get_spec(raw, key) {
        Some(JsonValue::Array(a)) => trimmed_strs(a@),
        Some(JsonValue::Str(s)) => trimmed_pieces(split(s@, ',')),
        _ => seq![],
    }
}

/// The non-blank strings of the array under `key`.
pub fn strs_field(raw: &JsonValue, key: &str) -> (res: Vec<String>)
    ensures
        string_views(res@) == strs_at(*raw, key@),
{
    let mut out: Vec<String> = Vec::new();
    match raw.get(key) {
        Some(v) => match v.as_array() {
            Some(a) => {
                let mut i: usize = 0;
                assert(a@.take(0) =~= Seq::<JsonValue>::empty());
                while i < a.len()
                    invariant
                        i <= a.len(),
                        string_views(out@) == nonblank_strs(a@.take(i as int)),
                    decreases a.len() - i,
                {
                    assert(a@.take(i + 1).drop_last() =~= a@.take(i as int));
                    assert(a@.take(i + 1).last() == a@[i as int]);
                    if let Some(s) = a[i].as_str() {
                        let c = chars_of(s.as_str());
                        let t = trim_chars(&c);
                        if t.len() > 0 {
                            let x = s.clone();
                            proof {
                                lemma_string_views_push(out@, x);
                            }
                            out.push(x);
                        }
                    }
                    i = i + 1;
                }
                assert(a@.take(i as int) =~= a@);
            },
            None => {},
        },
        None => {},
    }
    out
}

/// The text of a list item.
fn item_text_exec(v: &JsonValue) -> (res: Option<String>)
    ensures
        opt_view(res) == item_text(*v),
{
    match v.as_str() {
        Some(s) => Some(s.clone()),
        None => str_field(v, "value"),
    }
}

/// The non-blank item texts of the array under `key`.
pub fn item_texts_field(raw: &JsonValue, key: &str) -> (res: Vec<String>)
    ensures
        string_views(res@) == item_texts_at(*raw, key@),
{
    let mut out: Vec<String> = Vec::new();
    match raw.get(key) {
        Some(v) => match v.as_array() {
            Some(a) => {
                let mut i: usize = 0;
                assert(a@.take(0) =~= Seq::<JsonValue>::empty());
                while i < a.len()
                    invariant
                        i <= a.len(),
                        string_views(out@) == nonblank_item_texts(a@.take(i as int)),
                    decreases a.len() - i,
                {
                    assert(a@.take(i + 1).drop_last() =~= a@.take(i as int));
                    assert(a@.take(i + 1).last() == a@[i as int]);
                    if let Some(s) = item_text_exec(&a[i]) {
                        let c = chars_of(s.as_str());
                        let t = trim_chars(&c);
                        if t.len() > 0 {
                            proof {
                                lemma_string_views_push(out@, s);
                            }
                            out.push(s);
                        }
                    }
                    i = i + 1;
                }
                assert(a@.take(i as int) =~= a@);
            },
            None => {},
        },
        None => {},
    }
    out
}

fn trimmed_strs_exec(a: &Vec<JsonValue>) -> (res: Vec<String>)
    ensures
        string_views(res@) == trimmed_strs(a@),
{
    let mut out: Vec<String> = Vec::new();
    let mut i: usize = 0;
    assert(a@.take(0) =~= Seq::<JsonValue>::empty());
    while i < a.len()
        invariant
            i <= a.len(),
            string_views(out@) == trimmed_strs(a@.take(i as int)),
        decreases a.len() - i,
    {
        assert(a@.take(i + 1).drop_last() =~= a@.take(i as int));
        assert(a@.take(i + 1).last() == a@[i as int]);
        if let Some(s) = a[i].as_str() {
            let c = chars_of(s.as_str());
            let t = trim_chars(&c);
            if t.len() > 0 {
                let x = string_of(&t);
                proof {
                    lemma_string_views_push(out@, x);
                }
                out.push(x);
            }
        }
        i = i + 1;
    }
    assert(a@.take(i as int) =~= a@);
    out
}

fn trimmed_pieces_exec(ps: &Vec<Vec<char>>) -> (res: Vec<String>)
    ensures
        string_views(res@) == trimmed_pieces(views(ps@)),
{
    let mut out: Vec<String> = Vec::new();
    let mut i: usize = 0;
    assert(views(ps@).take(0) =~= Seq::<Seq<char>>::empty());
    while i < ps.len()
        invariant
            i <= ps.len(),
            string_views(out@) == trimmed_pieces(views(ps@).take(i as int)),
        decreases ps.len() - i,
    {
        assert(views(ps@).take(i + 1).drop_last() =~= views(ps@).take(i as int));
        assert(views(ps@).take(i + 1).last() == ps@[i as int]@);
        let t = trim_chars(&ps[i]);
        if t.len() > 0 {
            let x = string_of(&t);
            proof {
                lemma_string_views_push(out@, x);
            }
            out.push(x);
        }
        i = i + 1;
    }
    assert(views(ps@).take(i as int) =~= views(ps@));
    out
}

/// The names under `key`.
pub fn people_field(raw: &JsonValue, key: &str) -> (res: Vec<String>)
    ensures
        string_views(res@) == people_at(*raw, key@),
{
    match raw.get(key) {
        Some(v) => match v {
            JsonValue::Array(a) => trimmed_strs_exec(a),
            JsonValue::Str(s) => {
                let c = chars_of(s.as_str());
                let parts = split_chars(&c, ',');
                trimmed_pieces_exec(&parts)
            },
            _ => Vec::new(),
        },
        None => Vec::new(),
    }
}

} // verus!
