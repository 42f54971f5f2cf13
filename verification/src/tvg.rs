//! Reading IPTV-org tvg ids as channel names, and the signals that tell a
//! weak or generic name match from a real one.
use vstd::prelude::*;

use crate::clean::{compact_chars, compact_spec, contains_str, eq_str};
use crate::text::{
    chars_of, contains, find_char, find_char_exec, is_alnum, is_alpha, is_digit,
    is_lower, is_upper, is_ascii_alnum, is_ascii_alpha, is_ascii_digit, is_ascii_lower,
    is_ascii_upper, join, join_chars, lower_chars, lowercase, replace, replace_str, split,
    split_chars, split_words, string_of, subrange, views, words,
};

verus! {

/// The part of `s` before the first `c`, or all of `s` where there is none
/// (`split_once(c)`, left side).
pub open spec fn before_char(s: Seq<char>, c: char) -> Seq<char> {
    match find_char(s, c) {
        Some(i) => s.take(i),
        None => s,
    }
}

/// The spaces put between two neighbouring characters of a tvg id: one
/// where a capital follows a small letter or a digit, one where a digit
/// follows a letter, one where a letter follows a digit.
pub open spec fn tvg_gap(prev: char, ch: char) -> Seq<char> {
    (if is_upper(ch) && (is_lower(prev) || is_digit(prev)) {
        seq![' ']
    } else {
        seq![]
    }) + (if is_digit(ch) && is_alpha(prev) {
        seq![' ']
    } else {
        seq![]
    }) + (if is_alpha(ch) && is_digit(prev) {
        seq![' ']
    } else {
        seq![]
    })
}

/// A tvg id's characters with those gaps put in, and each character that
/// is not an ASCII letter or digit written as a space.
pub open spec fn tvg_spaced(s: Seq<char>) -> Seq<char>
    decreases s.len(),
{
    if s.len() == 0 {
        seq![]
    } else {
        tvg_spaced(s.drop_last()) + (if s.len() > 1 {
            tvg_gap(s[s.len() - 2], s.last())
        } else {
            seq![]
        }) + seq![
            if is_alnum(s.last()) {
                s.last()
            } else {
                ' '
            },
        ]
    }
}

/// What `normalize_known_tvg_words` returns: "TV 18" and "Tv 18" written
/// "TV18", "HD" and "SD" dropped, then the words joined by single spaces.
pub open spec fn known_words_spec(v: Seq<char>) -> Seq<char> {
    let a = replace(v, "TV 18"@, "TV18"@);
    let b = replace(a, "Tv 18"@, "TV18"@);
    let c = replace(b, "HD"@, ""@);
    let d = replace(c, "SD"@, ""@);
    join(words(d), " "@)
}

/// What `tvg_id_to_words` returns: the id before any `@`, then before any
/// `.`, spaced into words.
pub open spec fn tvg_words_spec(tvg_id: Seq<char>) -> Seq<char> {
    known_words_spec(tvg_spaced(before_char(before_char(tvg_id, '@'), '.')))
}

fn before_char_exec(s: &Vec<char>, c: char) -> (res: Vec<char>)
    ensures
        res@ == before_char(s@, c),
{
    match find_char_exec(s, c) {
        Some(i) => {
            let r = subrange(s, 0, i);
            assert(r@ =~= s@.take(i as int));
            r
        },
        None => subrange(s, 0, s.len()),
    }
}

fn push_gap(out: &mut Vec<char>, prev: char, ch: char)
    ensures
        final(out)@ == old(out)@ + tvg_gap(prev, ch),
{
    let ghost o = old(out)@;
    if is_ascii_upper(ch) && (is_ascii_lower(prev) || is_ascii_digit(prev)) {
        out.push(' ');
    }
    let ghost o1 = out@;
    if is_ascii_digit(ch) && is_ascii_alpha(prev) {
        out.push(' ');
    }
    let ghost o2 = out@;
    if is_ascii_alpha(ch) && is_ascii_digit(prev) {
        out.push(' ');
    }
    assert(out@ =~= o + tvg_gap(prev, ch));
}

fn tvg_spaced_exec(s: &Vec<char>) -> (res: Vec<char>)
    ensures
        res@ == tvg_spaced(s@),
{
    let mut out: Vec<char> = Vec::new();
    let mut i: usize = 0;
    assert(s@.take(0) =~= Seq::<char>::empty());
    while i < s.len()
        invariant
            i <= s.len(),
            out@ == tvg_spaced(s@.take(i as int)),
        decreases s.len() - i,
    {
        let ghost t = s@.take(i + 1);
        assert(t.drop_last() =~= s@.take(i as int));
        assert(t.last() == s@[i as int]);
        let ghost o = out@;
        if i > 0 {
            assert(t[t.len() - 2] == s@[i - 1]);
            push_gap(&mut out, s[i - 1], s[i]);
        } else {
            assert(out@ + Seq::<char>::empty() =~= out@);
        }
        let ch = s[i];
        if is_ascii_alnum(ch) {
            out.push(ch);
        } else {
            out.push(' ');
        }
        i = i + 1;
        assert(out@ =~= tvg_spaced(t));
    }
    assert(s@.take(i as int) =~= s@);
    out
}

/// The known tvg words: "TV 18" and "Tv 18" written "TV18", "HD" and "SD"
/// dropped, the words joined by single spaces.
pub fn normalize_known_tvg_words(value: &str) -> (res: String)
    ensures
        res@ == known_words_spec(value@),
{
    proof {
        reveal_strlit("TV 18");
        reveal_strlit("Tv 18");
        reveal_strlit("HD");
        reveal_strlit("SD");
    }
    let v = chars_of(value);
    let a = replace_str(&v, "TV 18", "TV18");
    let b = replace_str(&a, "Tv 18", "TV18");
    let c = replace_str(&b, "HD", "");
    let d = replace_str(&c, "SD", "");
    let ws = split_words(&d);
    let sep = chars_of(" ");
    let j = join_chars(&ws, &sep);
    string_of(&j)
}

/// A tvg id read as words: `ZeeNews.in@HD` reads "Zee News".
pub fn tvg_id_to_words(tvg_id: &str) -> (res: String)
    ensures
        res@ == tvg_words_spec(tvg_id@),
{
    let v = chars_of(tvg_id);
    let a = before_char_exec(&v, '@');
    let b = before_char_exec(&a, '.');
    let spaced = tvg_spaced_exec(&b);
    let s = string_of(&spaced);
    normalize_known_tvg_words(s.as_str())
}

/// How the quality of a source channel compares with the quality an
/// IPTV-org id names after its `@`.
#[derive(PartialEq, Eq, Structural, Clone, Copy, Debug)]
pub enum QualityMatch {
    /// One of the two names no quality.
    Unknown,
    /// Both name HD, or both name SD.
    Same,
    /// They name different qualities.
    Different,
}

/// The second `@`-separated part of an id, or nothing.
pub open spec fn id_quality(id: Seq<char>) -> Seq<char> {
    if split(id, '@').len() > 1 {
        split(id, '@')[1]
    } else {
        seq![]
    }
}

pub open spec fn quality_match_spec(source: Seq<char>, iptv: Seq<char>) -> QualityMatch {
    if source.len() == 0 || iptv.len() == 0 {
        QualityMatch::Unknown
    } else if contains(source, "hd"@) && contains(iptv, "hd"@) {
        QualityMatch::Same
    } else if contains(source, "sd"@) && contains(iptv, "sd"@) {
        QualityMatch::Same
    } else {
        QualityMatch::Different
    }
}

/// How a source channel's quality (lowercased, empty where it has none)
/// compares with the quality its IPTV-org id names (lowercased).
pub fn quality_match(source_quality: Option<&str>, iptv_id: &str) -> (res: QualityMatch)
    ensures
        res == quality_match_spec(
            lowercase(
                match source_quality {
                    Some(q) => q@,
                    None => seq![],
                },
            ),
            lowercase(id_quality(iptv_id@)),
        ),
{
    let q = match source_quality {
        Some(q) => chars_of(q),
        None => Vec::new(),
    };
    assert(q@ =~= match source_quality {
        Some(x) => x@,
        None => seq![],
    });
    let sq = lower_chars(&q);
    let id = chars_of(iptv_id);
    let parts = split_chars(&id, '@');
    let part = if parts.len() > 1 {
        subrange(&parts[1], 0, parts[1].len())
    } else {
        Vec::new()
    };
    proof {
        if parts@.len() > 1 {
            assert(views(parts@)[1] == parts@[1]@);
        }
        assert(part@ =~= id_quality(iptv_id@));
    }
    let iq = lower_chars(&part);
    if sq.len() == 0 || iq.len() == 0 {
        QualityMatch::Unknown
    } else if contains_str(&sq, "hd") && contains_str(&iq, "hd") {
        QualityMatch::Same
    } else if contains_str(&sq, "sd") && contains_str(&iq, "sd") {
        QualityMatch::Same
    } else {
        QualityMatch::Different
    }
}

/// Words that name no channel in particular.
pub open spec fn is_generic_word(w: Seq<char>) -> bool {
    w == "tv"@ || w == "channel"@ || w == "news"@ || w == "music"@ || w == "movies"@ || w
        == "india"@ || w == "bharat"@
}

/// Whether a name match against an IPTV-org channel is too weak to trust:
/// the source's compact name is shorter than four characters, or the
/// source is one generic word, or the tvg words read "indiatv" while
/// neither the source nor the display name does.
pub open spec fn weak_generic_spec(source_name: Seq<char>, tvg_words: Seq<char>, display: Seq<char>) -> bool {
    let source = compact_spec(source_name);
    let tvg = compact_spec(tvg_words);
    let disp = compact_spec(display);
    let ws = words(source_name);
    ||| source.len() < 4
    ||| ws.len() == 1 && is_generic_word(lowercase(ws[0]))
    ||| tvg == "indiatv"@ && source != "indiatv"@ && disp != "indiatv"@
}

fn is_generic_word_exec(w: &Vec<char>) -> (r: bool)
    ensures
        r == is_generic_word(w@),
{
    eq_str(w, "tv") || eq_str(w, "channel") || eq_str(w, "news") || eq_str(w, "music") || eq_str(
        w,
        "movies",
    ) || eq_str(w, "india") || eq_str(w, "bharat")
}

/// Whether a name match against an IPTV-org channel is too weak to trust.
pub fn weak_generic_match(source_name: &str, tvg_words: &str, iptv_display: &str) -> (r: bool)
    ensures
        r == weak_generic_spec(source_name@, tvg_words@, iptv_display@),
{
    let sv = chars_of(source_name);
    let source = compact_chars(&sv);
    let tv = chars_of(tvg_words);
    let tvg = compact_chars(&tv);
    let dv = chars_of(iptv_display);
    let display = compact_chars(&dv);
    if source.len() < 4 {
        return true;
    }
    let ws = split_words(&sv);
    if ws.len() == 1 {
        let w = lower_chars(&ws[0]);
        assert(views(ws@)[0] == ws@[0]@);
        if is_generic_word_exec(&w) {
            return true;
        }
    }
    eq_str(&tvg, "indiatv") && !eq_str(&source, "indiatv") && !eq_str(&display, "indiatv")
}

} // verus!
