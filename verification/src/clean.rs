//! Name normalisation for channel matching.
use vstd::prelude::*;

use crate::text::{
    chars_eq, chars_of, flush, opt_view, contains, words_acc, contains_exec, is_alnum, is_ascii_alnum, is_whitespace, is_ws, join,
    join_chars, lemma_views_push, lower_chars, lower_text, lowercase, is_upper, matches_at, all_ascii, replace, replace_str, split_words, string_of,
    views, words, string_views, lemma_string_views_push,
};

verus! {

/// The fixed rewrites applied to a lowercased name, in order.
pub open spec fn rewrites(lower: Seq<char>) -> Seq<char> {
    let a = replace(lower, "&"@, "&"@);
    let b = replace(a, "&"@, "and"@);
    let c = replace(b, "+"@, " plus "@);
    let d = replace(c, "@hd"@, " "@);
    let e = replace(d, "@sd"@, " "@);
    let f = replace(e, "@uhd"@, " "@);
    replace(f, "@fhd"@, " "@)
}

pub open spec fn is_open_bracket(c: char) -> bool {
    c == '(' || c == '[' || c == '{'
}

pub open spec fn is_close_bracket(c: char) -> bool {
    c == ')' || c == ']' || c == '}'
}

/// Brackets become spaces and what stands inside them is dropped.
pub open spec fn strip_brackets(s: Seq<char>, inside: bool) -> Seq<char>
    decreases s.len(),
{
    if s.len() == 0 {
        seq![]
    } else {
        let c = s[0];
        let r = s.drop_first();
        if is_open_bracket(c) {
            seq![' '] + strip_brackets(r, true)
        } else if is_close_bracket(c) {
            seq![' '] + strip_brackets(r, false)
        } else if !inside {
            seq![c] + strip_brackets(r, inside)
        } else {
            strip_brackets(r, inside)
        }
    }
}

/// ASCII letters, digits and whitespace stay; anything else becomes a space.
pub open spec fn keep_char(c: char) -> char {
    if is_alnum(c) || is_ws(c) {
        c
    } else {
        ' '
    }
}

/// Words that carry no identity of their own.
pub open spec fn is_noise(w: Seq<char>) -> bool {
    ||| w == "hd"@ || w == "sd"@ || w == "uhd"@ || w == "fhd"@ || w == "4k"@
    ||| w == "1080p"@ || w == "720p"@ || w == "576p"@ || w == "480p"@ || w == "360p"@
    ||| w == "live"@ || w == "channel"@ || w == "official"@ || w == "stream"@
    ||| w == "india"@ || w == "in"@ || w == "tv"@
}

pub open spec fn drop_noise(ws: Seq<Seq<char>>) -> Seq<Seq<char>>
    decreases ws.len(),
{
    if ws.len() == 0 {
        seq![]
    } else if is_noise(ws[0]) {
        drop_noise(ws.drop_first())
    } else {
        seq![ws[0]] + drop_noise(ws.drop_first())
    }
}

/// The words of a name after lowercasing, rewriting, dropping bracketed
/// parts, blanking punctuation and dropping noise words.
pub open spec fn clean_words(value: Seq<char>) -> Seq<Seq<char>> {
    let stripped = strip_brackets(rewrites(lower_text(value)), false);
    let mapped = stripped.map_values(|c: char| keep_char(c));
    drop_noise(words(mapped))
}

/// What `clean_name` returns: the clean words joined by single spaces.
pub open spec fn clean_spec(value: Seq<char>) -> Seq<char> {
    join(clean_words(value), " "@)
}

/// What `compact_name` returns.
pub open spec fn compact_spec(value: Seq<char>) -> Seq<char> {
    join(words(clean_spec(value)), ""@)
}

/// Distinct elements, each kept at its first occurrence.
pub open spec fn dedup(ws: Seq<Seq<char>>) -> Seq<Seq<char>>
    decreases ws.len(),
{
    if ws.len() == 0 {
        seq![]
    } else {
        let d = dedup(ws.drop_last());
        if d.contains(ws.last()) {
            d
        } else {
            d.push(ws.last())
        }
    }
}

/// What `token_set` holds: the distinct words of the clean name.
pub open spec fn token_set_spec(value: Seq<char>) -> Seq<Seq<char>> {
    dedup(words(clean_spec(value)))
}

proof fn lemma_words_acc_chars(s: Seq<char>, cur: Seq<char>, p: spec_fn(char) -> bool)
    requires
        forall|k: int| 0 <= k < s.len() && !is_ws(s[k]) ==> p(#[trigger] s[k]),
        forall|k: int| 0 <= k < cur.len() ==> p(#[trigger] cur[k]),
    ensures
        forall|i: int, k: int|
            0 <= i < words_acc(s, cur).len() && 0 <= k < words_acc(s, cur)[i].len() ==> p(
                #[trigger] words_acc(s, cur)[i][k],
            ),
    decreases s.len(),
{
    if s.len() == 0 {
        if cur.len() > 0 {
            assert(words_acc(s, cur) =~= seq![cur]);
        } else {
            assert(words_acc(s, cur) =~= Seq::<Seq<char>>::empty());
        }
    } else {
        let rest = s.drop_first();
        assert forall|k: int| 0 <= k < rest.len() && !is_ws(rest[k]) implies p(#[trigger] rest[k]) by {
            assert(rest[k] == s[k + 1]);
        }
        if is_ws(s[0]) {
            lemma_words_acc_chars(rest, seq![], p);
            let a = flush(cur);
            let b = words_acc(rest, seq![]);
            assert(words_acc(s, cur) == a + b);
            assert forall|i: int, k: int|
                0 <= i < (a + b).len() && 0 <= k < (a + b)[i].len() implies p(#[trigger] (a + b)[i][k]) by {
                if i < a.len() {
                    assert(a[i] == cur);
                } else {
                    assert((a + b)[i] == b[i - a.len()]);
                }
            }
        } else {
            let c2 = cur.push(s[0]);
            assert forall|k: int| 0 <= k < c2.len() implies p(#[trigger] c2[k]) by {
                if k < cur.len() {
                    assert(c2[k] == cur[k]);
                }
            }
            lemma_words_acc_chars(rest, c2, p);
            assert(words_acc(s, cur) == words_acc(rest, c2));
        }
    }
}

proof fn lemma_drop_noise_chars(ws: Seq<Seq<char>>, p: spec_fn(char) -> bool)
    requires
        forall|i: int, k: int| 0 <= i < ws.len() && 0 <= k < ws[i].len() ==> p(#[trigger] ws[i][k]),
    ensures
        forall|i: int, k: int|
            0 <= i < drop_noise(ws).len() && 0 <= k < drop_noise(ws)[i].len() ==> p(
                #[trigger] drop_noise(ws)[i][k],
            ),
    decreases ws.len(),
{
    if ws.len() > 0 {
        let rest = ws.drop_first();
        assert forall|i: int, k: int| 0 <= i < rest.len() && 0 <= k < rest[i].len() implies p(
            #[trigger] rest[i][k],
        ) by {
            assert(rest[i] == ws[i + 1]);
        }
        lemma_drop_noise_chars(rest, p);
        if !is_noise(ws[0]) {
            let d = drop_noise(rest);
            assert forall|i: int, k: int|
                0 <= i < (seq![ws[0]] + d).len() && 0 <= k < (seq![ws[0]] + d)[i].len() implies p(
                #[trigger] (seq![ws[0]] + d)[i][k],
            ) by {
                if i > 0 {
                    assert((seq![ws[0]] + d)[i] == d[i - 1]);
                }
            }
        }
    }
}

proof fn lemma_join_chars(ws: Seq<Seq<char>>, sep: Seq<char>, p: spec_fn(char) -> bool)
    requires
        forall|i: int, k: int| 0 <= i < ws.len() && 0 <= k < ws[i].len() ==> p(#[trigger] ws[i][k]),
        forall|k: int| 0 <= k < sep.len() ==> p(#[trigger] sep[k]),
    ensures
        forall|k: int| 0 <= k < join(ws, sep).len() ==> p(#[trigger] join(ws, sep)[k]),
    decreases ws.len(),
{
    if ws.len() == 1 {
        assert(join(ws, sep) == ws[0]);
    } else if ws.len() > 1 {
        let d = ws.drop_last();
        assert forall|i: int, k: int| 0 <= i < d.len() && 0 <= k < d[i].len() implies p(
            #[trigger] d[i][k],
        ) by {
            assert(d[i] == ws[i]);
        }
        lemma_join_chars(d, sep, p);
        let j = join(d, sep);
        let l = ws.last();
        assert(join(ws, sep) == j + sep + l);
        assert forall|k: int| 0 <= k < (j + sep + l).len() implies p(#[trigger] (j + sep + l)[k]) by {
            if k < j.len() {
                assert((j + sep + l)[k] == j[k]);
            } else if k < j.len() + sep.len() {
                assert((j + sep + l)[k] == sep[k - j.len()]);
            } else {
                assert((j + sep + l)[k] == l[k - j.len() - sep.len()]);
                assert(l == ws[ws.len() - 1]);
            }
        }
    }
}

pub open spec fn alnum_or_space(c: char) -> bool {
    is_alnum(c) || c == ' '
}

/// Clean names are made of ASCII letters, digits and single spaces; compact
/// names of ASCII letters and digits alone. Both are ASCII, so their
/// lengths in characters and in bytes agree.
pub proof fn law_clean_alphabet(value: Seq<char>)
    ensures
        forall|k: int| 0 <= k < clean_spec(value).len() ==> alnum_or_space(#[trigger] clean_spec(value)[k]),
        forall|k: int| 0 <= k < compact_spec(value).len() ==> is_alnum(#[trigger] compact_spec(value)[k]),
{
    reveal_strlit(" ");
    reveal_strlit("");
    let stripped = strip_brackets(rewrites(lower_text(value)), false);
    let mapped = stripped.map_values(|c: char| keep_char(c));
    let pa = |c: char| is_alnum(c);
    assert forall|k: int| 0 <= k < mapped.len() && !is_ws(mapped[k]) implies pa(#[trigger] mapped[k]) by {}
    lemma_words_acc_chars(mapped, seq![], pa);
    let ws = words(mapped);
    lemma_drop_noise_chars(ws, pa);
    let kept = drop_noise(ws);
    let ps = |c: char| alnum_or_space(c);
    assert forall|i: int, k: int| 0 <= i < kept.len() && 0 <= k < kept[i].len() implies ps(
        #[trigger] kept[i][k],
    ) by {
        assert(pa(kept[i][k]));
    }
    assert(" "@ =~= seq![' ']);
    lemma_join_chars(kept, " "@, ps);
    let clean = clean_spec(value);
    assert forall|k: int| 0 <= k < clean.len() && !is_ws(clean[k]) implies pa(#[trigger] clean[k]) by {
        assert(ps(clean[k]));
    }
    lemma_words_acc_chars(clean, seq![], pa);
    assert(""@ =~= Seq::<char>::empty());
    lemma_join_chars(words(clean), ""@, pa);
}

/// A lowercase ASCII letter or a digit.
pub open spec fn lower_alnum(c: char) -> bool {
    is_alnum(c) && !is_upper(c)
}

proof fn lemma_replace_pred(s: Seq<char>, pat: Seq<char>, rep: Seq<char>, p: spec_fn(char) -> bool)
    requires
        forall|k: int| 0 <= k < s.len() ==> p(#[trigger] s[k]),
        forall|k: int| 0 <= k < rep.len() ==> p(#[trigger] rep[k]),
    ensures
        forall|k: int| 0 <= k < replace(s, pat, rep).len() ==> p(#[trigger] replace(s, pat, rep)[k]),
    decreases s.len(),
{
    if s.len() == 0 || pat.len() == 0 {
    } else if matches_at(s, 0, pat) {
        let rest = s.skip(pat.len() as int);
        assert forall|k: int| 0 <= k < rest.len() implies p(#[trigger] rest[k]) by {
            assert(rest[k] == s[k + pat.len()]);
        }
        lemma_replace_pred(rest, pat, rep, p);
        let r = replace(rest, pat, rep);
        assert forall|k: int| 0 <= k < (rep + r).len() implies p(#[trigger] (rep + r)[k]) by {
            if k >= rep.len() {
                assert((rep + r)[k] == r[k - rep.len()]);
            }
        }
    } else {
        let rest = s.drop_first();
        assert forall|k: int| 0 <= k < rest.len() implies p(#[trigger] rest[k]) by {
            assert(rest[k] == s[k + 1]);
        }
        lemma_replace_pred(rest, pat, rep, p);
        let r = replace(rest, pat, rep);
        assert forall|k: int| 0 <= k < (seq![s[0]] + r).len() implies p(#[trigger] (seq![s[0]] + r)[k]) by {
            if k >= 1 {
                assert((seq![s[0]] + r)[k] == r[k - 1]);
            }
        }
    }
}

/// Replacing a pattern whose first character never occurs changes nothing.
proof fn lemma_replace_absent(s: Seq<char>, pat: Seq<char>, rep: Seq<char>)
    requires
        pat.len() > 0,
        forall|k: int| 0 <= k < s.len() ==> #[trigger] s[k] != pat[0],
    ensures
        replace(s, pat, rep) == s,
    decreases s.len(),
{
    if s.len() > 0 {
        assert(!matches_at(s, 0, pat)) by {
            if matches_at(s, 0, pat) {
                assert(s.subrange(0, pat.len() as int)[0] == s[0]);
            }
        }
        let rest = s.drop_first();
        assert forall|k: int| 0 <= k < rest.len() implies #[trigger] rest[k] != pat[0] by {
            assert(rest[k] == s[k + 1]);
        }
        lemma_replace_absent(rest, pat, rep);
        assert(seq![s[0]] + rest =~= s);
    }
}

proof fn lemma_strip_pred(s: Seq<char>, inside: bool, p: spec_fn(char) -> bool)
    requires
        forall|k: int| 0 <= k < s.len() ==> p(#[trigger] s[k]),
        p(' '),
    ensures
        forall|k: int| 0 <= k < strip_brackets(s, inside).len() ==> p(#[trigger] strip_brackets(s, inside)[k]),
    decreases s.len(),
{
    if s.len() > 0 {
        let c = s[0];
        let r = s.drop_first();
        assert forall|k: int| 0 <= k < r.len() implies p(#[trigger] r[k]) by {
            assert(r[k] == s[k + 1]);
        }
        let ins2 = if is_open_bracket(c) { true } else if is_close_bracket(c) { false } else { inside };
        lemma_strip_pred(r, ins2, p);
        let t = strip_brackets(r, ins2);
        if is_open_bracket(c) || is_close_bracket(c) || !inside {
            let h = if is_open_bracket(c) || is_close_bracket(c) { seq![' '] } else { seq![c] };
            assert(strip_brackets(s, inside) == h + t);
            assert forall|k: int| 0 <= k < (h + t).len() implies p(#[trigger] (h + t)[k]) by {
                if k >= 1 {
                    assert((h + t)[k] == t[k - 1]);
                }
            }
        }
    }
}

/// Text without brackets passes `strip_brackets` unchanged.
proof fn lemma_strip_none(s: Seq<char>)
    requires
        forall|k: int| 0 <= k < s.len() ==> !is_open_bracket(#[trigger] s[k]) && !is_close_bracket(s[k]),
    ensures
        strip_brackets(s, false) == s,
    decreases s.len(),
{
    if s.len() > 0 {
        let r = s.drop_first();
        assert forall|k: int| 0 <= k < r.len() implies !is_open_bracket(#[trigger] r[k]) && !is_close_bracket(r[k]) by {
            assert(r[k] == s[k + 1]);
        }
        lemma_strip_none(r);
        assert(seq![s[0]] + r =~= s);
    }
}

/// The words of a clean name are the kept words themselves, each made of
/// lowercase ASCII letters and digits.
proof fn lemma_clean_words_shape(value: Seq<char>)
    ensures
        forall|i: int, k: int|
            0 <= i < clean_words(value).len() && 0 <= k < clean_words(value)[i].len() ==> lower_alnum(
                #[trigger] clean_words(value)[i][k],
            ),
        forall|i: int| 0 <= i < clean_words(value).len() ==> (#[trigger] clean_words(value)[i]).len() > 0,
        forall|i: int| 0 <= i < clean_words(value).len() ==> !is_noise(#[trigger] clean_words(value)[i]),
{
    reveal_strlit("&");
    reveal_strlit("and");
    reveal_strlit("+");
    reveal_strlit(" plus ");
    reveal_strlit("@hd");
    reveal_strlit("@sd");
    reveal_strlit("@uhd");
    reveal_strlit("@fhd");
    reveal_strlit(" ");
    let nu = |c: char| !is_upper(c);
    let low = lower_text(value);
    assert forall|k: int| 0 <= k < low.len() implies nu(#[trigger] low[k]) by {}
    let a = replace(low, "&"@, "&"@);
    lemma_replace_pred(low, "&"@, "&"@, nu);
    let b = replace(a, "&"@, "and"@);
    lemma_replace_pred(a, "&"@, "and"@, nu);
    let c = replace(b, "+"@, " plus "@);
    lemma_replace_pred(b, "+"@, " plus "@, nu);
    let d = replace(c, "@hd"@, " "@);
    lemma_replace_pred(c, "@hd"@, " "@, nu);
    let e = replace(d, "@sd"@, " "@);
    lemma_replace_pred(d, "@sd"@, " "@, nu);
    let f = replace(e, "@uhd"@, " "@);
    lemma_replace_pred(e, "@uhd"@, " "@, nu);
    lemma_replace_pred(f, "@fhd"@, " "@, nu);
    let rw = rewrites(low);
    lemma_strip_pred(rw, false, nu);
    let stripped = strip_brackets(rw, false);
    let mapped = stripped.map_values(|c: char| keep_char(c));
    let pa = |c: char| lower_alnum(c);
    assert forall|k: int| 0 <= k < mapped.len() && !is_ws(mapped[k]) implies pa(#[trigger] mapped[k]) by {
        assert(nu(stripped[k]));
    }
    lemma_words_acc_chars(mapped, seq![], pa);
    let ws = words(mapped);
    crate::text::lemma_words_shape(mapped);
    lemma_drop_noise_chars(ws, pa);
    lemma_drop_noise_shape(ws);
}

proof fn lemma_drop_noise_shape(ws: Seq<Seq<char>>)
    requires
        forall|i: int| 0 <= i < ws.len() ==> (#[trigger] ws[i]).len() > 0,
    ensures
        forall|i: int| 0 <= i < drop_noise(ws).len() ==> (#[trigger] drop_noise(ws)[i]).len() > 0,
        forall|i: int| 0 <= i < drop_noise(ws).len() ==> !is_noise(#[trigger] drop_noise(ws)[i]),
        drop_noise(drop_noise(ws)) == drop_noise(ws),
    decreases ws.len(),
{
    if ws.len() > 0 {
        let rest = ws.drop_first();
        assert forall|i: int| 0 <= i < rest.len() implies (#[trigger] rest[i]).len() > 0 by {
            assert(rest[i] == ws[i + 1]);
        }
        lemma_drop_noise_shape(rest);
        if !is_noise(ws[0]) {
            let d = seq![ws[0]] + drop_noise(rest);
            assert(d[0] == ws[0]);
            assert(d.drop_first() =~= drop_noise(rest));
            assert forall|i: int| 0 <= i < d.len() implies (#[trigger] d[i]).len() > 0 && !is_noise(d[i]) by {
                if i > 0 {
                    assert(d[i] == drop_noise(rest)[i - 1]);
                }
            }
        }
    }
}

/// A run of non-whitespace characters, continued by more text.
proof fn lemma_words_acc_word(w: Seq<char>, cur: Seq<char>)
    requires
        forall|k: int| 0 <= k < w.len() ==> !is_ws(#[trigger] w[k]),
    ensures
        words_acc(w, cur) == flush(cur + w),
    decreases w.len(),
{
    if w.len() == 0 {
        assert(cur + w =~= cur);
    } else {
        let r = w.drop_first();
        assert forall|k: int| 0 <= k < r.len() implies !is_ws(#[trigger] r[k]) by {
            assert(r[k] == w[k + 1]);
        }
        lemma_words_acc_word(r, cur.push(w[0]));
        assert(cur.push(w[0]) + r =~= cur + w);
    }
}

/// A space splits the words: those before it, then those after it.
proof fn lemma_words_acc_space(a: Seq<char>, b: Seq<char>, cur: Seq<char>)
    ensures
        words_acc(a + seq![' '] + b, cur) == words_acc(a, cur) + words(b),
    decreases a.len(),
{
    let t = a + seq![' '] + b;
    if a.len() == 0 {
        assert(t[0] == ' ');
        assert(t.drop_first() =~= b);
        assert(words_acc(a, cur) == flush(cur));
    } else {
        assert(t[0] == a[0]);
        assert(t.drop_first() =~= a.drop_first() + seq![' '] + b);
        if is_ws(a[0]) {
            lemma_words_acc_space(a.drop_first(), b, seq![]);
            assert(flush(cur) + (words_acc(a.drop_first(), seq![]) + words(b)) =~= (flush(cur) + words_acc(
                a.drop_first(),
                seq![],
            )) + words(b));
        } else {
            lemma_words_acc_space(a.drop_first(), b, cur.push(a[0]));
        }
    }
}

/// Splitting nonempty words joined by single spaces gives the words back.
proof fn lemma_words_join(ws: Seq<Seq<char>>)
    requires
        forall|i: int| 0 <= i < ws.len() ==> (#[trigger] ws[i]).len() > 0,
        forall|i: int, k: int| 0 <= i < ws.len() && 0 <= k < ws[i].len() ==> !is_ws(#[trigger] ws[i][k]),
    ensures
        words(join(ws, seq![' '])) == ws,
    decreases ws.len(),
{
    if ws.len() == 0 {
        assert(words(seq![]) =~= ws);
    } else if ws.len() == 1 {
        let w = ws[0];
        assert forall|k: int| 0 <= k < w.len() implies !is_ws(#[trigger] w[k]) by {
            assert(ws[0][k] == w[k]);
        }
        lemma_words_acc_word(w, seq![]);
        assert(seq![] + w =~= w);
        assert(flush(w) =~= ws);
    } else {
        let d = ws.drop_last();
        let l = ws.last();
        assert forall|i: int| 0 <= i < d.len() implies (#[trigger] d[i]).len() > 0 by {
            assert(d[i] == ws[i]);
        }
        assert forall|i: int, k: int| 0 <= i < d.len() && 0 <= k < d[i].len() implies !is_ws(#[trigger] d[i][k]) by {
            assert(d[i] == ws[i]);
        }
        lemma_words_join(d);
        assert forall|k: int| 0 <= k < l.len() implies !is_ws(#[trigger] l[k]) by {
            assert(ws[ws.len() - 1][k] == l[k]);
        }
        lemma_words_acc_word(l, seq![]);
        assert(seq![] + l =~= l);
        lemma_words_acc_space(join(d, seq![' ']), l, seq![]);
        assert(words(join(ws, seq![' '])) =~= d + seq![l]);
        assert(d + seq![l] =~= ws);
    }
}

/// Text free of `&`, `+`, `@`, brackets and capitals, made of letters,
/// digits and spaces, comes out of the first cleaning steps as it went in.
proof fn lemma_clean_steps_fixed(c: Seq<char>)
    requires
        forall|k: int| 0 <= k < c.len() ==> lower_alnum(#[trigger] c[k]) || c[k] == ' ',
    ensures
        strip_brackets(rewrites(lower_text(c)), false).map_values(|x: char| keep_char(x)) == c,
{
    reveal_strlit("&");
    reveal_strlit("+");
    reveal_strlit("@hd");
    reveal_strlit("@sd");
    reveal_strlit("@uhd");
    reveal_strlit("@fhd");
    assert(all_ascii(c));
    assert(lower_text(c) =~= c);
    lemma_replace_absent(c, "&"@, "&"@);
    lemma_replace_absent(c, "&"@, "and"@);
    lemma_replace_absent(c, "+"@, " plus "@);
    lemma_replace_absent(c, "@hd"@, " "@);
    lemma_replace_absent(c, "@sd"@, " "@);
    lemma_replace_absent(c, "@uhd"@, " "@);
    lemma_replace_absent(c, "@fhd"@, " "@);
    assert(rewrites(c) == c);
    lemma_strip_none(c);
    assert(c.map_values(|x: char| keep_char(x)) =~= c);
}

/// Cleaning a clean name changes nothing.
pub proof fn law_clean_idempotent(value: Seq<char>)
    ensures
        clean_spec(clean_spec(value)) == clean_spec(value),
{
    reveal_strlit(" ");
    assert(" "@ =~= seq![' ']);
    let ws = clean_words(value);
    lemma_clean_words_shape(value);
    let c = clean_spec(value);
    let p = |x: char| lower_alnum(x) || x == ' ';
    assert forall|i: int, k: int| 0 <= i < ws.len() && 0 <= k < ws[i].len() implies p(#[trigger] ws[i][k]) by {}
    assert forall|k: int| 0 <= k < seq![' '].len() implies p(#[trigger] seq![' '][k]) by {}
    lemma_join_chars(ws, seq![' '], p);
    assert forall|k: int| 0 <= k < c.len() implies lower_alnum(#[trigger] c[k]) || c[k] == ' ' by {
        assert(p(c[k]));
    }
    lemma_clean_steps_fixed(c);
    lemma_words_join(ws);
    let mapped0 = strip_brackets(rewrites(lower_text(value)), false).map_values(|x: char| keep_char(x));
    crate::text::lemma_words_shape(mapped0);
    assert forall|i: int| 0 <= i < words(mapped0).len() implies (#[trigger] words(mapped0)[i]).len() > 0 by {
        assert(crate::text::is_word(words(mapped0)[i]));
    }
    lemma_drop_noise_shape(words(mapped0));
    assert(clean_words(c) == drop_noise(words(c)));
    assert(drop_noise(ws) == ws);
}

/// No word of a clean name is a noise word: "hd", "sd", "uhd", "fhd",
/// "4k", "1080p", "720p", "576p", "480p", "360p", "live", "channel",
/// "official", "stream", "india", "in" or "tv".
pub proof fn law_clean_name_drops_noise_words(value: Seq<char>)
    ensures
        forall|i: int|
            0 <= i < words(clean_spec(value)).len() ==> {
                let w = #[trigger] words(clean_spec(value))[i];
                &&& w != "hd"@ && w != "sd"@ && w != "uhd"@ && w != "fhd"@ && w != "4k"@
                &&& w != "1080p"@ && w != "720p"@ && w != "576p"@ && w != "480p"@ && w != "360p"@
                &&& w != "live"@ && w != "channel"@ && w != "official"@ && w != "stream"@
                &&& w != "india"@ && w != "in"@ && w != "tv"@
            },
{
    reveal_strlit(" ");
    assert(" "@ =~= seq![' ']);
    let ws = clean_words(value);
    lemma_clean_words_shape(value);
    assert forall|i: int, k: int| 0 <= i < ws.len() && 0 <= k < ws[i].len() implies !is_ws(
        #[trigger] ws[i][k],
    ) by {
        assert(lower_alnum(ws[i][k]));
    }
    lemma_words_join(ws);
    assert(words(clean_spec(value)) == ws);
}

/// The text with its spaces taken out.
pub open spec fn drop_spaces(s: Seq<char>) -> Seq<char>
    decreases s.len(),
{
    if s.len() == 0 {
        seq![]
    } else if s[0] == ' ' {
        drop_spaces(s.drop_first())
    } else {
        seq![s[0]] + drop_spaces(s.drop_first())
    }
}

proof fn lemma_drop_spaces_add(a: Seq<char>, b: Seq<char>)
    ensures
        drop_spaces(a + b) == drop_spaces(a) + drop_spaces(b),
    decreases a.len(),
{
    if a.len() == 0 {
        assert(a + b =~= b);
    } else {
        assert((a + b)[0] == a[0]);
        assert((a + b).drop_first() =~= a.drop_first() + b);
        lemma_drop_spaces_add(a.drop_first(), b);
        if a[0] != ' ' {
            assert(seq![a[0]] + (drop_spaces(a.drop_first()) + drop_spaces(b)) =~= (seq![a[0]]
                + drop_spaces(a.drop_first())) + drop_spaces(b));
        }
    }
}

proof fn lemma_drop_spaces_none(w: Seq<char>)
    requires
        forall|k: int| 0 <= k < w.len() ==> #[trigger] w[k] != ' ',
    ensures
        drop_spaces(w) == w,
    decreases w.len(),
{
    if w.len() > 0 {
        let r = w.drop_first();
        assert forall|k: int| 0 <= k < r.len() implies #[trigger] r[k] != ' ' by {
            assert(r[k] == w[k + 1]);
        }
        lemma_drop_spaces_none(r);
        assert(seq![w[0]] + r =~= w);
    }
}

proof fn lemma_join_without_spaces(ws: Seq<Seq<char>>)
    requires
        forall|i: int| 0 <= i < ws.len() ==> (#[trigger] ws[i]).len() > 0,
        forall|i: int, k: int| 0 <= i < ws.len() && 0 <= k < ws[i].len() ==> #[trigger] ws[i][k] != ' ',
    ensures
        drop_spaces(join(ws, seq![' '])) == join(ws, seq![]),
        (join(ws, seq![' ']).len() == 0) <==> (ws.len() == 0),
        (join(ws, seq![]).len() == 0) <==> (ws.len() == 0),
    decreases ws.len(),
{
    if ws.len() == 1 {
        let w = ws[0];
        assert forall|k: int| 0 <= k < w.len() implies #[trigger] w[k] != ' ' by {
            assert(ws[0][k] == w[k]);
        }
        lemma_drop_spaces_none(w);
    } else if ws.len() > 1 {
        let d = ws.drop_last();
        let l = ws.last();
        assert forall|i: int| 0 <= i < d.len() implies (#[trigger] d[i]).len() > 0 by {
            assert(d[i] == ws[i]);
        }
        assert forall|i: int, k: int| 0 <= i < d.len() && 0 <= k < d[i].len() implies #[trigger] d[i][k] != ' ' by {
            assert(d[i] == ws[i]);
        }
        lemma_join_without_spaces(d);
        assert forall|k: int| 0 <= k < l.len() implies #[trigger] l[k] != ' ' by {
            assert(ws[ws.len() - 1][k] == l[k]);
        }
        lemma_drop_spaces_none(l);
        let j = join(d, seq![' ']);
        lemma_drop_spaces_add(j + seq![' '], l);
        lemma_drop_spaces_add(j, seq![' ']);
        assert(drop_spaces(seq![' ']) =~= Seq::<char>::empty()) by {
            assert(seq![' '].drop_first() =~= Seq::<char>::empty());
            assert(seq![' '][0] == ' ');
            reveal_with_fuel(drop_spaces, 2);
        }
        assert(drop_spaces(j) + Seq::<char>::empty() =~= drop_spaces(j));
        assert(join(d, seq![]) + seq![] + l =~= join(d, seq![]) + l);
        assert(ws[ws.len() - 1].len() > 0);
    }
}

/// The compact name is the clean name with its spaces taken out: lowercase
/// ASCII letters and digits only, and empty exactly when the clean name is.
pub proof fn law_compact_is_clean_without_spaces(value: Seq<char>)
    ensures
        compact_spec(value) == drop_spaces(clean_spec(value)),
        forall|k: int| 0 <= k < compact_spec(value).len() ==> lower_alnum(#[trigger] compact_spec(value)[k]),
        (compact_spec(value).len() == 0) <==> (clean_spec(value).len() == 0),
{
    reveal_strlit(" ");
    reveal_strlit("");
    assert(" "@ =~= seq![' ']);
    assert(""@ =~= Seq::<char>::empty());
    let ws = clean_words(value);
    lemma_clean_words_shape(value);
    assert forall|i: int, k: int| 0 <= i < ws.len() && 0 <= k < ws[i].len() implies !is_ws(
        #[trigger] ws[i][k],
    ) by {
        assert(lower_alnum(ws[i][k]));
    }
    lemma_words_join(ws);
    assert forall|i: int, k: int| 0 <= i < ws.len() && 0 <= k < ws[i].len() implies #[trigger] ws[i][k] != ' ' by {
        assert(lower_alnum(ws[i][k]));
    }
    lemma_join_without_spaces(ws);
    let pa = |c: char| lower_alnum(c);
    assert forall|i: int, k: int| 0 <= i < ws.len() && 0 <= k < ws[i].len() implies pa(#[trigger] ws[i][k]) by {}
    lemma_join_chars(ws, seq![], pa);
}

pub fn eq_str(w: &Vec<char>, lit: &str) -> (r: bool)
    ensures
        r == (w@ == lit@),
{
    let l = chars_of(lit);
    chars_eq(w, &l)
}

pub fn contains_str(s: &Vec<char>, lit: &str) -> (r: bool)
    ensures
        r == contains(s@, lit@),
{
    let l = chars_of(lit);
    contains_exec(s, &l)
}

fn rewrite_chars(lower: &Vec<char>) -> (res: Vec<char>)
    ensures
        res@ == rewrites(lower@),
{
    proof {
        reveal_strlit("&");
        reveal_strlit("+");
        reveal_strlit("@hd");
        reveal_strlit("@sd");
        reveal_strlit("@uhd");
        reveal_strlit("@fhd");
    }
    let a = replace_str(lower, "&", "&");
    let b = replace_str(&a, "&", "and");
    let c = replace_str(&b, "+", " plus ");
    let d = replace_str(&c, "@hd", " ");
    let e = replace_str(&d, "@sd", " ");
    let f = replace_str(&e, "@uhd", " ");
    replace_str(&f, "@fhd", " ")
}

fn strip_brackets_chars(s: &Vec<char>) -> (res: Vec<char>)
    ensures
        res@ == strip_brackets(s@, false),
{
    let mut out: Vec<char> = Vec::new();
    let mut inside = false;
    let mut i: usize = 0;
    assert(s@.skip(0) =~= s@);
    while i < s.len()
        invariant
            i <= s.len(),
            out@ + strip_brackets(s@.skip(i as int), inside) == strip_brackets(s@, false),
        decreases s.len() - i,
    {
        let c = s[i];
        let ghost rest = s@.skip(i as int);
        let ghost o = out@;
        let ghost ins = inside;
        assert(rest[0] == c);
        assert(rest.drop_first() =~= s@.skip(i + 1));
        if c == '(' || c == '[' || c == '{' {
            inside = true;
            out.push(' ');
        } else if c == ')' || c == ']' || c == '}' {
            inside = false;
            out.push(' ');
        } else if !inside {
            out.push(c);
        }
        i = i + 1;
        assert(out@ + strip_brackets(s@.skip(i as int), inside) =~= o + strip_brackets(rest, ins));
    }
    assert(s@.skip(i as int) =~= Seq::<char>::empty());
    assert(out@ + Seq::<char>::empty() =~= out@);
    out
}

fn keep_chars(s: &Vec<char>) -> (res: Vec<char>)
    ensures
        res@ == s@.map_values(|c: char| keep_char(c)),
{
    let mut out: Vec<char> = Vec::new();
    let mut i: usize = 0;
    while i < s.len()
        invariant
            i <= s.len(),
            out@ == s@.take(i as int).map_values(|c: char| keep_char(c)),
        decreases s.len() - i,
    {
        let c = s[i];
        if is_ascii_alnum(c) || is_whitespace(c) {
            out.push(c);
        } else {
            out.push(' ');
        }
        i = i + 1;
        assert(out@ =~= s@.take(i as int).map_values(|c: char| keep_char(c)));
    }
    assert(s@.take(i as int) =~= s@);
    out
}

fn is_noise_exec(w: &Vec<char>) -> (r: bool)
    ensures
        r == is_noise(w@),
{
    eq_str(w, "hd") || eq_str(w, "sd") || eq_str(w, "uhd") || eq_str(w, "fhd") || eq_str(w, "4k")
        || eq_str(w, "1080p") || eq_str(w, "720p") || eq_str(w, "576p") || eq_str(w, "480p")
        || eq_str(w, "360p") || eq_str(w, "live") || eq_str(w, "channel") || eq_str(
        w,
        "official",
    ) || eq_str(w, "stream") || eq_str(w, "india") || eq_str(w, "in") || eq_str(w, "tv")
}

fn drop_noise_words(ws: &Vec<Vec<char>>) -> (res: Vec<Vec<char>>)
    ensures
        views(res@) == drop_noise(views(ws@)),
{
    let mut out: Vec<Vec<char>> = Vec::new();
    let mut i: usize = 0;
    assert(views(ws@).skip(0) =~= views(ws@));
    assert(views(out@) =~= Seq::<Seq<char>>::empty());
    while i < ws.len()
        invariant
            i <= ws.len(),
            views(out@) + drop_noise(views(ws@).skip(i as int)) == drop_noise(views(ws@)),
        decreases ws.len() - i,
    {
        let ghost rest = views(ws@).skip(i as int);
        let ghost o = views(out@);
        assert(rest[0] == ws@[i as int]@);
        assert(rest.drop_first() =~= views(ws@).skip(i + 1));
        if !is_noise_exec(&ws[i]) {
            let w = ws[i].clone();
            proof {
                lemma_views_push(out@, w);
            }
            out.push(w);
        }
        i = i + 1;
        assert(views(out@) + drop_noise(views(ws@).skip(i as int)) =~= o + drop_noise(rest));
    }
    assert(views(ws@).skip(i as int) =~= Seq::<Seq<char>>::empty());
    assert(views(out@) + Seq::<Seq<char>>::empty() =~= views(out@));
    out
}

/// `clean_name` on characters.
pub fn clean_chars(value: &Vec<char>) -> (res: Vec<char>)
    ensures
        res@ == clean_spec(value@),
{
    let lower = lower_chars(value);
    let rewritten = rewrite_chars(&lower);
    let stripped = strip_brackets_chars(&rewritten);
    let mapped = keep_chars(&stripped);
    let ws = split_words(&mapped);
    let kept = drop_noise_words(&ws);
    let sep = chars_of(" ");
    join_chars(&kept, &sep)
}

/// `compact_name` on characters.
pub fn compact_chars(value: &Vec<char>) -> (res: Vec<char>)
    ensures
        res@ == compact_spec(value@),
{
    let clean = clean_chars(value);
    let ws = split_words(&clean);
    let sep = chars_of("");
    join_chars(&ws, &sep)
}

fn contains_word(out: &Vec<Vec<char>>, w: &Vec<char>) -> (r: bool)
    ensures
        r == views(out@).contains(w@),
{
    let mut i: usize = 0;
    while i < out.len()
        invariant
            i <= out.len(),
            forall|k: int| 0 <= k < i ==> out@[k]@ != w@,
        decreases out.len() - i,
    {
        if chars_eq(&out[i], w) {
            assert(views(out@)[i as int] == w@);
            return true;
        }
        i = i + 1;
    }
    assert(!views(out@).contains(w@)) by {
        if views(out@).contains(w@) {
            let k = choose|k: int| 0 <= k < views(out@).len() && views(out@)[k] == w@;
            assert(out@[k]@ == w@);
        }
    }
    false
}

fn dedup_words(ws: &Vec<Vec<char>>) -> (res: Vec<Vec<char>>)
    ensures
        views(res@) == dedup(views(ws@)),
{
    let mut out: Vec<Vec<char>> = Vec::new();
    let mut i: usize = 0;
    assert(views(ws@).take(0) =~= Seq::<Seq<char>>::empty());
    assert(views(out@) =~= Seq::<Seq<char>>::empty());
    while i < ws.len()
        invariant
            i <= ws.len(),
            views(out@) == dedup(views(ws@).take(i as int)),
        decreases ws.len() - i,
    {
        let ghost next = views(ws@).take(i + 1);
        assert(next.drop_last() =~= views(ws@).take(i as int));
        assert(next.last() == ws@[i as int]@);
        if !contains_word(&out, &ws[i]) {
            let w = ws[i].clone();
            proof {
                lemma_views_push(out@, w);
            }
            out.push(w);
        }
        i = i + 1;
    }
    assert(views(ws@).take(i as int) =~= views(ws@));
    out
}

/// Lowercases a channel name, spells out `&` and `+`, drops quality tags,
/// bracketed parts, punctuation and noise words, and joins what remains
/// with single spaces.
pub fn clean_name(value: &str) -> (res: String)
    ensures
        res@ == clean_spec(value@),
{
    let v = chars_of(value);
    let c = clean_chars(&v);
    string_of(&c)
}

/// The clean name with its spaces removed.
pub fn compact_name(value: &str) -> (res: String)
    ensures
        res@ == compact_spec(value@),
{
    let v = chars_of(value);
    let c = compact_chars(&v);
    string_of(&c)
}

/// The distinct words of the clean name, in order of first occurrence.
pub fn token_set(value: &str) -> (res: Vec<String>)
    ensures
        string_views(res@) == token_set_spec(value@),
{
    let v = chars_of(value);
    let clean = clean_chars(&v);
    let ws = split_words(&clean);
    let d = dedup_words(&ws);
    let mut out: Vec<String> = Vec::new();
    let mut i: usize = 0;
    while i < d.len()
        invariant
            i <= d.len(),
            string_views(out@) == views(d@).take(i as int),
        decreases d.len() - i,
    {
        let s = string_of(&d[i]);
        proof {
            lemma_string_views_push(out@, s);
            assert(views(d@)[i as int] == d@[i as int]@);
            assert(views(d@).take(i + 1) =~= views(d@).take(i as int).push(d@[i as int]@));
        }
        out.push(s);
        i = i + 1;

    }
    assert(views(d@).take(i as int) =~= views(d@));
    out
}

/// The number of distinct words in the clean name.
pub fn meaningful_token_count(value: &str) -> (res: usize)
    ensures
        res == token_set_spec(value@).len(),
{
    let t = token_set(value);
    assert(string_views(t@).len() == t@.len());
    t.len()
}

/// The quality class a label names, if any: 4K before HD before SD.
pub open spec fn quality_spec(lower: Seq<char>) -> Option<Seq<char>> {
    if contains(lower, "4k"@) || contains(lower, "uhd"@) {
        Some("4K"@)
    } else if contains(lower, "hd"@) || contains(lower, "1080p"@) || contains(lower, "720p"@) {
        Some("HD"@)
    } else if contains(lower, "sd"@) || contains(lower, "576p"@) || contains(lower, "480p"@) {
        Some("SD"@)
    } else {
        None
    }
}

/// Maps a quality label to "4K", "HD" or "SD", looking for tags in its
/// lowercase form; `None` where there is no label or no known tag.
pub fn normalize_quality(value: Option<&str>) -> (res: Option<String>)
    ensures
        value is None ==> res is None,
        value matches Some(v) ==> opt_view(res) == quality_spec(lowercase(v@)),
{
    let v = match value {
        Some(v) => v,
        None => return None,
    };
    let raw = chars_of(v);
    let lower = lower_chars(&raw);
    if contains_str(&lower, "4k") || contains_str(&lower, "uhd") {
        Some(String::from_str("4K"))
    } else if contains_str(&lower, "hd") || contains_str(&lower, "1080p") || contains_str(
        &lower,
        "720p",
    ) {
        Some(String::from_str("HD"))
    } else if contains_str(&lower, "sd") || contains_str(&lower, "576p") || contains_str(
        &lower,
        "480p",
    ) {
        Some(String::from_str("SD"))
    } else {
        None
    }
}

/// The quality class named inside a channel name.
pub fn infer_quality_from_name(name: &str) -> (res: Option<String>)
    ensures
        opt_view(res) == quality_spec(lowercase(name@)),
{
    normalize_quality(Some(name))
}

/// The quality class of a label: "4K" wherever "4k" or "uhd" occurs (even
/// though "uhd" also holds "hd"); otherwise "HD" wherever "hd", "1080p" or
/// "720p" occurs; otherwise "SD" wherever "sd", "576p" or "480p" occurs;
/// otherwise none.
pub proof fn law_quality_order(lower: Seq<char>)
    ensures
        contains(lower, "4k"@) || contains(lower, "uhd"@) ==> quality_spec(lower) == Some("4K"@),
        !contains(lower, "4k"@) && !contains(lower, "uhd"@) && (contains(lower, "hd"@) || contains(
            lower,
            "1080p"@,
        ) || contains(lower, "720p"@)) ==> quality_spec(lower) == Some("HD"@),
        !contains(lower, "4k"@) && !contains(lower, "uhd"@) && !contains(lower, "hd"@) && !contains(
            lower,
            "1080p"@,
        ) && !contains(lower, "720p"@) && (contains(lower, "sd"@) || contains(lower, "576p"@)
            || contains(lower, "480p"@)) ==> quality_spec(lower) == Some("SD"@),
        quality_spec(lower) is None <==> !(contains(lower, "4k"@) || contains(lower, "uhd"@)
            || contains(lower, "hd"@) || contains(lower, "1080p"@) || contains(lower, "720p"@)
            || contains(lower, "sd"@) || contains(lower, "576p"@) || contains(lower, "480p"@)),
{
}

} // verus!
