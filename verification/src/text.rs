//! Character-level text operations over `Seq<char>`, with the executable
//! versions that the rest of the library builds on.
use vstd::prelude::*;

verus! {

// ------------------------------------------------------------------
// Character classes
// ------------------------------------------------------------------

/// Unicode `White_Space`, the set that `char::is_whitespace` tests.
pub open spec fn is_ws(c: char) -> bool {
    ||| c == '\t' || c == '\n' || c == '\x0B' || c == '\x0C' || c == '\r' || c == ' '
    ||| c == '\u{85}' || c == '\u{A0}' || c == '\u{1680}'
    ||| ('\u{2000}' <= c && c <= '\u{200A}')
    ||| c == '\u{2028}' || c == '\u{2029}' || c == '\u{202F}' || c == '\u{205F}'
    ||| c == '\u{3000}'
}

pub open spec fn is_digit(c: char) -> bool {
    '0' <= c && c <= '9'
}

pub open spec fn is_upper(c: char) -> bool {
    'A' <= c && c <= 'Z'
}

pub open spec fn is_lower(c: char) -> bool {
    'a' <= c && c <= 'z'
}

pub open spec fn is_alpha(c: char) -> bool {
    is_upper(c) || is_lower(c)
}

pub open spec fn is_alnum(c: char) -> bool {
    is_alpha(c) || is_digit(c)
}

/// Every character of `s` is ASCII.
pub open spec fn all_ascii(s: Seq<char>) -> bool {
    forall|i: int| 0 <= i < s.len() ==> (s[i] as u32) < 128
}

pub open spec fn ascii_lower(c: char) -> char {
    if is_upper(c) {
        ((c as u32) + 32) as char
    } else {
        c
    }
}

pub open spec fn ascii_upper(c: char) -> char {
    if is_lower(c) {
        ((c as u32) - 32) as char
    } else {
        c
    }
}

pub fn is_whitespace(c: char) -> (b: bool)
    ensures
        b == is_ws(c),
{
    c == '\t' || c == '\n' || c == '\x0B' || c == '\x0C' || c == '\r' || c == ' ' || c == '\u{85}'
        || c == '\u{A0}' || c == '\u{1680}' || ('\u{2000}' <= c && c <= '\u{200A}') || c
        == '\u{2028}' || c == '\u{2029}' || c == '\u{202F}' || c == '\u{205F}' || c == '\u{3000}'
}

pub fn is_ascii_digit(c: char) -> (b: bool)
    ensures
        b == is_digit(c),
{
    '0' <= c && c <= '9'
}

pub fn is_ascii_upper(c: char) -> (b: bool)
    ensures
        b == is_upper(c),
{
    'A' <= c && c <= 'Z'
}

pub fn is_ascii_lower(c: char) -> (b: bool)
    ensures
        b == is_lower(c),
{
    'a' <= c && c <= 'z'
}

pub fn is_ascii_alpha(c: char) -> (b: bool)
    ensures
        b == is_alpha(c),
{
    is_ascii_upper(c) || is_ascii_lower(c)
}

pub fn is_ascii_alnum(c: char) -> (b: bool)
    ensures
        b == is_alnum(c),
{
    is_ascii_alpha(c) || is_ascii_digit(c)
}

/// `char::to_ascii_lowercase`.
pub fn ascii_lower_char(c: char) -> (res: char)
    ensures
        res == ascii_lower(c),
{
    if is_ascii_upper(c) {
        let code = (c as u32) + 32;
        assert(65 <= c as u32 <= 90);
        ((code as u8) as char)
    } else {
        c
    }
}

// ------------------------------------------------------------------
// Conversions between `str`/`String` and `Vec<char>`
// ------------------------------------------------------------------

/// The characters of a string slice, in order.
pub fn chars_of(s: &str) -> (res: Vec<char>)
    ensures
        res@ == s@,
{
    let mut out: Vec<char> = Vec::new();
    for c in it: s.chars()
        invariant
            out@ == it.seq().take(it.index() as int),
            it.seq() == s@,
    {
        out.push(c);
    }
    out
}

/// `String::push`: appends one character at the end.
#[verifier::external_body]
fn push_char(s: &mut String, c: char)
    ensures
        final(s)@ == old(s)@.push(c),
{
    s.push(c);
}

/// The string made of the given characters.
pub fn string_of(v: &Vec<char>) -> (res: String)
    ensures
        res@ == v@,
{
    let mut out = String::new();
    let mut i: usize = 0;
    while i < v.len()
        invariant
            i <= v.len(),
            out@ == v@.take(i as int),
        decreases v.len() - i,
    {
        push_char(&mut out, v[i]);
        i = i + 1;
        assert(out@ =~= v@.take(i as int));
    }
    assert(v@.take(i as int) =~= v@);
    out
}

/// What `str::to_lowercase` returns: Unicode lowercase of the whole string.
pub uninterp spec fn lowercase(s: Seq<char>) -> Seq<char>;

/// What `str::to_uppercase` returns: Unicode uppercase of the whole string.
pub uninterp spec fn uppercase(s: Seq<char>) -> Seq<char>;

/// `str::to_lowercase`. Its result is named `lowercase`; on ASCII input it is
/// the ASCII lowercase mapping, character by character, as the std
/// documentation's definition gives for that range. Whatever the input, the
/// result holds no ASCII capital letter, since every capital has a
/// lowercase mapping. Nothing more of the Unicode case tables is stated.
#[verifier::external_body]
fn to_lowercase(s: &str) -> (res: String)
    ensures
        res@ == lowercase(s@),
        all_ascii(s@) ==> res@ == s@.map_values(|c: char| ascii_lower(c)),
        forall|i: int| 0 <= i < res@.len() ==> !is_upper(#[trigger] res@[i]),
{
    s.to_lowercase()
}

/// `str::to_uppercase`. Its result is named `uppercase`; on ASCII input it is
/// the ASCII uppercase mapping, character by character.
#[verifier::external_body]
fn to_uppercase(s: &str) -> (res: String)
    ensures
        res@ == uppercase(s@),
        all_ascii(s@) ==> res@ == s@.map_values(|c: char| ascii_upper(c)),
{
    s.to_uppercase()
}

/// What `str::to_lowercase` gives, as far as it is stated: on ASCII text
/// the ASCII mapping; on other text the Unicode lowercase, which holds no
/// ASCII capital, so that mapping it once more through `ascii_lower` changes
/// nothing.
pub open spec fn lower_text(s: Seq<char>) -> Seq<char> {
    if all_ascii(s) {
        s.map_values(|c: char| ascii_lower(c))
    } else {
        lowercase(s).map_values(|c: char| ascii_lower(c))
    }
}

/// Lowercase of a character sequence, through `str::to_lowercase`.
pub fn lower_chars(s: &Vec<char>) -> (res: Vec<char>)
    ensures
        res@ == lowercase(s@),
        res@ == lower_text(s@),
        all_ascii(s@) ==> res@ == s@.map_values(|c: char| ascii_lower(c)),
        forall|i: int| 0 <= i < res@.len() ==> !is_upper(#[trigger] res@[i]),
{
    let st = string_of(s);
    let low = to_lowercase(st.as_str());
    let out = chars_of(low.as_str());
    assert(out@ == lower_text(s@)) by {
        if !all_ascii(s@) {
            assert(out@ =~= lowercase(s@).map_values(|c: char| ascii_lower(c)));
        }
    }
    out
}

/// Uppercase of a character sequence, through `str::to_uppercase`.
pub fn upper_chars(s: &Vec<char>) -> (res: Vec<char>)
    ensures
        res@ == uppercase(s@),
        all_ascii(s@) ==> res@ == s@.map_values(|c: char| ascii_upper(c)),
{
    let st = string_of(s);
    let up = to_uppercase(st.as_str());
    chars_of(up.as_str())
}

// ------------------------------------------------------------------
// Slices and concatenation
// ------------------------------------------------------------------

pub fn subrange(v: &Vec<char>, lo: usize, hi: usize) -> (res: Vec<char>)
    requires
        lo <= hi <= v.len(),
    ensures
        res@ == v@.subrange(lo as int, hi as int),
{
    let mut out: Vec<char> = Vec::new();
    let mut i: usize = lo;
    while i < hi
        invariant
            lo <= i <= hi <= v.len(),
            out@ == v@.subrange(lo as int, i as int),
        decreases hi - i,
    {
        out.push(v[i]);
        i = i + 1;
        assert(out@ =~= v@.subrange(lo as int, i as int));
    }
    out
}

/// Appends all of `b` to `a`.
pub fn append_chars(a: &mut Vec<char>, b: &Vec<char>)
    ensures
        final(a)@ == old(a)@ + b@,
{
    let mut i: usize = 0;
    while i < b.len()
        invariant
            i <= b.len(),
            a@ == old(a)@ + b@.take(i as int),
        decreases b.len() - i,
    {
        a.push(b[i]);
        i = i + 1;
        assert(a@ =~= old(a)@ + b@.take(i as int));
    }
    assert(b@.take(i as int) =~= b@);
}

/// Appends the characters of a string slice to `a`.
pub fn append_str(a: &mut Vec<char>, s: &str)
    ensures
        final(a)@ == old(a)@ + s@,
{
    let cs = chars_of(s);
    append_chars(a, &cs);
}

pub fn chars_eq(a: &Vec<char>, b: &Vec<char>) -> (r: bool)
    ensures
        r == (a@ == b@),
{
    if a.len() != b.len() {
        return false;
    }
    let mut i: usize = 0;
    while i < a.len()
        invariant
            a.len() == b.len(),
            i <= a.len(),
            forall|k: int| 0 <= k < i ==> a@[k] == b@[k],
        decreases a.len() - i,
    {
        if a[i] != b[i] {
            return false;
        }
        i = i + 1;
    }
    assert(a@ =~= b@);
    true
}

// ------------------------------------------------------------------
// Trimming
// ------------------------------------------------------------------

pub open spec fn trim_start(s: Seq<char>) -> Seq<char>
    decreases s.len(),
{
    if s.len() > 0 && is_ws(s[0]) {
        trim_start(s.drop_first())
    } else {
        s
    }
}

pub open spec fn trim_end(s: Seq<char>) -> Seq<char>
    decreases s.len(),
{
    if s.len() > 0 && is_ws(s.last()) {
        trim_end(s.drop_last())
    } else {
        s
    }
}

/// `str::trim`: whitespace removed at both ends.
pub open spec fn trim(s: Seq<char>) -> Seq<char> {
    trim_end(trim_start(s))
}

pub proof fn lemma_trim_start_skip(s: Seq<char>, i: int)
    requires
        0 <= i <= s.len(),
        forall|k: int| 0 <= k < i ==> is_ws(#[trigger] s[k]),
        i == s.len() || !is_ws(s[i]),
    ensures
        trim_start(s) == s.skip(i),
    decreases i,
{
    if i == 0 {
        assert(s.skip(0) =~= s);
    } else {
        let t = s.drop_first();
        assert forall|k: int| 0 <= k < i - 1 implies is_ws(#[trigger] t[k]) by {
            assert(t[k] == s[k + 1]);
        }
        lemma_trim_start_skip(t, i - 1);
        assert(t.skip(i - 1) =~= s.skip(i));
    }
}

pub proof fn lemma_trim_end_take(s: Seq<char>, j: int)
    requires
        0 <= j <= s.len(),
        forall|k: int| j <= k < s.len() ==> is_ws(#[trigger] s[k]),
        j == 0 || !is_ws(s[j - 1]),
    ensures
        trim_end(s) == s.take(j),
    decreases s.len() - j,
{
    if j == s.len() {
        assert(s.take(j) =~= s);
    } else {
        let t = s.drop_last();
        assert forall|k: int| j <= k < t.len() implies is_ws(#[trigger] t[k]) by {
            assert(t[k] == s[k]);
        }
        lemma_trim_end_take(t, j);
        assert(t.take(j) =~= s.take(j));
    }
}

pub proof fn lemma_trim_start_ws_free_start(s: Seq<char>)
    ensures
        trim_start(s).len() > 0 ==> !is_ws(trim_start(s)[0]),
        trim_start(s).len() <= s.len(),
    decreases s.len(),
{
    if s.len() > 0 && is_ws(s[0]) {
        lemma_trim_start_ws_free_start(s.drop_first());
    }
}

pub proof fn lemma_trim_end_shape(s: Seq<char>)
    ensures
        trim_end(s) == s.take(trim_end(s).len() as int),
        trim_end(s).len() <= s.len(),
        trim_end(s).len() > 0 ==> !is_ws(trim_end(s).last()),
    decreases s.len(),
{
    if s.len() > 0 && is_ws(s.last()) {
        lemma_trim_end_shape(s.drop_last());
        assert(s.drop_last().take(trim_end(s).len() as int) =~= s.take(trim_end(s).len() as int));
    } else {
        assert(s.take(s.len() as int) =~= s);
    }
}

/// Trimming twice trims no more than trimming once.
pub proof fn lemma_trim_idempotent(s: Seq<char>)
    ensures
        trim(trim(s)) == trim(s),
{
    let u = trim_start(s);
    let t = trim_end(u);
    lemma_trim_start_ws_free_start(s);
    lemma_trim_end_shape(u);
    if t.len() > 0 {
        assert(t[0] == u[0]);
        assert(trim_start(t) == t);
        assert(trim_end(t) == t);
    } else {
        assert(trim_start(t) == t);
        assert(trim_end(t) == t);
    }
}

/// `str::trim` on a character vector.
pub fn trim_chars(s: &Vec<char>) -> (res: Vec<char>)
    ensures
        res@ == trim(s@),
{
    let n = s.len();
    let mut i: usize = 0;
    while i < n && is_whitespace(s[i])
        invariant
            i <= n == s.len(),
            forall|k: int| 0 <= k < i ==> is_ws(#[trigger] s@[k]),
        decreases n - i,
    {
        i = i + 1;
    }
    proof {
        lemma_trim_start_skip(s@, i as int);
    }
    let mut j: usize = n;
    while j > i && is_whitespace(s[j - 1])
        invariant
            i <= j <= n == s.len(),
            forall|k: int| j <= k < n ==> is_ws(#[trigger] s@[k]),
        decreases j,
    {
        j = j - 1;
    }
    let ghost t = s@.skip(i as int);
    proof {
        assert forall|k: int| (j - i) <= k < t.len() implies is_ws(#[trigger] t[k]) by {
            assert(t[k] == s@[k + i]);
        }
        if j > i {
            assert(t[j - i - 1] == s@[j - 1]);
        }
        lemma_trim_end_take(t, (j - i) as int);
        assert(t.take((j - i) as int) =~= s@.subrange(i as int, j as int));
    }
    subrange(s, i, j)
}

// ------------------------------------------------------------------
// Splitting into whitespace-separated words (`split_whitespace`)
// ------------------------------------------------------------------

pub open spec fn flush(cur: Seq<char>) -> Seq<Seq<char>> {
    if cur.len() > 0 {
        seq![cur]
    } else {
        seq![]
    }
}

pub open spec fn words_acc(s: Seq<char>, cur: Seq<char>) -> Seq<Seq<char>>
    decreases s.len(),
{
    if s.len() == 0 {
        flush(cur)
    } else if is_ws(s[0]) {
        flush(cur) + words_acc(s.drop_first(), seq![])
    } else {
        words_acc(s.drop_first(), cur.push(s[0]))
    }
}

/// `str::split_whitespace`: the maximal runs of non-whitespace characters.
pub open spec fn words(s: Seq<char>) -> Seq<Seq<char>> {
    words_acc(s, seq![])
}

/// The view of an optional string.
pub open spec fn opt_view(o: Option<String>) -> Option<Seq<char>> {
    match o {
        Some(s) => Some(s@),
        None => None,
    }
}

/// The views of a sequence of strings.
pub open spec fn string_views(v: Seq<String>) -> Seq<Seq<char>> {
    v.map_values(|x: String| x@)
}

pub proof fn lemma_string_views_push(v: Seq<String>, x: String)
    ensures
        string_views(v.push(x)) == string_views(v).push(x@),
{
    assert(string_views(v.push(x)) =~= string_views(v).push(x@));
}

/// The view of an optional character vector.
pub open spec fn opt_chars_view(o: Option<Vec<char>>) -> Option<Seq<char>> {
    match o {
        Some(v) => Some(v@),
        None => None,
    }
}

pub open spec fn views(v: Seq<Vec<char>>) -> Seq<Seq<char>> {
    v.map_values(|x: Vec<char>| x@)
}

pub proof fn lemma_views_push(v: Seq<Vec<char>>, x: Vec<char>)
    ensures
        views(v.push(x)) == views(v).push(x@),
{
    assert(views(v.push(x)) =~= views(v).push(x@));
}

/// A nonempty run of non-whitespace characters.
pub open spec fn is_word(w: Seq<char>) -> bool {
    w.len() > 0 && forall|k: int| 0 <= k < w.len() ==> !is_ws(#[trigger] w[k])
}

pub open spec fn all_words(ws: Seq<Seq<char>>) -> bool {
    forall|i: int| 0 <= i < ws.len() ==> is_word(#[trigger] ws[i])
}

pub proof fn lemma_words_acc_shape(s: Seq<char>, cur: Seq<char>)
    requires
        forall|k: int| 0 <= k < cur.len() ==> !is_ws(#[trigger] cur[k]),
    ensures
        all_words(words_acc(s, cur)),
    decreases s.len(),
{
    if s.len() == 0 {
        assert(words_acc(s, cur) == flush(cur));
        if cur.len() > 0 {
            assert(flush(cur) =~= seq![cur]);
            assert(is_word(cur));
        } else {
            assert(flush(cur) =~= Seq::<Seq<char>>::empty());
        }
    } else if is_ws(s[0]) {
        lemma_words_acc_shape(s.drop_first(), seq![]);
        let a = flush(cur);
        let b = words_acc(s.drop_first(), seq![]);
        assert(words_acc(s, cur) == a + b);
        if cur.len() > 0 {
            assert(a =~= seq![cur]);
            assert(is_word(cur));
        } else {
            assert(a =~= Seq::<Seq<char>>::empty());
        }
        assert forall|i: int| 0 <= i < (a + b).len() implies is_word(#[trigger] (a + b)[i]) by {
            if i < a.len() {
                assert((a + b)[i] == a[i]);
            } else {
                assert((a + b)[i] == b[i - a.len()]);
            }
        }
    } else {
        let c2 = cur.push(s[0]);
        assert forall|k: int| 0 <= k < c2.len() implies !is_ws(#[trigger] c2[k]) by {
            if k < cur.len() {
                assert(c2[k] == cur[k]);
            }
        }
        lemma_words_acc_shape(s.drop_first(), c2);
    }
}

/// Each word is nonempty and holds no whitespace.
pub proof fn lemma_words_shape(s: Seq<char>)
    ensures
        all_words(words(s)),
{
    lemma_words_acc_shape(s, seq![]);
}

/// `str::split_whitespace` on a character vector.
pub fn split_words(s: &Vec<char>) -> (res: Vec<Vec<char>>)
    ensures
        views(res@) == words(s@),
        all_words(views(res@)),
{
    let mut out: Vec<Vec<char>> = Vec::new();
    let mut cur: Vec<char> = Vec::new();
    let mut i: usize = 0;
    proof {
        assert(s@.skip(0) =~= s@);
        assert(views(out@) =~= Seq::<Seq<char>>::empty());
    }
    while i < s.len()
        invariant
            i <= s.len(),
            views(out@) + words_acc(s@.skip(i as int), cur@) == words(s@),
        decreases s.len() - i,
    {
        let c = s[i];
        let ghost rest = s@.skip(i as int);
        assert(rest[0] == c);
        assert(rest.drop_first() =~= s@.skip(i + 1));
        let ghost ov = views(out@);
        let ghost cv = cur@;
        if is_whitespace(c) {
            assert(words_acc(rest, cv) == flush(cv) + words_acc(s@.skip(i + 1), seq![]));
            if cur.len() > 0 {
                proof {
                    lemma_views_push(out@, cur);
                }
                out.push(cur);
                cur = Vec::new();
                assert(views(out@) + words_acc(s@.skip(i + 1), cur@) =~= ov + (flush(cv)
                    + words_acc(s@.skip(i + 1), seq![])));
            } else {
                assert(cv =~= Seq::<char>::empty());
                assert(flush(cv) =~= Seq::<Seq<char>>::empty());
                assert(flush(cv) + words_acc(s@.skip(i + 1), seq![]) =~= words_acc(
                    s@.skip(i + 1),
                    cur@,
                ));
            }
        } else {
            cur.push(c);
        }
        i = i + 1;
    }
    assert(s@.skip(i as int) =~= Seq::<char>::empty());
    if cur.len() > 0 {
        proof {
            lemma_views_push(out@, cur);
        }
        out.push(cur);
    }
    assert(views(out@) =~= words(s@));
    proof {
        lemma_words_shape(s@);
    }
    out
}

// ------------------------------------------------------------------
// Joining
// ------------------------------------------------------------------

/// `[..].join(sep)`.
pub open spec fn join(ws: Seq<Seq<char>>, sep: Seq<char>) -> Seq<char>
    decreases ws.len(),
{
    if ws.len() == 0 {
        seq![]
    } else if ws.len() == 1 {
        ws[0]
    } else {
        join(ws.drop_last(), sep) + sep + ws.last()
    }
}

pub fn join_chars(ws: &Vec<Vec<char>>, sep: &Vec<char>) -> (res: Vec<char>)
    ensures
        res@ == join(views(ws@), sep@),
{
    let mut out: Vec<char> = Vec::new();
    let mut i: usize = 0;
    assert(views(ws@).take(0) =~= Seq::<Seq<char>>::empty());
    while i < ws.len()
        invariant
            i <= ws.len(),
            out@ == join(views(ws@).take(i as int), sep@),
        decreases ws.len() - i,
    {
        let ghost prev = views(ws@).take(i as int);
        let ghost next = views(ws@).take(i + 1);
        assert(next.drop_last() =~= prev);
        assert(next.last() == ws@[i as int]@);
        if i > 0 {
            append_chars(&mut out, sep);
        } else {
            assert(out@ =~= Seq::<char>::empty());
        }
        append_chars(&mut out, &ws[i]);
        i = i + 1;
        if i == 1 {
            assert(out@ =~= next[0]);
        } else {
            assert(out@ =~= join(prev, sep@) + sep@ + next.last());
        }
    }
    assert(views(ws@).take(i as int) =~= views(ws@));
    out
}

// ------------------------------------------------------------------
// Matching substrings
// ------------------------------------------------------------------

/// `pat` occurs in `s` at position `i`.
pub open spec fn matches_at(s: Seq<char>, i: int, pat: Seq<char>) -> bool {
    0 <= i && i + pat.len() <= s.len() && s.subrange(i, i + pat.len()) == pat
}

/// `str::starts_with`.
pub open spec fn starts_with(s: Seq<char>, pat: Seq<char>) -> bool {
    matches_at(s, 0, pat)
}

/// `str::contains`.
pub open spec fn contains(s: Seq<char>, pat: Seq<char>) -> bool {
    exists|i: int| matches_at(s, i, pat)
}

/// The first position at or after `i` where `pat` occurs.
pub open spec fn find_from(s: Seq<char>, pat: Seq<char>, i: int) -> Option<int>
    decreases s.len() + 1 - i,
{
    if i < 0 || i + pat.len() > s.len() {
        None
    } else if matches_at(s, i, pat) {
        Some(i)
    } else {
        find_from(s, pat, i + 1)
    }
}

/// `str::find`: the first position where `pat` occurs.
pub open spec fn find(s: Seq<char>, pat: Seq<char>) -> Option<int> {
    find_from(s, pat, 0)
}

/// `str::rfind` of one character: the last position where `c` occurs.
pub open spec fn rfind_char(s: Seq<char>, c: char) -> Option<int>
    decreases s.len(),
{
    if s.len() == 0 {
        None
    } else if s.last() == c {
        Some(s.len() - 1)
    } else {
        rfind_char(s.drop_last(), c)
    }
}

pub proof fn lemma_find_from_facts(s: Seq<char>, pat: Seq<char>, i: int)
    requires
        0 <= i,
    ensures
        find_from(s, pat, i) matches Some(j) ==> i <= j && matches_at(s, j, pat) && forall|k: int|
            i <= k < j ==> !matches_at(s, k, pat),
        find_from(s, pat, i) is None ==> forall|k: int| i <= k ==> !matches_at(s, k, pat),
    decreases s.len() + 1 - i,
{
    if i + pat.len() > s.len() {
    } else if matches_at(s, i, pat) {
    } else {
        lemma_find_from_facts(s, pat, i + 1);
    }
}

/// `find(s, pat)` is the first occurrence, and `None` means there is none.
pub proof fn lemma_find_facts(s: Seq<char>, pat: Seq<char>)
    ensures
        find(s, pat) matches Some(j) ==> matches_at(s, j, pat) && forall|k: int|
            0 <= k < j ==> !matches_at(s, k, pat),
        find(s, pat) is None <==> !contains(s, pat),
{
    lemma_find_from_facts(s, pat, 0);
}

pub proof fn lemma_rfind_char_facts(s: Seq<char>, c: char)
    ensures
        rfind_char(s, c) matches Some(j) ==> 0 <= j < s.len() && s[j] == c && forall|k: int|
            j < k < s.len() ==> s[k] != c,
        rfind_char(s, c) is None ==> forall|k: int| 0 <= k < s.len() ==> s[k] != c,
    decreases s.len(),
{
    if s.len() > 0 && s.last() != c {
        lemma_rfind_char_facts(s.drop_last(), c);
        assert forall|k: int| 0 <= k < s.len() - 1 implies s[k] == s.drop_last()[k] by {}
    }
}

/// Whether `pat` occurs at position `i` of `s`.
pub fn matches_at_exec(s: &Vec<char>, i: usize, pat: &Vec<char>) -> (r: bool)
    ensures
        r == matches_at(s@, i as int, pat@),
{
    if i > s.len() || pat.len() > s.len() - i {
        return false;
    }
    let mut k: usize = 0;
    while k < pat.len()
        invariant
            i + pat.len() <= s.len(),
            k <= pat.len(),
            forall|m: int| 0 <= m < k ==> s@[i + m] == pat@[m],
        decreases pat.len() - k,
    {
        if s[i + k] != pat[k] {
            assert(s@.subrange(i as int, i + pat.len())[k as int] != pat@[k as int]);
            return false;
        }
        k = k + 1;
    }
    assert(s@.subrange(i as int, i + pat.len()) =~= pat@);
    true
}

pub fn starts_with_exec(s: &Vec<char>, pat: &Vec<char>) -> (r: bool)
    ensures
        r == starts_with(s@, pat@),
{
    matches_at_exec(s, 0, pat)
}

pub fn find_exec(s: &Vec<char>, pat: &Vec<char>) -> (r: Option<usize>)
    ensures
        r matches Some(j) ==> (find(s@, pat@) == Some(j as int) && j + pat@.len() <= s@.len()),
        r is None ==> find(s@, pat@) is None,
{
    if pat.len() == 0 {
        assert(s@.subrange(0, 0) =~= pat@);
        return Some(0);
    }
    let mut i: usize = 0;
    while i <= s.len() && pat.len() <= s.len() - i
        invariant
            pat.len() > 0,
            i <= s.len(),
            find_from(s@, pat@, 0) == find_from(s@, pat@, i as int),
        decreases s.len() + 1 - i,
    {
        if matches_at_exec(s, i, pat) {
            return Some(i);
        }
        i = i + 1;
    }
    None
}

pub fn contains_exec(s: &Vec<char>, pat: &Vec<char>) -> (r: bool)
    ensures
        r == contains(s@, pat@),
{
    proof {
        lemma_find_facts(s@, pat@);
    }
    match find_exec(s, pat) {
        Some(_) => true,
        None => false,
    }
}

pub fn rfind_char_exec(s: &Vec<char>, c: char) -> (r: Option<usize>)
    ensures
        r matches Some(j) ==> (rfind_char(s@, c) == Some(j as int) && j < s@.len()),
        r is None ==> rfind_char(s@, c) is None,
{
    let mut j: usize = s.len();
    assert(s@.take(j as int) =~= s@);
    while j > 0
        invariant
            j <= s.len(),
            rfind_char(s@, c) == rfind_char(s@.take(j as int), c),
        decreases j,
    {
        let ghost t = s@.take(j as int);
        assert(t.last() == s@[j - 1]);
        if s[j - 1] == c {
            return Some(j - 1);
        }
        assert(t.drop_last() =~= s@.take(j - 1));
        j = j - 1;
    }
    None
}

/// Position of the first occurrence of character `c`, if any.
pub open spec fn find_char(s: Seq<char>, c: char) -> Option<int> {
    find(s, seq![c])
}

pub fn find_char_exec(s: &Vec<char>, c: char) -> (r: Option<usize>)
    ensures
        r matches Some(j) ==> (find_char(s@, c) == Some(j as int) && j < s@.len()),
        r is None ==> find_char(s@, c) is None,
{
    let mut p: Vec<char> = Vec::new();
    p.push(c);
    assert(p@ =~= seq![c]);
    find_exec(s, &p)
}

// ------------------------------------------------------------------
// Replacing
// ------------------------------------------------------------------

/// `str::replace(pat, rep)` for a nonempty `pat`: occurrences are taken
/// from left to right without overlap.
pub open spec fn replace(s: Seq<char>, pat: Seq<char>, rep: Seq<char>) -> Seq<char>
    decreases s.len(),
{
    if s.len() == 0 || pat.len() == 0 {
        s
    } else if matches_at(s, 0, pat) {
        rep + replace(s.skip(pat.len() as int), pat, rep)
    } else {
        seq![s[0]] + replace(s.drop_first(), pat, rep)
    }
}

/// No character of `s` is `c`.
pub open spec fn lacks(s: Seq<char>, c: char) -> bool {
    forall|k: int| 0 <= k < s.len() ==> s[k] != c
}

/// Replacing text free of `c` with text free of `c` brings in no `c`.
pub proof fn lemma_replace_keeps_out(s: Seq<char>, pat: Seq<char>, rep: Seq<char>, c: char)
    requires
        lacks(s, c),
        lacks(rep, c),
    ensures
        lacks(replace(s, pat, rep), c),
    decreases s.len(),
{
    if s.len() == 0 || pat.len() == 0 {
    } else if matches_at(s, 0, pat) {
        let rest = s.skip(pat.len() as int);
        assert forall|k: int| 0 <= k < rest.len() implies rest[k] != c by {
            assert(rest[k] == s[k + pat.len()]);
        }
        lemma_replace_keeps_out(rest, pat, rep, c);
        let r = replace(rest, pat, rep);
        assert forall|k: int| 0 <= k < (rep + r).len() implies (rep + r)[k] != c by {
            if k >= rep.len() {
                assert((rep + r)[k] == r[k - rep.len()]);
            }
        }
    } else {
        let rest = s.drop_first();
        assert forall|k: int| 0 <= k < rest.len() implies rest[k] != c by {
            assert(rest[k] == s[k + 1]);
        }
        lemma_replace_keeps_out(rest, pat, rep, c);
        let r = replace(rest, pat, rep);
        assert forall|k: int| 0 <= k < (seq![s[0]] + r).len() implies (seq![s[0]] + r)[k] != c by {
            if k >= 1 {
                assert((seq![s[0]] + r)[k] == r[k - 1]);
            }
        }
    }
}

/// Replacing the character `c` with text free of it leaves no `c`.
pub proof fn lemma_replace_removes(s: Seq<char>, c: char, rep: Seq<char>)
    requires
        lacks(rep, c),
    ensures
        lacks(replace(s, seq![c], rep), c),
    decreases s.len(),
{
    if s.len() > 0 {
        if matches_at(s, 0, seq![c]) {
            let rest = s.skip(1);
            lemma_replace_removes(rest, c, rep);
            let r = replace(rest, seq![c], rep);
            assert forall|k: int| 0 <= k < (rep + r).len() implies (rep + r)[k] != c by {
                if k >= rep.len() {
                    assert((rep + r)[k] == r[k - rep.len()]);
                }
            }
        } else {
            assert(s.subrange(0, 1) =~= seq![s[0]]);
            assert(s[0] != c);
            let rest = s.drop_first();
            lemma_replace_removes(rest, c, rep);
            let r = replace(rest, seq![c], rep);
            assert forall|k: int| 0 <= k < (seq![s[0]] + r).len() implies (seq![s[0]] + r)[k] != c by {
                if k >= 1 {
                    assert((seq![s[0]] + r)[k] == r[k - 1]);
                }
            }
        }
    }
}

pub fn replace_chars(s: &Vec<char>, pat: &Vec<char>, rep: &Vec<char>) -> (res: Vec<char>)
    requires
        pat.len() > 0,
    ensures
        res@ == replace(s@, pat@, rep@),
{
    let mut out: Vec<char> = Vec::new();
    let mut i: usize = 0;
    assert(s@.skip(0) =~= s@);
    while i < s.len()
        invariant
            pat@.len() > 0,
            i <= s.len(),
            out@ + replace(s@.skip(i as int), pat@, rep@) == replace(s@, pat@, rep@),
        decreases s.len() - i,
    {
        let ghost rest = s@.skip(i as int);
        let ghost o = out@;
        if matches_at_exec(s, i, pat) {
            assert(rest.subrange(0, pat@.len() as int) =~= s@.subrange(
                i as int,
                i + pat@.len(),
            ));
            assert(rest.skip(pat@.len() as int) =~= s@.skip(i + pat@.len()));
            append_chars(&mut out, rep);
            i = i + pat.len();
            assert(out@ + replace(s@.skip(i as int), pat@, rep@) =~= o + replace(rest, pat@, rep@));
        } else {
            assert(!matches_at(rest, 0, pat@)) by {
                if matches_at(rest, 0, pat@) {
                    assert(rest.subrange(0, pat@.len() as int) =~= s@.subrange(
                        i as int,
                        i + pat@.len(),
                    ));
                }
            }
            assert(rest[0] == s@[i as int]);
            assert(rest.drop_first() =~= s@.skip(i + 1));
            out.push(s[i]);
            i = i + 1;
            assert(out@ + replace(s@.skip(i as int), pat@, rep@) =~= o + replace(rest, pat@, rep@));
        }
    }
    assert(s@.skip(i as int) =~= Seq::<char>::empty());
    assert(out@ + Seq::<char>::empty() =~= out@);
    out
}

/// `str::replace` with string-slice arguments, on a character vector.
pub fn replace_str(s: &Vec<char>, pat: &str, rep: &str) -> (res: Vec<char>)
    requires
        pat@.len() > 0,
    ensures
        res@ == replace(s@, pat@, rep@),
{
    let p = chars_of(pat);
    let r = chars_of(rep);
    replace_chars(s, &p, &r)
}

// ------------------------------------------------------------------
// Splitting on a separator character
// ------------------------------------------------------------------

pub open spec fn split_acc(s: Seq<char>, sep: char, cur: Seq<char>) -> Seq<Seq<char>>
    decreases s.len(),
{
    if s.len() == 0 {
        seq![cur]
    } else if s[0] == sep {
        seq![cur] + split_acc(s.drop_first(), sep, seq![])
    } else {
        split_acc(s.drop_first(), sep, cur.push(s[0]))
    }
}

/// `str::split(sep)` with a character separator: always at least one piece.
pub open spec fn split(s: Seq<char>, sep: char) -> Seq<Seq<char>> {
    split_acc(s, sep, seq![])
}

pub proof fn lemma_split_acc_nonempty(s: Seq<char>, sep: char, cur: Seq<char>)
    ensures
        split_acc(s, sep, cur).len() >= 1,
    decreases s.len(),
{
    if s.len() > 0 {
        if s[0] == sep {
            lemma_split_acc_nonempty(s.drop_first(), sep, seq![]);
        } else {
            lemma_split_acc_nonempty(s.drop_first(), sep, cur.push(s[0]));
        }
    }
}

pub fn split_chars(s: &Vec<char>, sep: char) -> (res: Vec<Vec<char>>)
    ensures
        views(res@) == split(s@, sep),
        res@.len() >= 1,
{
    let mut out: Vec<Vec<char>> = Vec::new();
    let mut cur: Vec<char> = Vec::new();
    let mut i: usize = 0;
    proof {
        assert(s@.skip(0) =~= s@);
        assert(views(out@) =~= Seq::<Seq<char>>::empty());
    }
    while i < s.len()
        invariant
            i <= s.len(),
            views(out@) + split_acc(s@.skip(i as int), sep, cur@) == split(s@, sep),
        decreases s.len() - i,
    {
        let c = s[i];
        let ghost rest = s@.skip(i as int);
        let ghost ov = views(out@);
        let ghost cv = cur@;
        assert(rest[0] == c);
        assert(rest.drop_first() =~= s@.skip(i + 1));
        if c == sep {
            proof {
                lemma_views_push(out@, cur);
            }
            out.push(cur);
            cur = Vec::new();
            assert(views(out@) + split_acc(s@.skip(i + 1), sep, cur@) =~= ov + (seq![cv]
                + split_acc(s@.skip(i + 1), sep, seq![])));
        } else {
            cur.push(c);
        }
        i = i + 1;
    }
    assert(s@.skip(i as int) =~= Seq::<char>::empty());
    proof {
        lemma_views_push(out@, cur);
    }
    out.push(cur);
    assert(views(out@) =~= split(s@, sep));
    out
}


// ------------------------------------------------------------------
// Appending strings that are not there yet
// ------------------------------------------------------------------

/// `acc` with each of `items` appended in order, unless an equal string is
/// already there by then.
pub open spec fn push_new(acc: Seq<Seq<char>>, items: Seq<Seq<char>>) -> Seq<Seq<char>>
    decreases items.len(),
{
    if items.len() == 0 {
        acc
    } else {
        let m = push_new(acc, items.drop_last());
        if m.contains(items.last()) {
            m
        } else {
            m.push(items.last())
        }
    }
}

/// Whether one of the strings equals `s`.
pub fn contains_string(v: &Vec<String>, s: &String) -> (r: bool)
    ensures
        r == string_views(v@).contains(s@),
{
    let mut i: usize = 0;
    while i < v.len()
        invariant
            i <= v.len(),
            forall|k: int| 0 <= k < i ==> v@[k]@ != s@,
        decreases v.len() - i,
    {
        if v[i] == *s {
            assert(string_views(v@)[i as int] == s@);
            return true;
        }
        i = i + 1;
    }
    proof {
        if string_views(v@).contains(s@) {
            let k = choose|k: int| 0 <= k < string_views(v@).len() && string_views(v@)[k] == s@;
            assert(v@[k]@ == s@);
        }
    }
    false
}

/// Appends each of `items` that `acc` does not hold yet, in order.
pub fn extend_new(acc: &mut Vec<String>, items: &Vec<String>)
    ensures
        string_views(final(acc)@) == push_new(string_views(old(acc)@), string_views(items@)),
{
    let ghost a0 = string_views(acc@);
    let mut i: usize = 0;
    assert(string_views(items@).take(0) =~= Seq::<Seq<char>>::empty());
    while i < items.len()
        invariant
            i <= items.len(),
            string_views(acc@) == push_new(a0, string_views(items@).take(i as int)),
        decreases items.len() - i,
    {
        let ghost before = string_views(acc@);
        let ghost t = string_views(items@).take(i + 1);
        assert(t.drop_last() =~= string_views(items@).take(i as int));
        assert(t.last() == items@[i as int]@);
        if !contains_string(acc, &items[i]) {
            let x = items[i].clone();
            proof {
                lemma_string_views_push(acc@, x);
            }
            acc.push(x);
        }
        i = i + 1;
    }
    assert(string_views(items@).take(i as int) =~= string_views(items@));
}

/// A copy of a list of strings.
pub fn clone_strings(v: &Vec<String>) -> (res: Vec<String>)
    ensures
        string_views(res@) == string_views(v@),
{
    let mut out: Vec<String> = Vec::new();
    let mut i: usize = 0;
    while i < v.len()
        invariant
            i <= v.len(),
            string_views(out@) == string_views(v@).take(i as int),
        decreases v.len() - i,
    {
        let x = v[i].clone();
        proof {
            lemma_string_views_push(out@, x);
            assert(string_views(v@).take(i + 1) =~= string_views(v@).take(i as int).push(v@[i as int]@));
        }
        out.push(x);
        i = i + 1;
    }
    assert(string_views(v@).take(i as int) =~= string_views(v@));
    out
}

} // verus!
