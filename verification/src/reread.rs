//! Reading back a written playlist: the entries that `build_m3u` writes are
//! the entries that `parse_m3u` reads, field by field, as long as their
//! values need no escaping and cannot be mistaken for the next attribute.
use vstd::prelude::*;

use crate::playlist::{
    entries_text, entry_spec, entry_text, escape_attr_spec, extract_attr_spec, m3u_lines, m3u_text,
    parse_spec, unwrap_or, EntryView,
};
use crate::text::{is_ws, lacks, matches_at, replace, split, split_acc, starts_with, trim, trim_end, trim_start};

verus! {

/// `str::ends_with`.
pub open spec fn ends_with(s: Seq<char>, suffix: Seq<char>) -> bool {
    s.len() >= suffix.len() && s.subrange(s.len() - suffix.len(), s.len() as int) == suffix
}

/// A value that is written as it is and read back as it is: nonempty,
/// trimmed, on one line, and free of the characters that get escaped.
pub open spec fn plain_value(v: Seq<char>) -> bool {
    &&& v.len() > 0
    &&& trim(v) == v
    &&& lacks(v, '\n')
    &&& lacks(v, '"')
    &&& lacks(v, '&')
    &&& lacks(v, '<')
    &&& lacks(v, '>')
}

pub open spec fn opt_plain(o: Option<Seq<char>>) -> bool {
    o matches Some(v) ==> plain_value(v)
}

/// An entry that survives writing and reading: a trimmed one-line `http`
/// URL, plain values, and no value that ends like the name of an attribute
/// written after it (`tvg-name=` and so on), which the reader would take
/// for that attribute.
pub open spec fn rereadable(e: EntryView) -> bool {
    &&& trim(e.url) == e.url
    &&& starts_with(e.url, "http"@)
    &&& lacks(e.url, '\n')
    &&& plain_value(e.name)
    &&& opt_plain(e.tvg_id)
    &&& opt_plain(e.tvg_name)
    &&& opt_plain(e.logo)
    &&& opt_plain(e.group)
    &&& !ends_with(unwrap_or(e.tvg_id, ""@), "tvg-name="@)
    &&& !ends_with(unwrap_or(e.tvg_id, ""@), "tvg-logo="@)
    &&& !ends_with(unwrap_or(e.tvg_id, ""@), "group-title="@)
    &&& !ends_with(unwrap_or(e.tvg_name, e.name), "tvg-logo="@)
    &&& !ends_with(unwrap_or(e.tvg_name, e.name), "group-title="@)
    &&& !ends_with(unwrap_or(e.logo, ""@), "group-title="@)
}

/// What reading back a written entry gives: its URL, tvg id and logo, its
/// tvg name (else its name) as tvg name and name, and its group (else
/// "General").
pub open spec fn reread_as(q: EntryView, e: EntryView) -> bool {
    &&& q.url == e.url
    &&& q.tvg_id == e.tvg_id
    &&& q.tvg_name == Some(unwrap_or(e.tvg_name, e.name))
    &&& q.name == unwrap_or(e.tvg_name, e.name)
    &&& q.logo == e.logo
    &&& q.group == Some(unwrap_or(e.group, "General"@))
}

/// No full occurrence of `pat` in `s`.
pub open spec fn no_match(s: Seq<char>, pat: Seq<char>) -> bool {
    forall|k: int| 0 <= k && k + pat.len() <= s.len() ==> !matches_at(s, k, pat)
}

/// A pattern that ends in a quote and has no other.
pub open spec fn quote_ended(pat: Seq<char>) -> bool {
    pat.len() > 0 && pat.last() == '"' && lacks(pat.drop_last(), '"')
}

proof fn lemma_match_chars(s: Seq<char>, k: int, pat: Seq<char>, m: int)
    requires
        matches_at(s, k, pat),
        0 <= m < pat.len(),
    ensures
        s[k + m] == pat[m],
{
    assert(s.subrange(k, k + pat.len())[m] == s[k + m]);
}

proof fn lemma_no_match_quoted(s: Seq<char>, u: Seq<char>, pat: Seq<char>)
    requires
        no_match(s, pat),
        s.len() == 0 || s.last() == '"',
        lacks(u, '"'),
        quote_ended(pat),
        !ends_with(u, pat.drop_last()),
    ensures
        no_match(s + u + seq!['"'], pat),
{
    let t = s + u + seq!['"'];
    let n = pat.len();
    assert forall|k: int| 0 <= k && k + n <= t.len() implies !matches_at(t, k, pat) by {
        if matches_at(t, k, pat) {
            let e = k + n - 1;
            lemma_match_chars(t, k, pat, n - 1);
            if e < s.len() {
                assert(t.subrange(k, k + n) =~= s.subrange(k, k + n));
                assert(matches_at(s, k, pat));
            } else if e < s.len() + u.len() {
                assert(t[e] == u[e - s.len()]);
            } else if k >= s.len() {
                assert forall|m: int| 0 <= m < n - 1 implies u.subrange(u.len() - (n - 1), u.len() as int)[m]
                    == pat.drop_last()[m] by {
                    lemma_match_chars(t, k, pat, m);
                    assert(t[k + m] == u[k + m - s.len()]);
                }
                assert(u.subrange(u.len() - (n - 1), u.len() as int) =~= pat.drop_last());
            } else {
                let m = s.len() - 1 - k;
                lemma_match_chars(t, k, pat, m);
                assert(t[k + m] == s.last());
                assert(pat.drop_last()[m] == pat[m]);
            }
        }
    }
}

proof fn lemma_no_match_plain(s: Seq<char>, u: Seq<char>, pat: Seq<char>)
    requires
        no_match(s, pat),
        lacks(u, '"'),
        quote_ended(pat),
    ensures
        no_match(s + u, pat),
{
    let t = s + u;
    let n = pat.len();
    assert forall|k: int| 0 <= k && k + n <= t.len() implies !matches_at(t, k, pat) by {
        if matches_at(t, k, pat) {
            let e = k + n - 1;
            lemma_match_chars(t, k, pat, n - 1);
            if e < s.len() {
                assert(t.subrange(k, k + n) =~= s.subrange(k, k + n));
                assert(matches_at(s, k, pat));
            } else {
                assert(t[e] == u[e - s.len()]);
            }
        }
    }
}

/// The value of an attribute whose key first occurs where it is written.
proof fn lemma_attr_value(h: Seq<char>, key: Seq<char>, v: Seq<char>, t: Seq<char>)
    requires
        no_match(h, key + "=\""@),
        lacks(key, '"'),
        lacks(v, '"'),
        trim(v) == v,
    ensures
        extract_attr_spec(h + (key + "=\""@) + v + seq!['"'] + t, key) == (if v.len() == 0 {
            None::<Seq<char>>
        } else {
            Some(v)
        }),
{
    reveal_strlit("=\"");
    let pat = key + "=\""@;
    let n = pat.len();
    let line = h + pat + v + seq!['"'] + t;
    assert(pat.last() == '"');
    assert(pat.drop_last() =~= key + seq!['=']);
    assert(lacks(pat.drop_last(), '"')) by {
        assert forall|m: int| 0 <= m < pat.drop_last().len() implies pat.drop_last()[m] != '"' by {
            if m < key.len() {
                assert(pat.drop_last()[m] == key[m]);
            }
        }
    }
    assert(line.subrange(h.len() as int, h.len() + n as int) =~= pat);
    assert(matches_at(line, h.len() as int, pat));
    assert forall|k: int| 0 <= k < h.len() implies !matches_at(line, k, pat) by {
        if matches_at(line, k, pat) {
            let e = k + n - 1;
            lemma_match_chars(line, k, pat, n - 1);
            if e < h.len() {
                assert(line.subrange(k, k + n) =~= h.subrange(k, k + n));
                assert(matches_at(h, k, pat));
            } else {
                assert(line[e] == pat[e - h.len()]);
                assert(pat[e - h.len()] == pat.drop_last()[e - h.len()]);
            }
        }
    }
    crate::text::lemma_find_facts(line, pat);
    assert(crate::text::find(line, pat) == Some(h.len() as int)) by {
        match crate::text::find(line, pat) {
            Some(j) => {
                if j < h.len() {
                } else if j > h.len() {
                }
            },
            None => {
                assert(crate::text::contains(line, pat));
            },
        }
    }
    let rest = line.skip(h.len() + n as int);
    assert(rest =~= v + seq!['"'] + t);
    let q = seq!['"'];
    assert(rest.subrange(v.len() as int, v.len() + 1int) =~= q);
    assert(matches_at(rest, v.len() as int, q));
    assert forall|k: int| 0 <= k < v.len() implies !matches_at(rest, k, q) by {
        if matches_at(rest, k, q) {
            lemma_match_chars(rest, k, q, 0);
            assert(rest[k] == v[k]);
        }
    }
    crate::text::lemma_find_facts(rest, q);
    assert(crate::text::find_char(rest, '"') == Some(v.len() as int)) by {
        match crate::text::find(rest, q) {
            Some(j) => {
                if j < v.len() {
                } else if j > v.len() {
                }
            },
            None => {
                assert(crate::text::contains(rest, q));
            },
        }
    }
    assert(rest.take(v.len() as int) =~= v);
}

/// Splitting at a separator that the first part lacks.
proof fn lemma_split_line(a: Seq<char>, b: Seq<char>, sep: char, cur: Seq<char>)
    requires
        lacks(a, sep),
    ensures
        split_acc(a + seq![sep] + b, sep, cur) == seq![cur + a] + split_acc(b, sep, seq![]),
    decreases a.len(),
{
    let t = a + seq![sep] + b;
    if a.len() == 0 {
        assert(t[0] == sep);
        assert(t.drop_first() =~= b);
        assert(cur + a =~= cur);
    } else {
        assert(t[0] == a[0]);
        assert(t.drop_first() =~= a.drop_first() + seq![sep] + b);
        let r = a.drop_first();
        assert forall|k: int| 0 <= k < r.len() implies r[k] != sep by {
            assert(r[k] == a[k + 1]);
        }
        lemma_split_line(r, b, sep, cur.push(a[0]));
        assert(cur.push(a[0]) + r =~= cur + a);
    }
}

/// Text that starts and ends with a non-space character is its own trim.
proof fn lemma_trim_fixed(s: Seq<char>)
    requires
        s.len() > 0,
        !is_ws(s[0]),
        !is_ws(s.last()),
    ensures
        trim(s) == s,
{
    assert(trim_start(s) == s);
    assert(trim_end(s) == s);
}

/// A nonempty trimmed text starts and ends with a non-space character.
proof fn lemma_trimmed_ends(s: Seq<char>)
    requires
        s.len() > 0,
        trim(s) == s,
    ensures
        !is_ws(s[0]),
        !is_ws(s.last()),
{
    let u = trim_start(s);
    crate::text::lemma_trim_start_ws_free_start(s);
    crate::text::lemma_trim_end_shape(u);
    assert(trim_end(u) == s);
    assert(s[0] == u[0]);
}

proof fn lemma_replace_absent_char(s: Seq<char>, c: char, rep: Seq<char>)
    requires
        lacks(s, c),
    ensures
        replace(s, seq![c], rep) == s,
    decreases s.len(),
{
    if s.len() > 0 {
        assert(!matches_at(s, 0, seq![c])) by {
            if matches_at(s, 0, seq![c]) {
                assert(s.subrange(0, 1)[0] == s[0]);
            }
        }
        let r = s.drop_first();
        assert forall|k: int| 0 <= k < r.len() implies r[k] != c by {
            assert(r[k] == s[k + 1]);
        }
        lemma_replace_absent_char(r, c, rep);
        assert(seq![s[0]] + r =~= s);
    }
}

/// A value free of the escaped characters is written as it is.
proof fn lemma_escape_plain(v: Seq<char>)
    requires
        lacks(v, '"'),
        lacks(v, '&'),
        lacks(v, '<'),
        lacks(v, '>'),
    ensures
        escape_attr_spec(v) == v,
{
    reveal_strlit("&");
    reveal_strlit("\"");
    reveal_strlit("<");
    reveal_strlit(">");
    assert("&"@ =~= seq!['&']);
    assert("\""@ =~= seq!['"']);
    assert("<"@ =~= seq!['<']);
    assert(">"@ =~= seq!['>']);
    lemma_replace_absent_char(v, '&', "&amp;"@);
    lemma_replace_absent_char(v, '"', "&quot;"@);
    lemma_replace_absent_char(v, '<', "&lt;"@);
    lemma_replace_absent_char(v, '>', "&gt;"@);
}

/// The `#EXTINF` line that `build_m3u` writes for an entry.
pub open spec fn extinf_line(e: EntryView) -> Seq<char> {
    "#EXTINF:-1 tvg-id=\""@ + escape_attr_spec(unwrap_or(e.tvg_id, ""@)) + "\" tvg-name=\""@
        + escape_attr_spec(unwrap_or(e.tvg_name, e.name)) + "\" tvg-logo=\""@ + escape_attr_spec(
        unwrap_or(e.logo, ""@),
    ) + "\" group-title=\""@ + escape_attr_spec(unwrap_or(e.group, "General"@)) + "\","@ + e.name
}

proof fn lemma_plain_opt(o: Option<Seq<char>>, d: Seq<char>)
    requires
        opt_plain(o),
        lacks(d, '\n') && lacks(d, '"') && lacks(d, '&') && lacks(d, '<') && lacks(d, '>'),
        trim(d) == d,
    ensures
        lacks(unwrap_or(o, d), '\n') && lacks(unwrap_or(o, d), '"') && lacks(unwrap_or(o, d), '&')
            && lacks(unwrap_or(o, d), '<') && lacks(unwrap_or(o, d), '>'),
        trim(unwrap_or(o, d)) == unwrap_or(o, d),
        (unwrap_or(o, d).len() == 0) <==> (o is None && d.len() == 0),
{
}

proof fn lemma_lacks_add(a: Seq<char>, b: Seq<char>, c: char)
    requires
        lacks(a, c),
        lacks(b, c),
    ensures
        lacks(a + b, c),
{
    assert forall|k: int| 0 <= k < (a + b).len() implies (a + b)[k] != c by {
        if k >= a.len() {
            assert((a + b)[k] == b[k - a.len()]);
        }
    }
}

pub open spec fn id_value(e: EntryView) -> Seq<char> {
    unwrap_or(e.tvg_id, ""@)
}

pub open spec fn name_value(e: EntryView) -> Seq<char> {
    unwrap_or(e.tvg_name, e.name)
}

pub open spec fn logo_value(e: EntryView) -> Seq<char> {
    unwrap_or(e.logo, ""@)
}

pub open spec fn group_value(e: EntryView) -> Seq<char> {
    unwrap_or(e.group, "General"@)
}

/// The values of a rereadable entry, as written.
proof fn lemma_values(e: EntryView)
    requires
        rereadable(e),
    ensures
        lacks(id_value(e), '\n') && lacks(id_value(e), '"') && trim(id_value(e)) == id_value(e),
        lacks(name_value(e), '\n') && lacks(name_value(e), '"') && trim(name_value(e)) == name_value(e),
        lacks(logo_value(e), '\n') && lacks(logo_value(e), '"') && trim(logo_value(e)) == logo_value(e),
        lacks(group_value(e), '\n') && lacks(group_value(e), '"') && trim(group_value(e)) == group_value(e),
        name_value(e).len() > 0,
        group_value(e).len() > 0,
        (id_value(e).len() == 0) <==> e.tvg_id is None,
        (logo_value(e).len() == 0) <==> e.logo is None,
        extinf_line(e) == "#EXTINF:-1 tvg-id="@ + seq!['"'] + id_value(e) + seq!['"'] + " tvg-name="@ + seq!['"']
            + name_value(e) + seq!['"'] + " tvg-logo="@ + seq!['"'] + logo_value(e) + seq!['"']
            + " group-title="@ + seq!['"'] + group_value(e) + seq!['"'] + seq![','] + e.name,
{
    reveal_strlit("");
    reveal_strlit("General");
    reveal_strlit("#EXTINF:-1 tvg-id=\"");
    reveal_strlit("\" tvg-name=\"");
    reveal_strlit("\" tvg-logo=\"");
    reveal_strlit("\" group-title=\"");
    reveal_strlit("\",");
    reveal_strlit("#EXTINF:-1 tvg-id=");
    reveal_strlit(" tvg-name=");
    reveal_strlit(" tvg-logo=");
    reveal_strlit(" group-title=");
    let d0 = ""@;
    let gen = "General"@;
    assert(d0 =~= Seq::<char>::empty());
    assert(trim(d0) == d0);
    assert(lacks(gen, '\n') && lacks(gen, '"') && lacks(gen, '&') && lacks(gen, '<') && lacks(gen, '>'));
    lemma_trim_fixed(gen);
    lemma_plain_opt(e.tvg_id, d0);
    lemma_plain_opt(e.tvg_name, e.name);
    lemma_plain_opt(e.logo, d0);
    lemma_plain_opt(e.group, gen);
    lemma_escape_plain(id_value(e));
    lemma_escape_plain(name_value(e));
    lemma_escape_plain(logo_value(e));
    lemma_escape_plain(group_value(e));
    let q = seq!['"'];
    assert("#EXTINF:-1 tvg-id=\""@ =~= "#EXTINF:-1 tvg-id="@ + q);
    assert("\" tvg-name=\""@ =~= q + " tvg-name="@ + q);
    assert("\" tvg-logo=\""@ =~= q + " tvg-logo="@ + q);
    assert("\" group-title=\""@ =~= q + " group-title="@ + q);
    assert("\","@ =~= q + seq![',']);
    assert(extinf_line(e) =~= "#EXTINF:-1 tvg-id="@ + q + id_value(e) + q + " tvg-name="@ + q
        + name_value(e) + q + " tvg-logo="@ + q + logo_value(e) + q + " group-title="@ + q
        + group_value(e) + q + seq![','] + e.name);
}

/// The fixed pieces of the line, and where the attribute patterns cannot
/// start in them.
proof fn lemma_fixed_pieces()
    ensures
        quote_ended("tvg-name=\""@) && quote_ended("tvg-logo=\""@) && quote_ended("group-title=\""@),
        ("tvg-name=\""@).drop_last() == "tvg-name="@,
        ("tvg-logo=\""@).drop_last() == "tvg-logo="@,
        ("group-title=\""@).drop_last() == "group-title="@,
        "tvg-id"@ + "=\""@ == "tvg-id=\""@,
        "tvg-name"@ + "=\""@ == "tvg-name=\""@,
        "tvg-logo"@ + "=\""@ == "tvg-logo=\""@,
        "group-title"@ + "=\""@ == "group-title=\""@,
        lacks("tvg-id"@, '"') && lacks("tvg-name"@, '"') && lacks("tvg-logo"@, '"') && lacks(
            "group-title"@,
            '"',
        ),
        "#EXTINF:-1 tvg-id="@ == "#EXTINF:-1 "@ + "tvg-id="@,
        "#EXTINF:-1 "@ + "tvg-id="@ + seq!['"'] == "#EXTINF:-1 "@ + "tvg-id=\""@,
        " tvg-name="@ == seq![' '] + "tvg-name="@,
        " tvg-logo="@ == seq![' '] + "tvg-logo="@,
        " group-title="@ == seq![' '] + "group-title="@,
        seq![' '] + "tvg-name="@ + seq!['"'] == seq![' '] + "tvg-name=\""@,
        seq![' '] + "tvg-logo="@ + seq!['"'] == seq![' '] + "tvg-logo=\""@,
        seq![' '] + "group-title="@ + seq!['"'] == seq![' '] + "group-title=\""@,
        lacks("#EXTINF:-1 "@, '"') && lacks("#EXTINF:-1 tvg-id="@, '"') && lacks(" tvg-name="@, '"')
            && lacks(" tvg-logo="@, '"') && lacks(seq![' '], '"'),
        lacks("#EXTINF:-1 tvg-id="@, '\n') && lacks(" tvg-name="@, '\n') && lacks(" tvg-logo="@, '\n')
            && lacks(" group-title="@, '\n'),
        !ends_with("#EXTINF:-1 tvg-id="@, "tvg-name="@),
        !ends_with("#EXTINF:-1 tvg-id="@, "tvg-logo="@),
        !ends_with("#EXTINF:-1 tvg-id="@, "group-title="@),
        !ends_with(" tvg-name="@, "tvg-logo="@),
        !ends_with(" tvg-name="@, "group-title="@),
        !ends_with(" tvg-logo="@, "group-title="@),
{
    reveal_strlit("tvg-name=\"");
    reveal_strlit("tvg-logo=\"");
    reveal_strlit("group-title=\"");
    reveal_strlit("tvg-id=\"");
    reveal_strlit("tvg-name=");
    reveal_strlit("tvg-logo=");
    reveal_strlit("group-title=");
    reveal_strlit("tvg-id=");
    reveal_strlit("tvg-id");
    reveal_strlit("tvg-name");
    reveal_strlit("tvg-logo");
    reveal_strlit("group-title");
    reveal_strlit("=\"");
    reveal_strlit("#EXTINF:-1 tvg-id=");
    reveal_strlit("#EXTINF:-1 ");
    reveal_strlit(" tvg-name=");
    reveal_strlit(" tvg-logo=");
    reveal_strlit(" group-title=");
    assert(("tvg-name=\""@).drop_last() =~= "tvg-name="@);
    assert(("tvg-logo=\""@).drop_last() =~= "tvg-logo="@);
    assert(("group-title=\""@).drop_last() =~= "group-title="@);
    assert("tvg-id"@ + "=\""@ =~= "tvg-id=\""@);
    assert("tvg-name"@ + "=\""@ =~= "tvg-name=\""@);
    assert("tvg-logo"@ + "=\""@ =~= "tvg-logo=\""@);
    assert("group-title"@ + "=\""@ =~= "group-title=\""@);
    assert("#EXTINF:-1 tvg-id="@ =~= "#EXTINF:-1 "@ + "tvg-id="@);
    assert("#EXTINF:-1 "@ + "tvg-id="@ + seq!['"'] =~= "#EXTINF:-1 "@ + "tvg-id=\""@);
    assert(" tvg-name="@ =~= seq![' '] + "tvg-name="@);
    assert(" tvg-logo="@ =~= seq![' '] + "tvg-logo="@);
    assert(" group-title="@ =~= seq![' '] + "group-title="@);
    assert(seq![' '] + "tvg-name="@ + seq!['"'] =~= seq![' '] + "tvg-name=\""@);
    assert(seq![' '] + "tvg-logo="@ + seq!['"'] =~= seq![' '] + "tvg-logo=\""@);
    assert(seq![' '] + "group-title="@ + seq!['"'] =~= seq![' '] + "group-title=\""@);
    assert(("#EXTINF:-1 tvg-id="@).subrange(9, 18)[0] != ("tvg-name="@)[0]);
    assert(("#EXTINF:-1 tvg-id="@).subrange(9, 18)[0] != ("tvg-logo="@)[0]);
    assert(("#EXTINF:-1 tvg-id="@).subrange(6, 18)[0] != ("group-title="@)[0]);
    assert((" tvg-name="@).subrange(1, 10)[4] != ("tvg-logo="@)[4]);
}

/// The line written for an entry reads back as the entry.
proof fn lemma_extinf_fields(e: EntryView)
    requires
        rereadable(e),
    ensures
        reread_as(entry_spec(extinf_line(e), e.url), e),
        lacks(extinf_line(e), '\n'),
        trim(extinf_line(e)) == extinf_line(e),
        starts_with(extinf_line(e), "#EXTINF"@),
{
    lemma_values(e);
    lemma_id_found(e);
    lemma_name_found(e);
    lemma_logo_found(e);
    lemma_group_found(e);
    lemma_line_lacks_newline(e);
    lemma_line_shape(e);
}

#[verifier::spinoff_prover]
#[verifier::rlimit(100)]
proof fn lemma_id_found(e: EntryView)
    requires
        rereadable(e),
    ensures
        extract_attr_spec(extinf_line(e), "tvg-id"@) == e.tvg_id,
{
    lemma_values(e);
    reveal_strlit("#EXTINF:-1 ");
    reveal_strlit("#EXTINF:-1 tvg-id=");
    reveal_strlit("tvg-id");
    reveal_strlit("=\"");
    let q = seq!['"'];
    let i = id_value(e);
    let h0 = "#EXTINF:-1 "@;
    let s0 = "#EXTINF:-1 tvg-id="@;
    let key = "tvg-id"@;
    let p1 = key + "=\""@;
    let rest = " tvg-name="@ + q + name_value(e) + q + " tvg-logo="@ + q + logo_value(e) + q
        + " group-title="@ + q + group_value(e) + q + seq![','] + e.name;
    assert(s0 + q =~= h0 + p1);
    assert(lacks(h0, '"'));
    assert(lacks(key, '"'));
    lemma_no_match_plain_start(h0, p1);
    lemma_attr_value(h0, key, i, rest);
    assert(extinf_line(e) =~= (s0 + q) + i + q + rest);
}

#[verifier::spinoff_prover]
#[verifier::rlimit(100)]
proof fn lemma_name_found(e: EntryView)
    requires
        rereadable(e),
    ensures
        extract_attr_spec(extinf_line(e), "tvg-name"@) == Some(name_value(e)),
{
    lemma_values(e);
    lemma_fixed_pieces();
    let q = seq!['"'];
    let sp = seq![' '];
    let i = id_value(e);
    let nm = name_value(e);
    let g = logo_value(e);
    let r = group_value(e);
    let s0 = "#EXTINF:-1 tvg-id="@;
    let s4 = " tvg-logo="@;
    let s6 = " group-title="@;
    let tail = seq![','] + e.name;
    let empty = Seq::<char>::empty();
    let p2 = "tvg-name=\""@;
    assert(no_match(empty, p2));
    lemma_no_match_quoted(empty, s0, p2);
    assert(empty + s0 + q =~= s0 + q);
    lemma_no_match_quoted(s0 + q, i, p2);
    lemma_no_match_plain(s0 + q + i + q, sp, p2);
    lemma_attr_value(s0 + q + i + q + sp, "tvg-name"@, nm, s4 + q + g + q + s6 + q + r + q + tail);
    assert(extinf_line(e) =~= (s0 + q + i + q + sp) + p2 + nm + q + (s4 + q + g + q + s6 + q + r + q + tail));
}

#[verifier::spinoff_prover]
#[verifier::rlimit(40)]
proof fn lemma_logo_found(e: EntryView)
    requires
        rereadable(e),
    ensures
        extract_attr_spec(extinf_line(e), "tvg-logo"@) == e.logo,
{
    lemma_values(e);
    lemma_fixed_pieces();
    let q = seq!['"'];
    let sp = seq![' '];
    let i = id_value(e);
    let nm = name_value(e);
    let g = logo_value(e);
    let r = group_value(e);
    let s0 = "#EXTINF:-1 tvg-id="@;
    let s2 = " tvg-name="@;
    let s6 = " group-title="@;
    let tail = seq![','] + e.name;
    let empty = Seq::<char>::empty();
    let p3 = "tvg-logo=\""@;
    assert(no_match(empty, p3));
    lemma_no_match_quoted(empty, s0, p3);
    assert(empty + s0 + q =~= s0 + q);
    lemma_no_match_quoted(s0 + q, i, p3);
    lemma_no_match_quoted(s0 + q + i + q, s2, p3);
    lemma_no_match_quoted(s0 + q + i + q + s2 + q, nm, p3);
    lemma_no_match_plain(s0 + q + i + q + s2 + q + nm + q, sp, p3);
    lemma_attr_value(s0 + q + i + q + s2 + q + nm + q + sp, "tvg-logo"@, g, s6 + q + r + q + tail);
    assert(extinf_line(e) =~= (s0 + q + i + q + s2 + q + nm + q + sp) + p3 + g + q + (s6 + q + r + q + tail));
}

proof fn lemma_no_match_plain_start(h: Seq<char>, pat: Seq<char>)
    requires
        lacks(h, '"'),
        pat.len() > 0,
        pat.last() == '"',
    ensures
        no_match(h, pat),
{
    assert forall|k: int| 0 <= k && k + pat.len() <= h.len() implies !matches_at(h, k, pat) by {
        if matches_at(h, k, pat) {
            lemma_match_chars(h, k, pat, pat.len() - 1);
        }
    }
}

#[verifier::spinoff_prover]
#[verifier::rlimit(40)]
proof fn lemma_group_found(e: EntryView)
    requires
        rereadable(e),
    ensures
        extract_attr_spec(extinf_line(e), "group-title"@) == Some(group_value(e)),
{
    lemma_values(e);
    lemma_fixed_pieces();
    let q = seq!['"'];
    let sp = seq![' '];
    let i = id_value(e);
    let nm = name_value(e);
    let g = logo_value(e);
    let r = group_value(e);
    let s0 = "#EXTINF:-1 tvg-id="@;
    let s2 = " tvg-name="@;
    let s4 = " tvg-logo="@;
    let tail = seq![','] + e.name;
    let line = extinf_line(e);
    let empty = Seq::<char>::empty();
    let p4 = "group-title=\""@;
    assert(no_match(empty, p4));
    lemma_no_match_quoted(empty, s0, p4);
    assert(empty + s0 + q =~= s0 + q);
    lemma_no_match_quoted(s0 + q, i, p4);
    lemma_no_match_quoted(s0 + q + i + q, s2, p4);
    lemma_no_match_quoted(s0 + q + i + q + s2 + q, nm, p4);
    lemma_no_match_quoted(s0 + q + i + q + s2 + q + nm + q, s4, p4);
    lemma_no_match_quoted(s0 + q + i + q + s2 + q + nm + q + s4 + q, g, p4);
    lemma_no_match_plain(s0 + q + i + q + s2 + q + nm + q + s4 + q + g + q, sp, p4);
    lemma_attr_value(s0 + q + i + q + s2 + q + nm + q + s4 + q + g + q + sp, "group-title"@, r, tail);
    assert(line =~= (s0 + q + i + q + s2 + q + nm + q + s4 + q + g + q + sp) + p4 + r + q + tail);
}

#[verifier::spinoff_prover]
proof fn lemma_line_shape(e: EntryView)
    requires
        rereadable(e),
    ensures
        trim(extinf_line(e)) == extinf_line(e),
        starts_with(extinf_line(e), "#EXTINF"@),
{
    reveal_strlit("#EXTINF");
    reveal_strlit("#EXTINF:-1 tvg-id=");
    lemma_values(e);
    let line = extinf_line(e);
    lemma_trimmed_ends(e.name);
    assert(line[0] == '#');
    assert(line.last() == e.name.last());
    lemma_trim_fixed(line);
    assert(line.subrange(0, 7) =~= "#EXTINF"@);
}

/// The line is made of pieces none of which holds a line break.
#[verifier::spinoff_prover]
proof fn lemma_line_lacks_newline(e: EntryView)
    requires
        rereadable(e),
    ensures
        lacks(extinf_line(e), '\n'),
{
    lemma_values(e);
    lemma_fixed_pieces();
    let line = extinf_line(e);
    let pieces = seq![
        "#EXTINF:-1 tvg-id="@, seq!['"'], id_value(e), seq!['"'], " tvg-name="@, seq!['"'],
        name_value(e), seq!['"'], " tvg-logo="@, seq!['"'], logo_value(e), seq!['"'],
        " group-title="@, seq!['"'], group_value(e), seq!['"'], seq![','], e.name
    ];
    assert(line =~= pieces.fold_left(Seq::<char>::empty(), |acc: Seq<char>, p: Seq<char>| acc + p)) by {
        reveal_with_fuel(Seq::fold_left, 19);
    }
    assert forall|j: int| 0 <= j < pieces.len() implies lacks(#[trigger] pieces[j], '\n') by {}
    lemma_fold_lacks(pieces, '\n');
}

proof fn lemma_fold_lacks(pieces: Seq<Seq<char>>, c: char)
    requires
        forall|j: int| 0 <= j < pieces.len() ==> lacks(#[trigger] pieces[j], c),
    ensures
        lacks(pieces.fold_left(Seq::<char>::empty(), |acc: Seq<char>, p: Seq<char>| acc + p), c),
    decreases pieces.len(),
{
    if pieces.len() > 0 {
        let d = pieces.drop_last();
        assert forall|j: int| 0 <= j < d.len() implies lacks(#[trigger] d[j], c) by {
            assert(d[j] == pieces[j]);
        }
        lemma_fold_lacks(d, c);
        lemma_lacks_add(
            d.fold_left(Seq::<char>::empty(), |acc: Seq<char>, p: Seq<char>| acc + p),
            pieces.last(),
            c,
        );
    }
}

/// The entries read from the lines written for a list of entries.
proof fn lemma_reread_entries(es: Seq<EntryView>)
    requires
        forall|k: int| 0 <= k < es.len() ==> rereadable(#[trigger] es[k]),
    ensures
        m3u_lines(split_acc(entries_text(es), '\n', seq![]), None) == es.map_values(
            |e: EntryView| entry_spec(extinf_line(e), e.url),
        ),
    decreases es.len(),
{
    reveal_strlit("\n");
    reveal_strlit("#EXTINF");
    reveal_strlit("http");
    if es.len() == 0 {
        let ls = split_acc(entries_text(es), '\n', seq![]);
        assert(ls =~= seq![Seq::<char>::empty()]);
        assert(trim(ls[0]) =~= Seq::<char>::empty());
        assert(ls.drop_first() =~= Seq::<Seq<char>>::empty());
        assert(m3u_lines(ls.drop_first(), None) =~= Seq::<EntryView>::empty());
        assert(!starts_with(trim(ls[0]), "#EXTINF"@));
        assert(!starts_with(trim(ls[0]), "http"@));
        assert(m3u_lines(ls, None) =~= Seq::<EntryView>::empty());
        assert(es.map_values(|e: EntryView| entry_spec(extinf_line(e), e.url)) =~= Seq::<EntryView>::empty());
    } else {
        let e = es[0];
        let rest = es.drop_first();
        assert forall|k: int| 0 <= k < rest.len() implies rereadable(#[trigger] rest[k]) by {
            assert(rest[k] == es[k + 1]);
        }
        lemma_reread_entries(rest);
        lemma_extinf_fields(e);
        let l = extinf_line(e);
        let u = e.url;
        let nl = seq!['\n'];
        assert("\n"@ =~= nl);
        assert(entry_text(e) =~= l + nl + u + nl);
        let t = entries_text(rest);
        assert(entries_text(es) =~= l + nl + (u + nl + t));
        lemma_split_line(l, u + nl + t, '\n', seq![]);
        lemma_split_line(u, t, '\n', seq![]);
        assert(Seq::<char>::empty() + l =~= l);
        assert(Seq::<char>::empty() + u =~= u);
        let st = split_acc(t, '\n', seq![]);
        let ls = seq![l] + (seq![u] + st);
        assert(split_acc(entries_text(es), '\n', seq![]) == ls);
        assert(ls[0] == l);
        assert(ls.drop_first() =~= seq![u] + st);
        assert((seq![u] + st)[0] == u);
        assert((seq![u] + st).drop_first() =~= st);
        assert(!starts_with(u, "#EXTINF"@)) by {
            assert(u.subrange(0, 4) =~= "http"@);
            assert(u.subrange(0, 4)[0] == u[0]);
            assert(u[0] == 'h');
            if starts_with(u, "#EXTINF"@) {
                assert(u.subrange(0, 7)[0] == u[0]);
            }
        }
        assert(m3u_lines(ls, None) == m3u_lines(seq![u] + st, Some(l)));
        assert(m3u_lines(seq![u] + st, Some(l)) == seq![entry_spec(l, u)] + m3u_lines(st, None));
        assert(es.map_values(|e: EntryView| entry_spec(extinf_line(e), e.url)) =~= seq![entry_spec(l, u)]
            + rest.map_values(|e: EntryView| entry_spec(extinf_line(e), e.url)));
    }
}

/// Reading back a written playlist gives one entry per written entry, in
/// order, with the same URL, tvg id and logo, the tvg name (else the name)
/// as tvg name and name, and the group (else "General"), for entries whose
/// URL is a trimmed one-line `http` URL and whose values are plain and do
/// not end like the name of a later attribute.
pub proof fn law_parse_built_playlist(es: Seq<EntryView>)
    requires
        forall|k: int| 0 <= k < es.len() ==> rereadable(#[trigger] es[k]),
    ensures
        parse_spec(m3u_text(es)).len() == es.len(),
        forall|k: int| 0 <= k < es.len() ==> reread_as(#[trigger] parse_spec(m3u_text(es))[k], es[k]),
{
    reveal_strlit("#EXTM3U\n");
    reveal_strlit("#EXTINF");
    reveal_strlit("http");
    let h = "#EXTM3U"@;
    reveal_strlit("#EXTM3U");
    assert("#EXTM3U\n"@ =~= h + seq!['\n']);
    let t = entries_text(es);
    assert(m3u_text(es) =~= h + seq!['\n'] + t);
    assert(lacks(h, '\n'));
    lemma_split_line(h, t, '\n', seq![]);
    assert(Seq::<char>::empty() + h =~= h);
    let ls = seq![h] + split_acc(t, '\n', seq![]);
    assert(split(m3u_text(es), '\n') == ls);
    assert(ls[0] == h);
    assert(ls.drop_first() =~= split_acc(t, '\n', seq![]));
    lemma_trim_fixed(h);
    assert(!starts_with(h, "#EXTINF"@)) by {
        if starts_with(h, "#EXTINF"@) {
            assert(h.subrange(0, 7)[4] == h[4]);
        }
    }
    assert(!starts_with(h, "http"@)) by {
        if starts_with(h, "http"@) {
            assert(h.subrange(0, 4)[0] == h[0]);
        }
    }
    lemma_reread_entries(es);
    let got = parse_spec(m3u_text(es));
    assert(got == es.map_values(|e: EntryView| entry_spec(extinf_line(e), e.url)));
    assert forall|k: int| 0 <= k < es.len() implies reread_as(#[trigger] got[k], es[k]) by {
        lemma_extinf_fields(es[k]);
    }
}

} // verus!
