//! Counting elements in the XMLTV document: it holds one `<channel ` per
//! channel and one `<programme ` per programme that is written.
use vstd::prelude::*;

use crate::playlist::unwrap_or;
use crate::text::{lacks, matches_at};
use crate::xmltv::{
    channel_xml, channels_xml, credits_xml, esc_spec, is_blank, law_esc_markup_free, opt_tag,
    programme_head, programme_shown, programme_xml, programmes_xml, rating_xml, shown_programmes,
    shown_xml, tagged, xmltv_spec, XmltvChannelView, XmltvProgrammeView,
};

verus! {

/// The number of places where `pat` occurs in `s` (`str::matches(..).count()`
/// for a pattern that cannot overlap itself).
pub open spec fn occurrences(s: Seq<char>, pat: Seq<char>) -> nat
    decreases s.len(),
{
    if s.len() == 0 {
        0
    } else {
        (if matches_at(s, 0, pat) {
            1nat
        } else {
            0nat
        }) + occurrences(s.drop_first(), pat)
    }
}

/// An element-opening pattern: `<` and at least three more characters.
pub open spec fn tag_pattern(pat: Seq<char>) -> bool {
    pat.len() >= 4 && pat[0] == '<'
}

/// At a `<` at `k`, one of the next three characters differs from the
/// pattern, within `s`.
pub open spec fn differs_at(s: Seq<char>, k: int, pat: Seq<char>) -> bool {
    k + 3 < s.len() && (s[k + 1] != pat[1] || s[k + 2] != pat[2] || s[k + 3] != pat[3])
}

/// Every `<` of `s` starts something other than the pattern, and says so
/// within `s`.
pub open spec fn lt_ok(s: Seq<char>, pat: Seq<char>) -> bool {
    forall|k: int| 0 <= k < s.len() && s[k] == '<' ==> differs_at(s, k, pat)
}

/// No occurrence of the pattern can start in `s` and run on past its end.
pub open spec fn clean_end(s: Seq<char>, pat: Seq<char>) -> bool {
    forall|k: int| 0 <= k < s.len() && s.len() < k + pat.len() && s[k] == '<' ==> differs_at(s, k, pat)
}

proof fn lemma_match_char(s: Seq<char>, k: int, pat: Seq<char>, m: int)
    requires
        matches_at(s, k, pat),
        0 <= m < pat.len(),
    ensures
        s[k + m] == pat[m],
{
    assert(s.subrange(k, k + pat.len())[m] == s[k + m]);
}

proof fn lemma_occurrences_add(a: Seq<char>, b: Seq<char>, pat: Seq<char>)
    requires
        tag_pattern(pat),
        clean_end(a, pat),
    ensures
        occurrences(a + b, pat) == occurrences(a, pat) + occurrences(b, pat),
    decreases a.len(),
{
    if a.len() == 0 {
        assert(a + b =~= b);
    } else {
        let t = a + b;
        if pat.len() <= a.len() {
            assert(t.subrange(0, pat.len() as int) =~= a.subrange(0, pat.len() as int));
        } else {
            if matches_at(t, 0, pat) {
                lemma_match_char(t, 0, pat, 0);
                assert(t[0] == a[0]);
                lemma_match_char(t, 0, pat, 1);
                lemma_match_char(t, 0, pat, 2);
                lemma_match_char(t, 0, pat, 3);
                assert(t[1] == a[1] && t[2] == a[2] && t[3] == a[3]);
            }
        }
        let r = a.drop_first();
        assert(t.drop_first() =~= r + b);
        assert forall|k: int| 0 <= k < r.len() && r.len() < k + pat.len() && r[k] == '<' implies differs_at(
            r,
            k,
            pat,
        ) by {
            assert(r[k] == a[k + 1]);
            assert(differs_at(a, k + 1, pat));
            assert(r[k + 1] == a[k + 2] && r[k + 2] == a[k + 3] && r[k + 3] == a[k + 4]);
        }
        lemma_occurrences_add(r, b, pat);
    }
}

proof fn lemma_clean_end_add(a: Seq<char>, b: Seq<char>, pat: Seq<char>)
    requires
        clean_end(a, pat),
        clean_end(b, pat),
    ensures
        clean_end(a + b, pat),
{
    let t = a + b;
    assert forall|k: int| 0 <= k < t.len() && t.len() < k + pat.len() && t[k] == '<' implies differs_at(
        t,
        k,
        pat,
    ) by {
        if k >= a.len() {
            let j = k - a.len();
            assert(b[j] == t[k]);
            assert(differs_at(b, j, pat));
            assert(t[k + 1] == b[j + 1] && t[k + 2] == b[j + 2] && t[k + 3] == b[j + 3]);
        } else {
            assert(a[k] == t[k]);
            assert(differs_at(a, k, pat));
            assert(t[k + 1] == a[k + 1] && t[k + 2] == a[k + 2] && t[k + 3] == a[k + 3]);
        }
    }
}

/// Text whose every `<` starts something else holds no occurrence.
proof fn lemma_lt_ok(s: Seq<char>, pat: Seq<char>)
    requires
        tag_pattern(pat),
        lt_ok(s, pat),
    ensures
        occurrences(s, pat) == 0,
        clean_end(s, pat),
    decreases s.len(),
{
    if s.len() > 0 {
        if matches_at(s, 0, pat) {
            lemma_match_char(s, 0, pat, 0);
            lemma_match_char(s, 0, pat, 1);
            lemma_match_char(s, 0, pat, 2);
            lemma_match_char(s, 0, pat, 3);
        }
        let r = s.drop_first();
        assert forall|k: int| 0 <= k < r.len() && r[k] == '<' implies differs_at(r, k, pat) by {
            assert(r[k] == s[k + 1]);
            assert(differs_at(s, k + 1, pat));
            assert(r[k + 1] == s[k + 2] && r[k + 2] == s[k + 3] && r[k + 3] == s[k + 4]);
        }
        lemma_lt_ok(r, pat);
    }
}

/// Text without `<`.
proof fn lemma_no_lt(s: Seq<char>, pat: Seq<char>)
    requires
        tag_pattern(pat),
        lacks(s, '<'),
    ensures
        occurrences(s, pat) == 0,
        clean_end(s, pat),
        lt_ok(s, pat),
{
    lemma_lt_ok(s, pat);
}

/// Escaped text holds no `<`.
proof fn lemma_esc(v: Seq<char>, pat: Seq<char>)
    requires
        tag_pattern(pat),
    ensures
        occurrences(esc_spec(v), pat) == 0,
        clean_end(esc_spec(v), pat),
{
    law_esc_markup_free(v);
    lemma_no_lt(esc_spec(v), pat);
}

/// Three pieces, the first two with clean ends.
proof fn lemma_three(a: Seq<char>, b: Seq<char>, c: Seq<char>, pat: Seq<char>)
    requires
        tag_pattern(pat),
        clean_end(a, pat),
        clean_end(b, pat),
        clean_end(c, pat),
    ensures
        occurrences(a + b + c, pat) == occurrences(a, pat) + occurrences(b, pat) + occurrences(c, pat),
        clean_end(a + b + c, pat),
{
    lemma_occurrences_add(a, b, pat);
    lemma_clean_end_add(a, b, pat);
    lemma_occurrences_add(a + b, c, pat);
    lemma_clean_end_add(a + b, c, pat);
}

/// The two patterns that are counted.
pub open spec fn channel_tag() -> Seq<char> {
    "<channel "@
}

pub open spec fn programme_tag() -> Seq<char> {
    "<programme "@
}

proof fn lemma_tags()
    ensures
        tag_pattern(channel_tag()),
        tag_pattern(programme_tag()),
        channel_tag()[1] == 'c' && channel_tag()[2] == 'h' && channel_tag()[3] == 'a',
        programme_tag()[1] == 'p' && programme_tag()[2] == 'r' && programme_tag()[3] == 'o',
{
    reveal_strlit("<channel ");
    reveal_strlit("<programme ");
}

/// A pattern that is one of the two counted tags.
pub open spec fn counted(pat: Seq<char>) -> bool {
    pat == channel_tag() || pat == programme_tag()
}

/// `open + esc(value) + close`, for literals whose `<`s start other
/// elements.
proof fn lemma_wrapped(open: Seq<char>, v: Seq<char>, close: Seq<char>, pat: Seq<char>)
    requires
        tag_pattern(pat),
        lt_ok(open, pat),
        lt_ok(close, pat),
    ensures
        occurrences(open + esc_spec(v) + close, pat) == 0,
        clean_end(open + esc_spec(v) + close, pat),
{
    lemma_lt_ok(open, pat);
    lemma_lt_ok(close, pat);
    lemma_esc(v, pat);
    lemma_three(open, esc_spec(v), close, pat);
}

proof fn lemma_tagged(items: Seq<Seq<char>>, open: Seq<char>, close: Seq<char>, skip: bool, pat: Seq<char>)
    requires
        tag_pattern(pat),
        lt_ok(open, pat),
        lt_ok(close, pat),
    ensures
        occurrences(tagged(items, open, close, skip), pat) == 0,
        clean_end(tagged(items, open, close, skip), pat),
    decreases items.len(),
{
    lemma_no_lt(Seq::<char>::empty(), pat);
    if items.len() > 0 {
        lemma_tagged(items.drop_first(), open, close, skip, pat);
        let first = if skip && is_blank(items[0]) {
            Seq::<char>::empty()
        } else {
            open + esc_spec(items[0]) + close
        };
        lemma_wrapped(open, items[0], close, pat);
        lemma_occurrences_add(first, tagged(items.drop_first(), open, close, skip), pat);
        lemma_clean_end_add(first, tagged(items.drop_first(), open, close, skip), pat);
    }
}

proof fn lemma_opt_tag(o: Option<Seq<char>>, open: Seq<char>, close: Seq<char>, pat: Seq<char>)
    requires
        tag_pattern(pat),
        lt_ok(open, pat),
        lt_ok(close, pat),
    ensures
        occurrences(opt_tag(o, open, close), pat) == 0,
        clean_end(opt_tag(o, open, close), pat),
{
    lemma_no_lt(Seq::<char>::empty(), pat);
    if let Some(v) = o {
        lemma_wrapped(open, v, close, pat);
    }
}

/// The literals of a channel element other than its opening.
proof fn lemma_channel_literals(pat: Seq<char>)
    requires
        counted(pat),
    ensures
        lt_ok("\">\n"@, pat),
        lt_ok("    <display-name>"@, pat),
        lt_ok("</display-name>\n"@, pat),
        lt_ok("    <icon src=\""@, pat),
        lt_ok("\"/>\n"@, pat),
        lt_ok("  </channel>\n"@, pat),
{
    lemma_tags();
    reveal_strlit("\">\n");
    reveal_strlit("    <display-name>");
    reveal_strlit("</display-name>\n");
    reveal_strlit("    <icon src=\"");
    reveal_strlit("\"/>\n");
    reveal_strlit("  </channel>\n");
}

/// A channel element holds one `<channel ` and no `<programme `.
proof fn lemma_channel_xml(c: XmltvChannelView, pat: Seq<char>)
    requires
        counted(pat),
    ensures
        occurrences(channel_xml(c), pat) == (if pat == channel_tag() {
            1nat
        } else {
            0nat
        }),
        clean_end(channel_xml(c), pat),
{
    lemma_tags();
    lemma_channel_literals(pat);
    reveal_strlit("<channel ");
    reveal_strlit("<programme ");
    reveal_strlit("  <channel id=\"");
    assert(pat.len() >= 9);
    let open = "  <channel id=\""@;
    let sp = seq![' ', ' '];
    let rest = open.subrange(2, open.len() as int);
    assert(open =~= sp + rest);
    assert(lacks(sp, '<'));
    lemma_no_lt(sp, pat);
    // the opening tag holds the one `<channel `
    assert(clean_end(rest, pat));
    let r2 = rest.drop_first();
    assert(lacks(r2, '<'));
    lemma_no_lt(r2, pat);
    if pat == channel_tag() {
        assert(rest.subrange(0, pat.len() as int) =~= pat);
        assert(matches_at(rest, 0, pat));
    } else {
        if matches_at(rest, 0, pat) {
            lemma_match_char(rest, 0, pat, 1);
        }
    }
    assert(occurrences(rest, pat) == (if pat == channel_tag() { 1nat } else { 0nat }));
    lemma_occurrences_add(sp, rest, pat);
    lemma_clean_end_add(sp, rest, pat);
    lemma_esc(c.id, pat);
    lemma_lt_ok("\">\n"@, pat);
    lemma_tagged(c.display_names, "    <display-name>"@, "</display-name>\n"@, false, pat);
    lemma_opt_tag(c.icon, "    <icon src=\""@, "\"/>\n"@, pat);
    lemma_lt_ok("  </channel>\n"@, pat);
    let a = open;
    let b = esc_spec(c.id);
    let d = "\">\n"@;
    let e = tagged(c.display_names, "    <display-name>"@, "</display-name>\n"@, false);
    let f = opt_tag(c.icon, "    <icon src=\""@, "\"/>\n"@);
    let g = "  </channel>\n"@;
    lemma_three(a, b, d, pat);
    lemma_three(a + b + d, e, f, pat);
    lemma_occurrences_add(a + b + d + e + f, g, pat);
    lemma_clean_end_add(a + b + d + e + f, g, pat);
}

/// The literals of a programme element other than its opening.
proof fn lemma_programme_literals(pat: Seq<char>)
    requires
        counted(pat),
    ensures
        lt_ok("\" stop=\""@, pat),
        lt_ok("\" channel=\""@, pat),
        lt_ok("\">\n"@, pat),
        lt_ok("    <title>"@, pat),
        lt_ok("</title>\n"@, pat),
        lt_ok("    <sub-title>"@, pat),
        lt_ok("</sub-title>\n"@, pat),
        lt_ok("    <desc>"@, pat),
        lt_ok("</desc>\n"@, pat),
        lt_ok("    <category>"@, pat),
        lt_ok("</category>\n"@, pat),
        lt_ok("    <icon src=\""@, pat),
        lt_ok("\"/>\n"@, pat),
        lt_ok("  </programme>\n"@, pat),
{
    lemma_tags();
    reveal_strlit("\" stop=\"");
    reveal_strlit("\" channel=\"");
    reveal_strlit("\">\n");
    reveal_strlit("    <title>");
    reveal_strlit("</title>\n");
    reveal_strlit("    <sub-title>");
    reveal_strlit("</sub-title>\n");
    reveal_strlit("    <desc>");
    reveal_strlit("</desc>\n");
    reveal_strlit("    <category>");
    reveal_strlit("</category>\n");
    reveal_strlit("    <icon src=\"");
    reveal_strlit("\"/>\n");
    reveal_strlit("  </programme>\n");
}

proof fn lemma_extra_literals(pat: Seq<char>)
    requires
        counted(pat),
    ensures
        lt_ok("    <credits>\n"@, pat),
        lt_ok("      <director>"@, pat),
        lt_ok("</director>\n"@, pat),
        lt_ok("      <actor>"@, pat),
        lt_ok("</actor>\n"@, pat),
        lt_ok("    </credits>\n"@, pat),
        lt_ok("    <rating system=\""@, pat),
        lt_ok("\"><value>"@, pat),
        lt_ok("</value></rating>\n"@, pat),
        lt_ok("    <previously-shown/>\n"@, pat),
        lt_ok("<?xml version=\"1.0\" encoding=\"UTF-8\"?>\n"@, pat),
        lt_ok("<tv generator-info-name=\""@, pat),
        lt_ok("</tv>\n"@, pat),
{
    lemma_tags();
    reveal_strlit("    <credits>\n");
    reveal_strlit("      <director>");
    reveal_strlit("</director>\n");
    reveal_strlit("      <actor>");
    reveal_strlit("</actor>\n");
    reveal_strlit("    </credits>\n");
    reveal_strlit("    <rating system=\"");
    reveal_strlit("\"><value>");
    reveal_strlit("</value></rating>\n");
    reveal_strlit("    <previously-shown/>\n");
    reveal_strlit("<?xml version=\"1.0\" encoding=\"UTF-8\"?>\n");
    reveal_strlit("<tv generator-info-name=\"");
    reveal_strlit("</tv>\n");
}

/// The opening of a programme element holds one `<programme ` and no
/// `<channel `.
proof fn lemma_programme_open(pat: Seq<char>)
    requires
        counted(pat),
    ensures
        occurrences("  <programme start=\""@, pat) == (if pat == programme_tag() {
            1nat
        } else {
            0nat
        }),
        clean_end("  <programme start=\""@, pat),
{
    lemma_tags();
    reveal_strlit("<channel ");
    reveal_strlit("<programme ");
    reveal_strlit("  <programme start=\"");
    assert(pat.len() >= 9);
    let open = "  <programme start=\""@;
    let sp = seq![' ', ' '];
    let rest = open.subrange(2, open.len() as int);
    assert(open =~= sp + rest);
    assert(lacks(sp, '<'));
    lemma_no_lt(sp, pat);
    assert(clean_end(rest, pat));
    let r2 = rest.drop_first();
    assert(lacks(r2, '<'));
    lemma_no_lt(r2, pat);
    if pat == programme_tag() {
        assert(rest.subrange(0, pat.len() as int) =~= pat);
        assert(matches_at(rest, 0, pat));
    } else {
        if matches_at(rest, 0, pat) {
            lemma_match_char(rest, 0, pat, 1);
        }
    }
    lemma_occurrences_add(sp, rest, pat);
    lemma_clean_end_add(sp, rest, pat);
}

proof fn lemma_programme_head(p: XmltvProgrammeView, offset_minutes: int, pat: Seq<char>)
    requires
        counted(pat),
    ensures
        occurrences(programme_head(p, offset_minutes), pat) == (if pat == programme_tag() {
            1nat
        } else {
            0nat
        }),
        clean_end(programme_head(p, offset_minutes), pat),
{
    lemma_tags();
    lemma_programme_literals(pat);
    lemma_programme_open(pat);
    let a = "  <programme start=\""@;
    let b = esc_spec(crate::time::xmltv_time_spec(p.start, offset_minutes));
    let c = "\" stop=\""@;
    let d = esc_spec(crate::time::xmltv_time_spec(p.stop, offset_minutes));
    let e = "\" channel=\""@;
    let f = esc_spec(p.channel_id);
    let g = "\">\n"@;
    let h = "    <title>"@ + esc_spec(p.title) + "</title>\n"@;
    lemma_esc(crate::time::xmltv_time_spec(p.start, offset_minutes), pat);
    lemma_esc(crate::time::xmltv_time_spec(p.stop, offset_minutes), pat);
    lemma_esc(p.channel_id, pat);
    lemma_lt_ok(c, pat);
    lemma_lt_ok(e, pat);
    lemma_lt_ok(g, pat);
    lemma_wrapped("    <title>"@, p.title, "</title>\n"@, pat);
    lemma_three(a, b, c, pat);
    lemma_three(a + b + c, d, e, pat);
    lemma_three(a + b + c + d + e, f, g, pat);
    lemma_occurrences_add(a + b + c + d + e + f + g, h, pat);
    lemma_clean_end_add(a + b + c + d + e + f + g, h, pat);
    assert(programme_head(p, offset_minutes) =~= a + b + c + d + e + f + g + h);
}

proof fn lemma_programme_extras(p: XmltvProgrammeView, pat: Seq<char>)
    requires
        counted(pat),
    ensures
        occurrences(credits_xml(p), pat) == 0,
        clean_end(credits_xml(p), pat),
        occurrences(rating_xml(p), pat) == 0,
        clean_end(rating_xml(p), pat),
        occurrences(shown_xml(p), pat) == 0,
        clean_end(shown_xml(p), pat),
{
    lemma_tags();
    lemma_extra_literals(pat);
    lemma_no_lt(Seq::<char>::empty(), pat);
    if p.actors.len() > 0 || p.directors.len() > 0 {
        let a = "    <credits>\n"@;
        let b = tagged(p.directors, "      <director>"@, "</director>\n"@, true);
        let c = tagged(p.actors, "      <actor>"@, "</actor>\n"@, true);
        let d = "    </credits>\n"@;
        lemma_lt_ok(a, pat);
        lemma_lt_ok(d, pat);
        lemma_tagged(p.directors, "      <director>"@, "</director>\n"@, true, pat);
        lemma_tagged(p.actors, "      <actor>"@, "</actor>\n"@, true, pat);
        lemma_three(a, b, c, pat);
        lemma_occurrences_add(a + b + c, d, pat);
        lemma_clean_end_add(a + b + c, d, pat);
    }
    if let Some(v) = p.rating_value {
        if !is_blank(v) {
            let a = "    <rating system=\""@;
            let b = esc_spec(unwrap_or(p.rating_system, "unknown"@));
            let c = "\"><value>"@;
            let d = esc_spec(v);
            let e = "</value></rating>\n"@;
            lemma_lt_ok(a, pat);
            lemma_lt_ok(c, pat);
            lemma_lt_ok(e, pat);
            lemma_esc(unwrap_or(p.rating_system, "unknown"@), pat);
            lemma_esc(v, pat);
            lemma_three(a, b, c, pat);
            lemma_three(a + b + c, d, e, pat);
        }
    }
    lemma_lt_ok("    <previously-shown/>\n"@, pat);
}

/// A written programme element holds one `<programme ` and no `<channel `;
/// a programme that is not written adds nothing.
proof fn lemma_programme_xml(p: XmltvProgrammeView, offset_minutes: int, pat: Seq<char>)
    requires
        counted(pat),
    ensures
        occurrences(programme_xml(p, offset_minutes), pat) == (if pat == programme_tag()
            && programme_shown(p) {
            1nat
        } else {
            0nat
        }),
        clean_end(programme_xml(p, offset_minutes), pat),
{
    lemma_tags();
    lemma_no_lt(Seq::<char>::empty(), pat);
    if programme_shown(p) {
        lemma_programme_literals(pat);
        lemma_programme_head(p, offset_minutes, pat);
        lemma_programme_extras(p, pat);
        let a = programme_head(p, offset_minutes);
        let b = opt_tag(p.subtitle, "    <sub-title>"@, "</sub-title>\n"@);
        let c = opt_tag(p.description, "    <desc>"@, "</desc>\n"@);
        let d = tagged(p.categories, "    <category>"@, "</category>\n"@, true);
        let e = opt_tag(p.icon, "    <icon src=\""@, "\"/>\n"@);
        let f = credits_xml(p);
        let g = rating_xml(p);
        let h = shown_xml(p);
        let k = "  </programme>\n"@;
        lemma_opt_tag(p.subtitle, "    <sub-title>"@, "</sub-title>\n"@, pat);
        lemma_opt_tag(p.description, "    <desc>"@, "</desc>\n"@, pat);
        lemma_tagged(p.categories, "    <category>"@, "</category>\n"@, true, pat);
        lemma_opt_tag(p.icon, "    <icon src=\""@, "\"/>\n"@, pat);
        lemma_lt_ok(k, pat);
        lemma_three(a, b, c, pat);
        lemma_three(a + b + c, d, e, pat);
        lemma_three(a + b + c + d + e, f, g, pat);
        lemma_three(a + b + c + d + e + f + g, h, k, pat);
    }
}

proof fn lemma_channels_xml(cs: Seq<XmltvChannelView>, pat: Seq<char>)
    requires
        counted(pat),
    ensures
        occurrences(channels_xml(cs), pat) == (if pat == channel_tag() {
            cs.len()
        } else {
            0nat
        }),
        clean_end(channels_xml(cs), pat),
    decreases cs.len(),
{
    lemma_tags();
    lemma_no_lt(Seq::<char>::empty(), pat);
    if cs.len() > 0 {
        lemma_channel_xml(cs[0], pat);
        lemma_channels_xml(cs.drop_first(), pat);
        lemma_occurrences_add(channel_xml(cs[0]), channels_xml(cs.drop_first()), pat);
        lemma_clean_end_add(channel_xml(cs[0]), channels_xml(cs.drop_first()), pat);
    }
}

proof fn lemma_programmes_xml(ps: Seq<XmltvProgrammeView>, offset_minutes: int, pat: Seq<char>)
    requires
        counted(pat),
    ensures
        occurrences(programmes_xml(ps, offset_minutes), pat) == (if pat == programme_tag() {
            shown_programmes(ps).len()
        } else {
            0nat
        }),
        clean_end(programmes_xml(ps, offset_minutes), pat),
    decreases ps.len(),
{
    lemma_tags();
    lemma_no_lt(Seq::<char>::empty(), pat);
    if ps.len() > 0 {
        lemma_programme_xml(ps[0], offset_minutes, pat);
        lemma_programmes_xml(ps.drop_first(), offset_minutes, pat);
        lemma_occurrences_add(
            programme_xml(ps[0], offset_minutes),
            programmes_xml(ps.drop_first(), offset_minutes),
            pat,
        );
        lemma_clean_end_add(
            programme_xml(ps[0], offset_minutes),
            programmes_xml(ps.drop_first(), offset_minutes),
            pat,
        );
    }
}

proof fn lemma_document_counts(
    cs: Seq<XmltvChannelView>,
    ps: Seq<XmltvProgrammeView>,
    generator: Seq<char>,
    offset_minutes: int,
    pat: Seq<char>,
)
    requires
        counted(pat),
    ensures
        occurrences(xmltv_spec(cs, ps, generator, offset_minutes), pat) == (if pat == channel_tag() {
            cs.len()
        } else {
            shown_programmes(ps).len()
        }),
{
    lemma_tags();
    reveal_strlit("<channel ");
    reveal_strlit("<programme ");
    assert(channel_tag() != programme_tag()) by {
        assert(channel_tag().len() != programme_tag().len());
    }
    lemma_extra_literals(pat);
    lemma_programme_literals(pat);
    let a = "<?xml version=\"1.0\" encoding=\"UTF-8\"?>\n"@;
    let b = "<tv generator-info-name=\""@;
    let c = esc_spec(generator);
    let d = "\">\n"@;
    let e = channels_xml(cs);
    let f = programmes_xml(ps, offset_minutes);
    let g = "</tv>\n"@;
    lemma_lt_ok(a, pat);
    lemma_lt_ok(b, pat);
    lemma_esc(generator, pat);
    lemma_lt_ok(d, pat);
    lemma_channels_xml(cs, pat);
    lemma_programmes_xml(ps, offset_minutes, pat);
    lemma_lt_ok(g, pat);
    lemma_three(a, b, c, pat);
    lemma_three(a + b + c, d, e, pat);
    lemma_occurrences_add(a + b + c + d + e, f, pat);
    lemma_clean_end_add(a + b + c + d + e, f, pat);
    lemma_occurrences_add(a + b + c + d + e + f, g, pat);
}

/// The guide holds one `<channel ` for each channel and one `<programme `
/// for each programme that ends after it starts and has a title.
pub proof fn law_xmltv_element_counts(
    cs: Seq<XmltvChannelView>,
    ps: Seq<XmltvProgrammeView>,
    generator: Seq<char>,
    offset_minutes: int,
)
    ensures
        occurrences(xmltv_spec(cs, ps, generator, offset_minutes), channel_tag()) == cs.len(),
        occurrences(xmltv_spec(cs, ps, generator, offset_minutes), programme_tag()) == shown_programmes(
            ps,
        ).len(),
{
    reveal_strlit("<channel ");
    reveal_strlit("<programme ");
    assert(channel_tag() != programme_tag()) by {
        assert(channel_tag().len() != programme_tag().len());
    }
    lemma_document_counts(cs, ps, generator, offset_minutes, channel_tag());
    lemma_document_counts(cs, ps, generator, offset_minutes, programme_tag());
}

} // verus!
