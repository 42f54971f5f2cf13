//! M3U playlists: the entry model, the parser and the writer.
use vstd::prelude::*;

use crate::text::{
    lacks, lemma_replace_keeps_out, lemma_replace_removes, append_chars, append_str, chars_of, find, find_char, find_char_exec, find_exec, lowercase,
    lower_chars, opt_chars_view, opt_view, replace, replace_str, rfind_char, rfind_char_exec, split, split_chars,
    starts_with, starts_with_exec, string_of, subrange, trim, trim_chars, views,
};

verus! {

pub struct PlaylistEntry {
    pub tvg_id: Option<String>,
    pub tvg_name: Option<String>,
    pub name: String,
    pub label: Option<String>,
    pub group: Option<String>,
    pub logo: Option<String>,
    pub url: String,
    pub raw_extinf: String,
}

pub struct EntryView {
    pub tvg_id: Option<Seq<char>>,
    pub tvg_name: Option<Seq<char>>,
    pub name: Seq<char>,
    pub label: Option<Seq<char>>,
    pub group: Option<Seq<char>>,
    pub logo: Option<Seq<char>>,
    pub url: Seq<char>,
    pub raw_extinf: Seq<char>,
}

impl View for PlaylistEntry {
    type V = EntryView;

    open spec fn view(&self) -> EntryView {
        EntryView {
            tvg_id: opt_view(self.tvg_id),
            tvg_name: opt_view(self.tvg_name),
            name: self.name@,
            label: opt_view(self.label),
            group: opt_view(self.group),
            logo: opt_view(self.logo),
            url: self.url@,
            raw_extinf: self.raw_extinf@,
        }
    }
}

pub open spec fn entry_views(v: Seq<PlaylistEntry>) -> Seq<EntryView> {
    v.map_values(|e: PlaylistEntry| e@)
}

pub proof fn lemma_entry_views_push(v: Seq<PlaylistEntry>, e: PlaylistEntry)
    ensures
        entry_views(v.push(e)) == entry_views(v).push(e@),
{
    assert(entry_views(v.push(e)) =~= entry_views(v).push(e@));
}

pub fn clone_opt(o: &Option<String>) -> (res: Option<String>)
    ensures
        opt_view(res) == opt_view(*o),
{
    match o {
        Some(s) => Some(s.clone()),
        None => None,
    }
}

pub fn opt_string(o: Option<Vec<char>>) -> (res: Option<String>)
    ensures
        opt_view(res) == opt_chars_view(o),
{
    match o {
        Some(v) => Some(string_of(&v)),
        None => None,
    }
}

impl PlaylistEntry {
    /// A copy of the entry, field by field.
    pub fn duplicate(&self) -> (res: PlaylistEntry)
        ensures
            res@ == self@,
    {
        PlaylistEntry {
            tvg_id: clone_opt(&self.tvg_id),
            tvg_name: clone_opt(&self.tvg_name),
            name: self.name.clone(),
            label: clone_opt(&self.label),
            group: clone_opt(&self.group),
            logo: clone_opt(&self.logo),
            url: self.url.clone(),
            raw_extinf: self.raw_extinf.clone(),
        }
    }

    /// The genre: the first `|`-separated part of the group, trimmed, with
    /// anything from `(` on removed; "General" where that leaves nothing.
    pub fn genre(&self) -> (res: String)
        ensures
            res@ == genre_spec(self@.group),
    {
        let g = match &self.group {
            Some(g) => g,
            None => {
                return String::from_str("General");
            },
        };
        let gc = chars_of(g.as_str());
        let pieces = split_chars(&gc, '|');
        let first = trim_chars(&pieces[0]);
        let without = match find_char_exec(&first, '(') {
            Some(i) => {
                let head = subrange(&first, 0, i);
                trim_chars(&head)
            },
            None => first,
        };
        if without.len() == 0 {
            String::from_str("General")
        } else {
            string_of(&without)
        }
    }

    /// The country: the trimmed, lowercased text between the first `(` of the
    /// group and the `)` after it; "unknown" where there is none.
    pub fn country(&self) -> (res: String)
        ensures
            res@ == country_spec(self@.group),
    {
        let g = match &self.group {
            Some(g) => g,
            None => {
                return String::from_str("unknown");
            },
        };
        let gc = chars_of(g.as_str());
        let n = gc.len();
        if let Some(start) = find_char_exec(&gc, '(') {
            let after = subrange(&gc, start + 1, n);
            if let Some(end) = find_char_exec(&after, ')') {
                let c = subrange(&gc, start + 1, start + 1 + end);
                assert(c@ =~= after@.take(end as int));
                let t = trim_chars(&c);
                if t.len() > 0 {
                    let low = lower_chars(&t);
                    return string_of(&low);
                }
            }
        }
        String::from_str("unknown")
    }
}

/// What `genre` returns for a group.
pub open spec fn genre_spec(group: Option<Seq<char>>) -> Seq<char> {
    match group {
        None => "General"@,
        Some(g) => {
            let first = trim(split(g, '|')[0]);
            let without = match find_char(first, '(') {
                Some(i) => trim(first.take(i)),
                None => first,
            };
            if without.len() == 0 {
                "General"@
            } else {
                without
            }
        },
    }
}

/// What `country` returns for a group.
pub open spec fn country_spec(group: Option<Seq<char>>) -> Seq<char> {
    match group {
        None => "unknown"@,
        Some(g) => match find_char(g, '(') {
            None => "unknown"@,
            Some(s) => match find_char(g.skip(s + 1), ')') {
                None => "unknown"@,
                Some(e) => {
                    let c = trim(g.subrange(s + 1, s + 1 + e));
                    if c.len() > 0 {
                        lowercase(c)
                    } else {
                        "unknown"@
                    }
                },
            },
        },
    }
}

pub struct Playlist {
    pub name: String,
    pub entries: Vec<PlaylistEntry>,
}

impl Playlist {
    pub fn new(name: &str) -> (res: Self)
        ensures
            res.name@ == name@,
            res.entries@.len() == 0,
    {
        Playlist { name: String::from_str(name), entries: Vec::new() }
    }

    pub fn push(&mut self, entry: PlaylistEntry)
        ensures
            final(self).name == old(self).name,
            final(self).entries@ == old(self).entries@.push(entry),
    {
        self.entries.push(entry);
    }

    pub fn len(&self) -> (res: usize)
        ensures
            res == self.entries@.len(),
    {
        self.entries.len()
    }

    pub fn is_empty(&self) -> (res: bool)
        ensures
            res == (self.entries@.len() == 0),
    {
        self.entries.len() == 0
    }
}

// ------------------------------------------------------------------
// Parsing
// ------------------------------------------------------------------

/// The value of attribute `attr` in an `#EXTINF` line: the text between
/// the first `attr="` and the next `"`, trimmed; `None` if it is missing or
/// empty.
pub open spec fn extract_attr_spec(line: Seq<char>, attr: Seq<char>) -> Option<Seq<char>> {
    let pat = attr + "=\""@;
    match find(line, pat) {
        None => None,
        Some(st) => {
            let rest = line.skip(st + pat.len());
            match find_char(rest, '"') {
                None => None,
                Some(e) => {
                    let v = trim(rest.take(e));
                    if v.len() == 0 {
                        None
                    } else {
                        Some(v)
                    }
                },
            }
        },
    }
}

/// The label of an `#EXTINF` line: what follows its last comma, trimmed;
/// `None` if there is no comma or nothing follows.
pub open spec fn extract_label_spec(line: Seq<char>) -> Option<Seq<char>> {
    match rfind_char(line, ',') {
        None => None,
        Some(ci) => {
            let l = trim(line.skip(ci + 1));
            if l.len() == 0 {
                None
            } else {
                Some(l)
            }
        },
    }
}

pub open spec fn or_else(a: Option<Seq<char>>, b: Option<Seq<char>>) -> Option<Seq<char>> {
    if a is Some {
        a
    } else {
        b
    }
}

/// The entry that an `#EXTINF` line and the URL line after it describe.
pub open spec fn entry_spec(extinf: Seq<char>, url: Seq<char>) -> EntryView {
    let tvg_id = extract_attr_spec(extinf, "tvg-id"@);
    let tvg_name = extract_attr_spec(extinf, "tvg-name"@);
    let label = extract_label_spec(extinf);
    let name = match or_else(or_else(tvg_name, label), tvg_id) {
        Some(n) => n,
        None => "Unknown Channel"@,
    };
    EntryView {
        tvg_id,
        tvg_name,
        name,
        label,
        group: extract_attr_spec(extinf, "group-title"@),
        logo: extract_attr_spec(extinf, "tvg-logo"@),
        url,
        raw_extinf: extinf,
    }
}

/// The entries of the remaining lines, given the pending `#EXTINF` line.
pub open spec fn m3u_lines(lines: Seq<Seq<char>>, cur: Option<Seq<char>>) -> Seq<EntryView>
    decreases lines.len(),
{
    if lines.len() == 0 {
        seq![]
    } else {
        let line = trim(lines[0]);
        let rest = lines.drop_first();
        if starts_with(line, "#EXTINF"@) {
            m3u_lines(rest, Some(line))
        } else if starts_with(line, "http"@) {
            match cur {
                Some(e) => seq![entry_spec(e, line)] + m3u_lines(rest, None),
                None => m3u_lines(rest, None),
            }
        } else {
            m3u_lines(rest, cur)
        }
    }
}

/// What `parse_m3u` returns: each URL line that follows an `#EXTINF` line
/// (with other lines between them skipped) gives one entry.
pub open spec fn parse_spec(content: Seq<char>) -> Seq<EntryView> {
    m3u_lines(split(content, '\n'), None)
}

pub fn extract_attr_chars(line: &Vec<char>, attr: &str) -> (res: Option<Vec<char>>)
    ensures
        match res {
            Some(v) => extract_attr_spec(line@, attr@) == Some(v@),
            None => extract_attr_spec(line@, attr@) is None,
        },
{
    let mut pat = chars_of(attr);
    append_str(&mut pat, "=\"");
    let st = match find_exec(line, &pat) {
        Some(st) => st,
        None => return None,
    };
    proof {
        crate::text::lemma_find_facts(line@, pat@);
    }
    let n = line.len();
    let rest = subrange(line, st + pat.len(), n);
    assert(rest@ =~= line@.skip(st + pat@.len()));
    let e = match find_char_exec(&rest, '"') {
        Some(e) => e,
        None => return None,
    };
    proof {
        crate::text::lemma_find_facts(rest@, seq!['"']);
    }
    let head = subrange(&rest, 0, e);
    assert(head@ =~= rest@.take(e as int));
    let v = trim_chars(&head);
    if v.len() == 0 {
        None
    } else {
        Some(v)
    }
}

/// The value of attribute `attr` in an `#EXTINF` line.
pub fn extract_attr(line: &str, attr: &str) -> (res: Option<String>)
    ensures
        opt_view(res) == extract_attr_spec(line@, attr@),
{
    let l = chars_of(line);
    opt_string(extract_attr_chars(&l, attr))
}

pub fn extract_label_chars(line: &Vec<char>) -> (res: Option<Vec<char>>)
    ensures
        match res {
            Some(v) => extract_label_spec(line@) == Some(v@),
            None => extract_label_spec(line@) is None,
        },
{
    let ci = match rfind_char_exec(line, ',') {
        Some(ci) => ci,
        None => return None,
    };
    proof {
        crate::text::lemma_rfind_char_facts(line@, ',');
    }
    let n = line.len();
    let rest = subrange(line, ci + 1, n);
    assert(rest@ =~= line@.skip(ci + 1));
    let l = trim_chars(&rest);
    if l.len() == 0 {
        None
    } else {
        Some(l)
    }
}

/// The label of an `#EXTINF` line.
pub fn extract_label(line: &str) -> (res: Option<String>)
    ensures
        opt_view(res) == extract_label_spec(line@),
{
    let l = chars_of(line);
    opt_string(extract_label_chars(&l))
}

fn entry_from(extinf: &Vec<char>, url: &Vec<char>) -> (res: PlaylistEntry)
    ensures
        res@ == entry_spec(extinf@, url@),
{
    let tvg_id = opt_string(extract_attr_chars(extinf, "tvg-id"));
    let tvg_name = opt_string(extract_attr_chars(extinf, "tvg-name"));
    let group = opt_string(extract_attr_chars(extinf, "group-title"));
    let logo = opt_string(extract_attr_chars(extinf, "tvg-logo"));
    let label = opt_string(extract_label_chars(extinf));
    let name = match &tvg_name {
        Some(n) => n.clone(),
        None => match &label {
            Some(l) => l.clone(),
            None => match &tvg_id {
                Some(t) => t.clone(),
                None => String::from_str("Unknown Channel"),
            },
        },
    };
    PlaylistEntry {
        tvg_id,
        tvg_name,
        name,
        label,
        group,
        logo,
        url: string_of(url),
        raw_extinf: string_of(extinf),
    }
}

/// Reads the entries of an M3U playlist.
pub fn parse_m3u(content: &str) -> (res: Vec<PlaylistEntry>)
    ensures
        entry_views(res@) == parse_spec(content@),
{
    let c = chars_of(content);
    let lines = split_chars(&c, '\n');
    let extinf_tag = chars_of("#EXTINF");
    let http_tag = chars_of("http");
    let mut entries: Vec<PlaylistEntry> = Vec::new();
    let mut current: Option<Vec<char>> = None;
    let mut i: usize = 0;
    assert(views(lines@).skip(0) =~= views(lines@));
    assert(entry_views(entries@) =~= Seq::<EntryView>::empty());
    while i < lines.len()
        invariant
            i <= lines.len(),
            extinf_tag@ == "#EXTINF"@,
            http_tag@ == "http"@,
            views(lines@) == split(content@, '\n'),
            entry_views(entries@) + m3u_lines(
                views(lines@).skip(i as int),
                opt_chars_view(current),
            ) == parse_spec(content@),
        decreases lines.len() - i,
    {
        let ghost rest = views(lines@).skip(i as int);
        let ghost before = entry_views(entries@);
        assert(rest[0] == lines@[i as int]@);
        assert(rest.drop_first() =~= views(lines@).skip(i + 1));
        let line = trim_chars(&lines[i]);
        if starts_with_exec(&line, &extinf_tag) {
            current = Some(line);
        } else if starts_with_exec(&line, &http_tag) {
            match current {
                Some(e) => {
                    let entry = entry_from(&e, &line);
                    proof {
                        lemma_entry_views_push(entries@, entry);
                    }
                    entries.push(entry);
                    assert(entry_views(entries@) + m3u_lines(views(lines@).skip(i + 1), None) =~= before
                        + (seq![entry_spec(e@, line@)] + m3u_lines(views(lines@).skip(i + 1), None)));
                },
                None => {},
            }
            current = None;
        }
        i = i + 1;
    }
    assert(views(lines@).skip(i as int) =~= Seq::<Seq<char>>::empty());
    assert(entry_views(entries@) + Seq::<EntryView>::empty() =~= entry_views(entries@));
    entries
}

// ------------------------------------------------------------------
// Writing
// ------------------------------------------------------------------

/// `&`, `"`, `<` and `>` written as entities, in that order.
pub open spec fn escape_attr_spec(v: Seq<char>) -> Seq<char> {
    replace(replace(replace(replace(v, "&"@, "&amp;"@), "\""@, "&quot;"@), "<"@, "&lt;"@), ">"@, "&gt;"@)
}

pub open spec fn unwrap_or(o: Option<Seq<char>>, d: Seq<char>) -> Seq<char> {
    match o {
        Some(v) => v,
        None => d,
    }
}

/// The two lines that `build_m3u` writes for one entry.
pub open spec fn entry_text(e: EntryView) -> Seq<char> {
    "#EXTINF:-1 tvg-id=\""@ + escape_attr_spec(unwrap_or(e.tvg_id, ""@)) + "\" tvg-name=\""@
        + escape_attr_spec(unwrap_or(e.tvg_name, e.name)) + "\" tvg-logo=\""@ + escape_attr_spec(
        unwrap_or(e.logo, ""@),
    ) + "\" group-title=\""@ + escape_attr_spec(unwrap_or(e.group, "General"@)) + "\","@ + e.name
        + "\n"@ + e.url + "\n"@
}

pub open spec fn entries_text(es: Seq<EntryView>) -> Seq<char>
    decreases es.len(),
{
    if es.len() == 0 {
        seq![]
    } else {
        entry_text(es[0]) + entries_text(es.drop_first())
    }
}

/// What `build_m3u` returns.
pub open spec fn m3u_text(es: Seq<EntryView>) -> Seq<char> {
    "#EXTM3U\n"@ + entries_text(es)
}

/// An escaped attribute value holds no `"`, `<` or `>`: it cannot end
/// the attribute or the line's markup.
pub proof fn law_escape_attr_closed(v: Seq<char>)
    ensures
        lacks(escape_attr_spec(v), '"'),
        lacks(escape_attr_spec(v), '<'),
        lacks(escape_attr_spec(v), '>'),
{
    reveal_strlit("&");
    reveal_strlit("&amp;");
    reveal_strlit("\"");
    reveal_strlit("&quot;");
    reveal_strlit("<");
    reveal_strlit("&lt;");
    reveal_strlit(">");
    reveal_strlit("&gt;");
    let a = replace(v, "&"@, "&amp;"@);
    let b = replace(a, "\""@, "&quot;"@);
    let c = replace(b, "<"@, "&lt;"@);
    assert("\""@ =~= seq!['"']);
    assert("<"@ =~= seq!['<']);
    assert(">"@ =~= seq!['>']);
    lemma_replace_removes(a, '"', "&quot;"@);
    lemma_replace_keeps_out(b, "<"@, "&lt;"@, '"');
    lemma_replace_keeps_out(c, ">"@, "&gt;"@, '"');
    lemma_replace_removes(b, '<', "&lt;"@);
    lemma_replace_keeps_out(c, ">"@, "&gt;"@, '<');
    lemma_replace_removes(c, '>', "&gt;"@);
}

pub fn escape_attr_chars(v: &Vec<char>) -> (res: Vec<char>)
    ensures
        res@ == escape_attr_spec(v@),
{
    proof {
        reveal_strlit("&");
        reveal_strlit("\"");
        reveal_strlit("<");
        reveal_strlit(">");
    }
    let a = replace_str(v, "&", "&amp;");
    let b = replace_str(&a, "\"", "&quot;");
    let c = replace_str(&b, "<", "&lt;");
    replace_str(&c, ">", "&gt;")
}

/// An attribute value with `&`, `"`, `<` and `>` written as entities.
pub fn escape_attr(value: &str) -> (res: String)
    ensures
        res@ == escape_attr_spec(value@),
{
    let v = chars_of(value);
    let e = escape_attr_chars(&v);
    string_of(&e)
}

fn chars_or(o: &Option<String>, d: &Vec<char>) -> (res: Vec<char>)
    ensures
        res@ == unwrap_or(opt_view(*o), d@),
{
    match o {
        Some(s) => chars_of(s.as_str()),
        None => d.clone(),
    }
}

fn build_entry_chars(entry: &PlaylistEntry) -> (res: Vec<char>)
    ensures
        res@ == entry_text(entry@),
{
    let empty = chars_of("");
    let name = chars_of(entry.name.as_str());
    let general = chars_of("General");
    let tvg_id = chars_or(&entry.tvg_id, &empty);
    let tvg_name = chars_or(&entry.tvg_name, &name);
    let logo = chars_or(&entry.logo, &empty);
    let group = chars_or(&entry.group, &general);
    let mut out = chars_of("#EXTINF:-1 tvg-id=\"");
    append_chars(&mut out, &escape_attr_chars(&tvg_id));
    append_str(&mut out, "\" tvg-name=\"");
    append_chars(&mut out, &escape_attr_chars(&tvg_name));
    append_str(&mut out, "\" tvg-logo=\"");
    append_chars(&mut out, &escape_attr_chars(&logo));
    append_str(&mut out, "\" group-title=\"");
    append_chars(&mut out, &escape_attr_chars(&group));
    append_str(&mut out, "\",");
    append_chars(&mut out, &name);
    append_str(&mut out, "\n");
    append_str(&mut out, entry.url.as_str());
    append_str(&mut out, "\n");
    assert(out@ =~= entry_text(entry@));
    out
}

/// The two lines of an entry: its `#EXTINF` line with escaped attributes,
/// then its URL.
pub fn build_entry(entry: &PlaylistEntry) -> (res: String)
    ensures
        res@ == entry_text(entry@),
{
    let c = build_entry_chars(entry);
    string_of(&c)
}

/// The playlist as M3U text: the header line, then each entry.
pub fn build_m3u(playlist: &Playlist) -> (res: String)
    ensures
        res@ == m3u_text(entry_views(playlist.entries@)),
{
    let es = &playlist.entries;
    let mut out = chars_of("#EXTM3U\n");
    let ghost total = m3u_text(entry_views(es@));
    let mut i: usize = 0;
    assert(entry_views(es@).skip(0) =~= entry_views(es@));
    while i < es.len()
        invariant
            i <= es.len(),
            out@ + entries_text(entry_views(es@).skip(i as int)) == total,
        decreases es.len() - i,
    {
        let ghost rest = entry_views(es@).skip(i as int);
        let ghost o = out@;
        assert(rest[0] == es@[i as int]@);
        assert(rest.drop_first() =~= entry_views(es@).skip(i + 1));
        let t = build_entry_chars(&es[i]);
        append_chars(&mut out, &t);
        i = i + 1;
        assert(out@ + entries_text(entry_views(es@).skip(i as int)) =~= o + entries_text(rest));
    }
    assert(entry_views(es@).skip(i as int) =~= Seq::<EntryView>::empty());
    assert(out@ + Seq::<char>::empty() =~= out@);
    string_of(&out)
}

} // verus!
