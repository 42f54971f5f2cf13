//! XMLTV documents: channels and programmes written as XML text.
use vstd::prelude::*;

use crate::channel::{Channel, Programme};
use crate::playlist::{clone_opt, unwrap_or};
use crate::text::{
    append_chars, append_str, chars_of, clone_strings, lacks, lemma_replace_keeps_out, lemma_replace_removes, extend_new, lemma_string_views_push, opt_view,
    push_new, replace, replace_str, starts_with, string_of, string_views, trim, trim_chars,
};
use crate::time::{format_xmltv_time, ts_lt, xmltv_time_spec, Timestamp};

verus! {

#[verifier::external_type_specification]
#[verifier::external_body]
pub struct ExAnyhowError(anyhow::Error);

pub struct XmltvChannel {
    pub id: String,
    pub display_names: Vec<String>,
    pub icon: Option<String>,
}

pub struct XmltvChannelView {
    pub id: Seq<char>,
    pub display_names: Seq<Seq<char>>,
    pub icon: Option<Seq<char>>,
}

impl View for XmltvChannel {
    type V = XmltvChannelView;

    open spec fn view(&self) -> XmltvChannelView {
        XmltvChannelView {
            id: self.id@,
            display_names: string_views(self.display_names@),
            icon: opt_view(self.icon),
        }
    }
}

impl XmltvChannel {
    /// A channel with one display name and no icon.
    pub fn new(id: &str, name: &str) -> (res: Self)
        ensures
            res@.id == id@,
            res@.display_names == seq![name@],
            res@.icon is None,
    {
        let mut names: Vec<String> = Vec::new();
        let n = String::from_str(name);
        proof {
            lemma_string_views_push(names@, n);
        }
        names.push(n);
        assert(string_views(names@) =~= seq![name@]);
        XmltvChannel { id: String::from_str(id), display_names: names, icon: None }
    }
}

/// The display names of a channel: its name, then its tvg name where that
/// differs.
pub open spec fn channel_names(c: Channel) -> Seq<Seq<char>> {
    match c.tvg_name {
        Some(t) => if t@ != c.name@ {
            seq![c.name@, t@]
        } else {
            seq![c.name@]
        },
        None => seq![c.name@],
    }
}

impl XmltvChannel {
    /// The XMLTV channel of a channel: its id, its names and its logo.
    pub fn from_channel(channel: &Channel) -> (res: Self)
        ensures
            res@.id == channel.id@,
            res@.display_names == channel_names(*channel),
            res@.icon == opt_view(channel.logo),
    {
        let mut item = XmltvChannel::new(channel.id.as_str(), channel.name.as_str());
        match &channel.tvg_name {
            Some(t) => {
                if *t != channel.name {
                    let x = t.clone();
                    proof {
                        lemma_string_views_push(item.display_names@, x);
                    }
                    item.display_names.push(x);
                }
            },
            None => {},
        }
        item.icon = clone_opt(&channel.logo);
        assert(item@.display_names =~= channel_names(*channel));
        item
    }
}

pub struct XmltvProgramme {
    pub channel_id: String,
    pub start: Timestamp,
    pub stop: Timestamp,
    pub title: String,
    pub subtitle: Option<String>,
    pub description: Option<String>,
    pub categories: Vec<String>,
    pub icon: Option<String>,
    pub actors: Vec<String>,
    pub directors: Vec<String>,
    pub rating_system: Option<String>,
    pub rating_value: Option<String>,
    pub previously_shown: bool,
}

pub struct XmltvProgrammeView {
    pub channel_id: Seq<char>,
    pub start: (int, int),
    pub stop: (int, int),
    pub title: Seq<char>,
    pub subtitle: Option<Seq<char>>,
    pub description: Option<Seq<char>>,
    pub categories: Seq<Seq<char>>,
    pub icon: Option<Seq<char>>,
    pub actors: Seq<Seq<char>>,
    pub directors: Seq<Seq<char>>,
    pub rating_system: Option<Seq<char>>,
    pub rating_value: Option<Seq<char>>,
    pub previously_shown: bool,
}

impl View for XmltvProgramme {
    type V = XmltvProgrammeView;

    open spec fn view(&self) -> XmltvProgrammeView {
        XmltvProgrammeView {
            channel_id: self.channel_id@,
            start: self.start@,
            stop: self.stop@,
            title: self.title@,
            subtitle: opt_view(self.subtitle),
            description: opt_view(self.description),
            categories: string_views(self.categories@),
            icon: opt_view(self.icon),
            actors: string_views(self.actors@),
            directors: string_views(self.directors@),
            rating_system: opt_view(self.rating_system),
            rating_value: opt_view(self.rating_value),
            previously_shown: self.previously_shown,
        }
    }
}

impl XmltvProgramme {
    /// The XMLTV programme of a programme: its categories followed by each
    /// genre not among them yet, its image as icon, and its repeat flag as
    /// previously shown.
    pub fn from_programme(p: &Programme) -> (res: Self)
        ensures
            res@.channel_id == p.channel_id@,
            res@.start == p.start@,
            res@.stop == p.stop@,
            res@.title == p.title@,
            res@.subtitle == opt_view(p.subtitle),
            res@.description == opt_view(p.description),
            res@.categories == push_new(string_views(p.categories@), string_views(p.genres@)),
            res@.icon == opt_view(p.image),
            res@.actors == string_views(p.actors@),
            res@.directors == string_views(p.directors@),
            res@.rating_system == opt_view(p.rating_system),
            res@.rating_value == opt_view(p.rating_value),
            res@.previously_shown == p.is_repeat,
    {
        let mut categories = clone_strings(&p.categories);
        extend_new(&mut categories, &p.genres);
        XmltvProgramme {
            channel_id: p.channel_id.clone(),
            start: p.start,
            stop: p.stop,
            title: p.title.clone(),
            subtitle: clone_opt(&p.subtitle),
            description: clone_opt(&p.description),
            categories,
            icon: clone_opt(&p.image),
            actors: clone_strings(&p.actors),
            directors: clone_strings(&p.directors),
            rating_system: clone_opt(&p.rating_system),
            rating_value: clone_opt(&p.rating_value),
            previously_shown: p.is_repeat,
        }
    }
}

// ------------------------------------------------------------------
// Escaping
// ------------------------------------------------------------------

/// Text with `&`, `<`, `>`, `"` and `'` written as entities, in that order.
pub open spec fn esc_spec(v: Seq<char>) -> Seq<char> {
    replace(
        replace(replace(replace(replace(v, "&"@, "&amp;"@), "<"@, "&lt;"@), ">"@, "&gt;"@), "\""@, "&quot;"@),
        "'"@,
        "&apos;"@,
    )
}

/// Escaped text holds no `<`, `>`, `"` or `'`: it cannot open or close a
/// tag or end an attribute value.
pub proof fn law_esc_markup_free(v: Seq<char>)
    ensures
        lacks(esc_spec(v), '<'),
        lacks(esc_spec(v), '>'),
        lacks(esc_spec(v), '"'),
        lacks(esc_spec(v), '\''),
{
    reveal_strlit("&");
    reveal_strlit("&amp;");
    reveal_strlit("<");
    reveal_strlit("&lt;");
    reveal_strlit(">");
    reveal_strlit("&gt;");
    reveal_strlit("\"");
    reveal_strlit("&quot;");
    reveal_strlit("'");
    reveal_strlit("&apos;");
    let a = replace(v, "&"@, "&amp;"@);
    let b = replace(a, "<"@, "&lt;"@);
    let c = replace(b, ">"@, "&gt;"@);
    let d = replace(c, "\""@, "&quot;"@);
    let e = replace(d, "'"@, "&apos;"@);
    assert("<"@ =~= seq!['<']);
    assert(">"@ =~= seq!['>']);
    assert("\""@ =~= seq!['"']);
    assert("'"@ =~= seq!['\'']);
    lemma_replace_removes(a, '<', "&lt;"@);
    lemma_replace_keeps_out(b, ">"@, "&gt;"@, '<');
    lemma_replace_keeps_out(c, "\""@, "&quot;"@, '<');
    lemma_replace_keeps_out(d, "'"@, "&apos;"@, '<');
    lemma_replace_removes(b, '>', "&gt;"@);
    lemma_replace_keeps_out(c, "\""@, "&quot;"@, '>');
    lemma_replace_keeps_out(d, "'"@, "&apos;"@, '>');
    lemma_replace_removes(c, '"', "&quot;"@);
    lemma_replace_keeps_out(d, "'"@, "&apos;"@, '"');
    lemma_replace_removes(d, '\'', "&apos;"@);
}

pub fn esc_chars(v: &Vec<char>) -> (res: Vec<char>)
    ensures
        res@ == esc_spec(v@),
{
    proof {
        reveal_strlit("&");
        reveal_strlit("<");
        reveal_strlit(">");
        reveal_strlit("\"");
        reveal_strlit("'");
    }
    let a = replace_str(v, "&", "&amp;");
    let b = replace_str(&a, "<", "&lt;");
    let c = replace_str(&b, ">", "&gt;");
    let d = replace_str(&c, "\"", "&quot;");
    replace_str(&d, "'", "&apos;")
}

/// XML text with the markup characters written as entities.
pub fn esc(value: &str) -> (res: String)
    ensures
        res@ == esc_spec(value@),
{
    let v = chars_of(value);
    let e = esc_chars(&v);
    string_of(&e)
}

// ------------------------------------------------------------------
// Document text
// ------------------------------------------------------------------

pub open spec fn is_blank(s: Seq<char>) -> bool {
    trim(s).len() == 0
}

/// One line `open + esc(item) + close` per item, skipping blank items
/// where `skip_blank` is set.
pub open spec fn tagged(items: Seq<Seq<char>>, open: Seq<char>, close: Seq<char>, skip_blank: bool) -> Seq<
    char,
>
    decreases items.len(),
{
    if items.len() == 0 {
        seq![]
    } else {
        let first = if skip_blank && is_blank(items[0]) {
            seq![]
        } else {
            open + esc_spec(items[0]) + close
        };
        first + tagged(items.drop_first(), open, close, skip_blank)
    }
}

/// `open + esc(value) + close` for a present, non-blank value.
pub open spec fn opt_tag(o: Option<Seq<char>>, open: Seq<char>, close: Seq<char>) -> Seq<char> {
    match o {
        Some(v) => if is_blank(v) {
            seq![]
        } else {
            open + esc_spec(v) + close
        },
        None => seq![],
    }
}

pub open spec fn channel_xml(c: XmltvChannelView) -> Seq<char> {
    "  <channel id=\""@ + esc_spec(c.id) + "\">\n"@ + tagged(
        c.display_names,
        "    <display-name>"@,
        "</display-name>\n"@,
        false,
    ) + opt_tag(c.icon, "    <icon src=\""@, "\"/>\n"@) + "  </channel>\n"@
}

pub open spec fn credits_xml(p: XmltvProgrammeView) -> Seq<char> {
    if p.actors.len() > 0 || p.directors.len() > 0 {
        "    <credits>\n"@ + tagged(p.directors, "      <director>"@, "</director>\n"@, true) + tagged(
            p.actors,
            "      <actor>"@,
            "</actor>\n"@,
            true,
        ) + "    </credits>\n"@
    } else {
        seq![]
    }
}

pub open spec fn rating_xml(p: XmltvProgrammeView) -> Seq<char> {
    match p.rating_value {
        Some(v) => if is_blank(v) {
            seq![]
        } else {
            "    <rating system=\""@ + esc_spec(unwrap_or(p.rating_system, "unknown"@))
                + "\"><value>"@ + esc_spec(v) + "</value></rating>\n"@
        },
        None => seq![],
    }
}

pub open spec fn programme_head(p: XmltvProgrammeView, offset_minutes: int) -> Seq<char> {
    "  <programme start=\""@ + esc_spec(xmltv_time_spec(p.start, offset_minutes)) + "\" stop=\""@
        + esc_spec(xmltv_time_spec(p.stop, offset_minutes)) + "\" channel=\""@ + esc_spec(p.channel_id)
        + "\">\n"@ + "    <title>"@ + esc_spec(p.title) + "</title>\n"@
}

pub open spec fn shown_xml(p: XmltvProgrammeView) -> Seq<char> {
    if p.previously_shown {
        "    <previously-shown/>\n"@
    } else {
        seq![]
    }
}

/// A programme's element, or nothing for a programme that does not end
/// after it starts or has a blank title.
pub open spec fn programme_xml(p: XmltvProgrammeView, offset_minutes: int) -> Seq<char> {
    if !ts_lt(p.start, p.stop) || is_blank(p.title) {
        seq![]
    } else {
        programme_head(p, offset_minutes) + opt_tag(p.subtitle, "    <sub-title>"@, "</sub-title>\n"@)
            + opt_tag(p.description, "    <desc>"@, "</desc>\n"@) + tagged(
            p.categories,
            "    <category>"@,
            "</category>\n"@,
            true,
        ) + opt_tag(p.icon, "    <icon src=\""@, "\"/>\n"@) + credits_xml(p) + rating_xml(p)
            + shown_xml(p) + "  </programme>\n"@
    }
}

pub open spec fn channels_xml(cs: Seq<XmltvChannelView>) -> Seq<char>
    decreases cs.len(),
{
    if cs.len() == 0 {
        seq![]
    } else {
        channel_xml(cs[0]) + channels_xml(cs.drop_first())
    }
}

pub open spec fn programmes_xml(ps: Seq<XmltvProgrammeView>, offset_minutes: int) -> Seq<char>
    decreases ps.len(),
{
    if ps.len() == 0 {
        seq![]
    } else {
        programme_xml(ps[0], offset_minutes) + programmes_xml(ps.drop_first(), offset_minutes)
    }
}

/// The document that `build_xmltv_string` writes.
pub open spec fn xmltv_spec(
    cs: Seq<XmltvChannelView>,
    ps: Seq<XmltvProgrammeView>,
    generator: Seq<char>,
    offset_minutes: int,
) -> Seq<char> {
    "<?xml version=\"1.0\" encoding=\"UTF-8\"?>\n"@ + "<tv generator-info-name=\""@ + esc_spec(
        generator,
    ) + "\">\n"@ + channels_xml(cs) + programmes_xml(ps, offset_minutes) + "</tv>\n"@
}

pub open spec fn channel_views(v: Seq<XmltvChannel>) -> Seq<XmltvChannelView> {
    v.map_values(|c: XmltvChannel| c@)
}

pub open spec fn programme_views(v: Seq<XmltvProgramme>) -> Seq<XmltvProgrammeView> {
    v.map_values(|p: XmltvProgramme| p@)
}

fn push_tagged(
    out: &mut Vec<char>,
    items: &Vec<String>,
    open: &str,
    close: &str,
    skip_blank: bool,
)
    ensures
        final(out)@ == old(out)@ + tagged(string_views(items@), open@, close@, skip_blank),
{
    let ghost all = string_views(items@);
    let mut i: usize = 0;
    assert(all.skip(0) =~= all);
    assert(old(out)@ + Seq::<char>::empty() =~= old(out)@);
    while i < items.len()
        invariant
            i <= items.len(),
            all == string_views(items@),
            out@ + tagged(all.skip(i as int), open@, close@, skip_blank) == old(out)@ + tagged(
                all,
                open@,
                close@,
                skip_blank,
            ),
        decreases items.len() - i,
    {
        let ghost rest = all.skip(i as int);
        let ghost o = out@;
        assert(rest[0] == items@[i as int]@);
        assert(rest.drop_first() =~= all.skip(i + 1));
        let item = chars_of(items[i].as_str());
        let t = trim_chars(&item);
        if !(skip_blank && t.len() == 0) {
            append_str(out, open);
            append_chars(out, &esc_chars(&item));
            append_str(out, close);
        }
        i = i + 1;
        assert(out@ + tagged(all.skip(i as int), open@, close@, skip_blank) =~= o + tagged(
            rest,
            open@,
            close@,
            skip_blank,
        ));
    }
    assert(all.skip(i as int) =~= Seq::<Seq<char>>::empty());
}

fn push_opt_tag(out: &mut Vec<char>, o: &Option<String>, open: &str, close: &str)
    ensures
        final(out)@ == old(out)@ + opt_tag(opt_view(*o), open@, close@),
{
    match o {
        Some(v) => {
            let c = chars_of(v.as_str());
            let t = trim_chars(&c);
            if t.len() > 0 {
                append_str(out, open);
                append_chars(out, &esc_chars(&c));
                append_str(out, close);
            } else {
                assert(old(out)@ + Seq::<char>::empty() =~= old(out)@);
            }
        },
        None => {
            assert(old(out)@ + Seq::<char>::empty() =~= old(out)@);
        },
    }
}

fn push_channel(out: &mut Vec<char>, c: &XmltvChannel)
    ensures
        final(out)@ == old(out)@ + channel_xml(c@),
{
    append_str(out, "  <channel id=\"");
    append_chars(out, &esc_chars(&chars_of(c.id.as_str())));
    append_str(out, "\">\n");
    push_tagged(out, &c.display_names, "    <display-name>", "</display-name>\n", false);
    push_opt_tag(out, &c.icon, "    <icon src=\"", "\"/>\n");
    append_str(out, "  </channel>\n");
    assert(out@ =~= old(out)@ + channel_xml(c@));
}

fn push_programme_head(out: &mut Vec<char>, p: &XmltvProgramme, offset_minutes: i32)
    requires
        i32::MIN <= offset_minutes * 60 <= i32::MAX,
    ensures
        final(out)@ == old(out)@ + programme_head(p@, offset_minutes as int),
{
    let start = format_xmltv_time(&p.start, offset_minutes);
    let stop = format_xmltv_time(&p.stop, offset_minutes);
    append_str(out, "  <programme start=\"");
    append_chars(out, &esc_chars(&chars_of(start.as_str())));
    append_str(out, "\" stop=\"");
    append_chars(out, &esc_chars(&chars_of(stop.as_str())));
    append_str(out, "\" channel=\"");
    append_chars(out, &esc_chars(&chars_of(p.channel_id.as_str())));
    append_str(out, "\">\n");
    append_str(out, "    <title>");
    append_chars(out, &esc_chars(&chars_of(p.title.as_str())));
    append_str(out, "</title>\n");
    assert(out@ =~= old(out)@ + programme_head(p@, offset_minutes as int));
}

fn push_credits(out: &mut Vec<char>, p: &XmltvProgramme)
    ensures
        final(out)@ == old(out)@ + credits_xml(p@),
{
    if p.actors.len() > 0 || p.directors.len() > 0 {
        append_str(out, "    <credits>\n");
        push_tagged(out, &p.directors, "      <director>", "</director>\n", true);
        push_tagged(out, &p.actors, "      <actor>", "</actor>\n", true);
        append_str(out, "    </credits>\n");
        assert(out@ =~= old(out)@ + credits_xml(p@));
    } else {
        assert(out@ =~= old(out)@ + credits_xml(p@));
    }
}

fn push_rating(out: &mut Vec<char>, p: &XmltvProgramme)
    ensures
        final(out)@ == old(out)@ + rating_xml(p@),
{
    match &p.rating_value {
        Some(v) => {
            let vc = chars_of(v.as_str());
            let vt = trim_chars(&vc);
            if vt.len() > 0 {
                let system = match &p.rating_system {
                    Some(s) => chars_of(s.as_str()),
                    None => chars_of("unknown"),
                };
                append_str(out, "    <rating system=\"");
                append_chars(out, &esc_chars(&system));
                append_str(out, "\"><value>");
                append_chars(out, &esc_chars(&vc));
                append_str(out, "</value></rating>\n");
            }
        },
        None => {},
    }
    assert(out@ =~= old(out)@ + rating_xml(p@));
}

#[verifier::spinoff_prover]
#[verifier::rlimit(40)]
fn push_programme(out: &mut Vec<char>, p: &XmltvProgramme, offset_minutes: i32)
    requires
        i32::MIN <= offset_minutes * 60 <= i32::MAX,
    ensures
        final(out)@ == old(out)@ + programme_xml(p@, offset_minutes as int),
{
    let title = chars_of(p.title.as_str());
    let title_trim = trim_chars(&title);
    if !p.start.before(&p.stop) || title_trim.len() == 0 {
        assert(old(out)@ + Seq::<char>::empty() =~= old(out)@);
        return;
    }
    push_programme_head(out, p, offset_minutes);
    let ghost s1 = out@;
    push_opt_tag(out, &p.subtitle, "    <sub-title>", "</sub-title>\n");
    push_opt_tag(out, &p.description, "    <desc>", "</desc>\n");
    push_tagged(out, &p.categories, "    <category>", "</category>\n", true);
    push_opt_tag(out, &p.icon, "    <icon src=\"", "\"/>\n");
    let ghost s2 = out@;
    push_credits(out, p);
    push_rating(out, p);
    if p.previously_shown {
        append_str(out, "    <previously-shown/>\n");
    }
    assert(out@ =~= s2 + credits_xml(p@) + rating_xml(p@) + shown_xml(p@));
    append_str(out, "  </programme>\n");
    assert(out@ =~= old(out)@ + programme_xml(p@, offset_minutes as int));
}

/// The XMLTV document: the XML declaration, the `tv` element naming the
/// generator, each channel, then each programme that ends after it starts
/// and has a title, with times in the offset of `offset_minutes`.
pub fn build_xmltv_string(
    channels: &Vec<XmltvChannel>,
    programmes: &Vec<XmltvProgramme>,
    generator_name: &str,
    offset_minutes: i32,
) -> (res: Result<String, anyhow::Error>)
    requires
        i32::MIN <= offset_minutes * 60 <= i32::MAX,
    ensures
        res matches Ok(s) && s@ == xmltv_spec(
            channel_views(channels@),
            programme_views(programmes@),
            generator_name@,
            offset_minutes as int,
        ),
{
    let mut out = chars_of("<?xml version=\"1.0\" encoding=\"UTF-8\"?>\n");
    append_str(&mut out, "<tv generator-info-name=\"");
    append_chars(&mut out, &esc_chars(&chars_of(generator_name)));
    append_str(&mut out, "\">\n");
    let ghost head = out@;
    let mut i: usize = 0;
    assert(channel_views(channels@).skip(0) =~= channel_views(channels@));
    assert(head + Seq::<char>::empty() =~= head);
    while i < channels.len()
        invariant
            i <= channels.len(),
            out@ + channels_xml(channel_views(channels@).skip(i as int)) == head + channels_xml(
                channel_views(channels@),
            ),
        decreases channels.len() - i,
    {
        let ghost rest = channel_views(channels@).skip(i as int);
        let ghost o = out@;
        assert(rest[0] == channels@[i as int]@);
        assert(rest.drop_first() =~= channel_views(channels@).skip(i + 1));
        push_channel(&mut out, &channels[i]);
        i = i + 1;
        assert(out@ + channels_xml(channel_views(channels@).skip(i as int)) =~= o + channels_xml(
            rest,
        ));
    }
    assert(channel_views(channels@).skip(i as int) =~= Seq::<XmltvChannelView>::empty());
    assert(out@ + Seq::<char>::empty() =~= out@);
    let ghost mid = out@;
    let mut j: usize = 0;
    assert(programme_views(programmes@).skip(0) =~= programme_views(programmes@));
    while j < programmes.len()
        invariant
            i32::MIN <= offset_minutes * 60 <= i32::MAX,
            j <= programmes.len(),
            out@ + programmes_xml(programme_views(programmes@).skip(j as int), offset_minutes as int)
                == mid + programmes_xml(programme_views(programmes@), offset_minutes as int),
        decreases programmes.len() - j,
    {
        let ghost rest = programme_views(programmes@).skip(j as int);
        let ghost o = out@;
        assert(rest[0] == programmes@[j as int]@);
        assert(rest.drop_first() =~= programme_views(programmes@).skip(j + 1));
        push_programme(&mut out, &programmes[j], offset_minutes);
        j = j + 1;
        assert(out@ + programmes_xml(programme_views(programmes@).skip(j as int), offset_minutes as int)
            =~= o + programmes_xml(rest, offset_minutes as int));
    }
    assert(programme_views(programmes@).skip(j as int) =~= Seq::<XmltvProgrammeView>::empty());
    assert(out@ + Seq::<char>::empty() =~= out@);
    append_str(&mut out, "</tv>\n");
    assert(out@ =~= xmltv_spec(
        channel_views(channels@),
        programme_views(programmes@),
        generator_name@,
        offset_minutes as int,
    ));
    Ok(string_of(&out))
}

/// Whether `build_xmltv_string` writes a programme: it ends after it starts
/// and its title is not blank.
pub open spec fn programme_shown(p: XmltvProgrammeView) -> bool {
    ts_lt(p.start, p.stop) && !is_blank(p.title)
}

/// The programmes that are written, in input order.
pub open spec fn shown_programmes(ps: Seq<XmltvProgrammeView>) -> Seq<XmltvProgrammeView>
    decreases ps.len(),
{
    if ps.len() == 0 {
        seq![]
    } else if programme_shown(ps[0]) {
        seq![ps[0]] + shown_programmes(ps.drop_first())
    } else {
        shown_programmes(ps.drop_first())
    }
}

proof fn lemma_programmes_xml_shown(ps: Seq<XmltvProgrammeView>, offset_minutes: int)
    ensures
        programmes_xml(ps, offset_minutes) == programmes_xml(shown_programmes(ps), offset_minutes),
    decreases ps.len(),
{
    if ps.len() > 0 {
        let rest = ps.drop_first();
        lemma_programmes_xml_shown(rest, offset_minutes);
        if programme_shown(ps[0]) {
            let s = seq![ps[0]] + shown_programmes(rest);
            assert(s[0] == ps[0]);
            assert(s.drop_first() =~= shown_programmes(rest));
        }
    }
}

/// The document lists each programme that ends after it starts and has a
/// title, in input order, and nothing of the others: taking those others
/// out of the input leaves the document as it was.
pub proof fn law_xmltv_skips_unshown(
    cs: Seq<XmltvChannelView>,
    ps: Seq<XmltvProgrammeView>,
    generator: Seq<char>,
    offset_minutes: int,
)
    ensures
        xmltv_spec(cs, ps, generator, offset_minutes) == xmltv_spec(
            cs,
            shown_programmes(ps),
            generator,
            offset_minutes,
        ),
        forall|k: int|
            0 <= k < shown_programmes(ps).len() ==> programme_shown(
                #[trigger] shown_programmes(ps)[k],
            ),
{
    lemma_programmes_xml_shown(ps, offset_minutes);
    lemma_shown_all(ps);
}

proof fn lemma_shown_all(ps: Seq<XmltvProgrammeView>)
    ensures
        forall|k: int|
            0 <= k < shown_programmes(ps).len() ==> programme_shown(
                #[trigger] shown_programmes(ps)[k],
            ),
    decreases ps.len(),
{
    if ps.len() > 0 {
        let rest = ps.drop_first();
        lemma_shown_all(rest);
        if programme_shown(ps[0]) {
            let s = seq![ps[0]] + shown_programmes(rest);
            assert forall|k: int| 0 <= k < s.len() implies programme_shown(#[trigger] s[k]) by {
                if k > 0 {
                    assert(s[k] == shown_programmes(rest)[k - 1]);
                }
            }
        }
    }
}

/// A written programme with a rating value carries that value under the
/// programme's own rating system; "unknown" stands in only where it has
/// none.
pub proof fn law_rating_written(p: XmltvProgrammeView, offset_minutes: int)
    requires
        programme_shown(p),
        p.rating_value is Some,
        !is_blank(p.rating_value->0),
    ensures
        p.rating_system matches Some(system) ==> crate::text::contains(
            programme_xml(p, offset_minutes),
            "    <rating system=\""@ + esc_spec(system) + "\"><value>"@ + esc_spec(p.rating_value->0)
                + "</value></rating>\n"@,
        ),
        p.rating_system is None ==> crate::text::contains(
            programme_xml(p, offset_minutes),
            "    <rating system=\""@ + esc_spec("unknown"@) + "\"><value>"@ + esc_spec(
                p.rating_value->0,
            ) + "</value></rating>\n"@,
        ),
{
    let a = programme_head(p, offset_minutes) + opt_tag(p.subtitle, "    <sub-title>"@, "</sub-title>\n"@)
        + opt_tag(p.description, "    <desc>"@, "</desc>\n"@) + tagged(
        p.categories,
        "    <category>"@,
        "</category>\n"@,
        true,
    ) + opt_tag(p.icon, "    <icon src=\""@, "\"/>\n"@) + credits_xml(p);
    let r = rating_xml(p);
    let b = shown_xml(p) + "  </programme>\n"@;
    let x = programme_xml(p, offset_minutes);
    assert(x =~= a + r + b);
    assert(x.subrange(a.len() as int, (a.len() + r.len()) as int) =~= r);
    assert(crate::text::matches_at(x, a.len() as int, r));
    assert(r == "    <rating system=\""@ + esc_spec(unwrap_or(p.rating_system, "unknown"@)) + "\"><value>"@
        + esc_spec(p.rating_value->0) + "</value></rating>\n"@);
}

/// A written programme element opens with the programme's start and stop
/// times in the offset, its channel and its title, each escaped; a channel
/// element opens with the channel's escaped id and, where it has a
/// non-blank icon, carries that icon.
pub proof fn law_element_openings(p: XmltvProgrammeView, c: XmltvChannelView, offset_minutes: int)
    ensures
        programme_shown(p) ==> starts_with(
            programme_xml(p, offset_minutes),
            "  <programme start=\""@ + esc_spec(xmltv_time_spec(p.start, offset_minutes)) + "\" stop=\""@
                + esc_spec(xmltv_time_spec(p.stop, offset_minutes)) + "\" channel=\""@ + esc_spec(
                p.channel_id,
            ) + "\">\n"@ + "    <title>"@ + esc_spec(p.title) + "</title>\n"@,
        ),
        starts_with(channel_xml(c), "  <channel id=\""@ + esc_spec(c.id) + "\">\n"@),
        c.icon matches Some(icon) ==> (!is_blank(icon) ==> crate::text::contains(
            channel_xml(c),
            "    <icon src=\""@ + esc_spec(icon) + "\"/>\n"@,
        )),
{
    if programme_shown(p) {
        let h = programme_head(p, offset_minutes);
        let x = programme_xml(p, offset_minutes);
        assert(x.subrange(0, h.len() as int) =~= h);
    }
    let o = "  <channel id=\""@ + esc_spec(c.id) + "\">\n"@;
    let d = tagged(c.display_names, "    <display-name>"@, "</display-name>\n"@, false);
    let t = opt_tag(c.icon, "    <icon src=\""@, "\"/>\n"@);
    let x = channel_xml(c);
    assert(x =~= o + d + t + "  </channel>\n"@);
    assert(x.subrange(0, o.len() as int) =~= o);
    if let Some(icon) = c.icon {
        if !is_blank(icon) {
            assert(x.subrange((o.len() + d.len()) as int, (o.len() + d.len() + t.len()) as int) =~= t);
            assert(crate::text::matches_at(x, (o.len() + d.len()) as int, t));
        }
    }
}

} // verus!
