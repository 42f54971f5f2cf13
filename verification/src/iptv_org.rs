//! The IPTV-org playlist as a source of channels.
use vstd::prelude::*;

use crate::channel::Channel;
use crate::json::JsonValue;
use crate::playlist::{entry_views, parse_m3u, parse_spec, EntryView, PlaylistEntry};
use crate::provider::ProviderKind;
use crate::text::{chars_of, opt_view, replace, replace_str, string_of, trim, trim_chars};

verus! {

/// A stream URL with the entities `&amp;`, `&lt;`, `&gt;` and `&quot;`
/// decoded, in that order, and then trimmed.
pub open spec fn clean_url_spec(v: Seq<char>) -> Seq<char> {
    trim(
        replace(replace(replace(replace(v, "&amp;"@, "&"@), "&lt;"@, "<"@), "&gt;"@, ">"@), "&quot;"@, "\""@),
    )
}

pub fn clean_stream_url(value: &str) -> (res: String)
    ensures
        res@ == clean_url_spec(value@),
{
    proof {
        reveal_strlit("&amp;");
        reveal_strlit("&lt;");
        reveal_strlit("&gt;");
        reveal_strlit("&quot;");
    }
    let v = chars_of(value);
    let a = replace_str(&v, "&amp;", "&");
    let b = replace_str(&a, "&lt;", "<");
    let c = replace_str(&b, "&gt;", ">");
    let d = replace_str(&c, "&quot;", "\"");
    let t = trim_chars(&d);
    string_of(&t)
}

/// A JSON value that is the given string, or null where there is none.
pub open spec fn json_text_or_null(v: JsonValue, o: Option<Seq<char>>) -> bool {
    match o {
        Some(s) => v matches JsonValue::Str(x) && x@ == s,
        None => v is Null,
    }
}

/// The raw record kept with an IPTV-org channel: the parsed entry, with the
/// cleaned URL.
pub open spec fn iptv_raw_ok(raw: JsonValue, e: EntryView) -> bool {
    match raw {
        JsonValue::Object(ms) => {
            &&& ms@.len() == 8
            &&& ms@[0].0@ == "tvg_id"@ && json_text_or_null(ms@[0].1, e.tvg_id)
            &&& ms@[1].0@ == "tvg_name"@ && json_text_or_null(ms@[1].1, e.tvg_name)
            &&& ms@[2].0@ == "name"@ && json_text_or_null(ms@[2].1, Some(e.name))
            &&& ms@[3].0@ == "label"@ && json_text_or_null(ms@[3].1, e.label)
            &&& ms@[4].0@ == "group"@ && json_text_or_null(ms@[4].1, e.group)
            &&& ms@[5].0@ == "logo"@ && json_text_or_null(ms@[5].1, e.logo)
            &&& ms@[6].0@ == "url"@ && json_text_or_null(ms@[6].1, Some(clean_url_spec(e.url)))
            &&& ms@[7].0@ == "raw_extinf"@ && json_text_or_null(ms@[7].1, Some(e.raw_extinf))
        },
        _ => false,
    }
}

/// The channel that one IPTV-org entry gives.
pub open spec fn iptv_channel_ok(c: Channel, e: EntryView) -> bool {
    &&& c.provider == ProviderKind::IptvOrg
    &&& c.id@ == (match e.tvg_id {
        Some(t) => t,
        None => e.name,
    })
    &&& c.name@ == e.name
    &&& opt_view(c.tvg_id) == e.tvg_id
    &&& opt_view(c.tvg_name) == e.tvg_name
    &&& c.language is None
    &&& c.country is None
    &&& opt_view(c.group) == e.group
    &&& opt_view(c.category) == e.group
    &&& c.quality is None
    &&& opt_view(c.logo) == e.logo
    &&& opt_view(c.stream_url) == Some(clean_url_spec(e.url))
    &&& !c.premium && !c.catchup && !c.hidden
    &&& iptv_raw_ok(c.raw, e)
}

fn json_text(o: &Option<String>) -> (res: JsonValue)
    ensures
        json_text_or_null(res, opt_view(*o)),
{
    match o {
        Some(s) => JsonValue::Str(s.clone()),
        None => JsonValue::Null,
    }
}

fn channel_from_entry(entry: &PlaylistEntry) -> (res: Channel)
    ensures
        iptv_channel_ok(res, entry@),
{
    let id = match &entry.tvg_id {
        Some(t) => t.clone(),
        None => entry.name.clone(),
    };
    let mut channel = Channel::new(ProviderKind::IptvOrg, id.as_str(), entry.name.as_str());
    let url = clean_stream_url(entry.url.as_str());
    channel.tvg_id = crate::playlist::clone_opt(&entry.tvg_id);
    channel.tvg_name = crate::playlist::clone_opt(&entry.tvg_name);
    channel.group = crate::playlist::clone_opt(&entry.group);
    channel.category = crate::playlist::clone_opt(&entry.group);
    channel.logo = crate::playlist::clone_opt(&entry.logo);
    channel.stream_url = Some(url.clone());
    let mut ms: Vec<(String, JsonValue)> = Vec::new();
    ms.push((String::from_str("tvg_id"), json_text(&entry.tvg_id)));
    ms.push((String::from_str("tvg_name"), json_text(&entry.tvg_name)));
    ms.push((String::from_str("name"), JsonValue::Str(entry.name.clone())));
    ms.push((String::from_str("label"), json_text(&entry.label)));
    ms.push((String::from_str("group"), json_text(&entry.group)));
    ms.push((String::from_str("logo"), json_text(&entry.logo)));
    ms.push((String::from_str("url"), JsonValue::Str(url)));
    ms.push((String::from_str("raw_extinf"), JsonValue::Str(entry.raw_extinf.clone())));
    channel.raw = JsonValue::Object(ms);
    channel
}

/// The channels of an IPTV-org playlist, one per entry, in order. Each is
/// keyed by its `tvg-id` (by its name where it has none) and keeps the
/// parsed entry as its raw record.
pub fn parse_iptv_org_m3u(content: &str) -> (res: Vec<Channel>)
    ensures
        res@.len() == parse_spec(content@).len(),
        forall|i: int| 0 <= i < res@.len() ==> iptv_channel_ok(#[trigger] res@[i], parse_spec(content@)[i]),
{
    let entries = parse_m3u(content);
    let mut out: Vec<Channel> = Vec::new();
    let mut i: usize = 0;
    while i < entries.len()
        invariant
            i <= entries.len(),
            entry_views(entries@) == parse_spec(content@),
            out@.len() == i,
            forall|k: int| 0 <= k < i ==> iptv_channel_ok(#[trigger] out@[k], entry_views(entries@)[k]),
        decreases entries.len() - i,
    {
        let c = channel_from_entry(&entries[i]);
        assert(entry_views(entries@)[i as int] == entries@[i as int]@);
        out.push(c);
        i = i + 1;
    }
    out
}

} // verus!
