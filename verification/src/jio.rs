//! JioTV: identifier tables and the normalisation of its channel records.
use vstd::prelude::*;

use crate::channel::Channel;
use crate::json::{
    json_same, value_to_bool, value_to_bool_spec, value_to_i64, value_to_i64_spec, value_to_string,
    value_to_string_spec, JsonValue,
};
use crate::provider::ProviderKind;
use crate::text::{append_str, chars_of, opt_view, starts_with, starts_with_exec, string_of, trim};

verus! {

pub open spec fn lang_name(id: Option<i64>) -> Seq<char> {
    match id {
        Some(1) => "Hindi"@,
        Some(2) => "English"@,
        Some(3) => "Punjabi"@,
        Some(4) => "Tamil"@,
        Some(5) => "Telugu"@,
        Some(6) => "English"@,
        Some(7) => "Marathi"@,
        Some(8) => "Bengali"@,
        Some(9) => "Gujarati"@,
        Some(10) => "Kannada"@,
        Some(11) => "Malayalam"@,
        Some(12) => "Odia"@,
        _ => "Unknown"@,
    }
}

pub open spec fn category_name(id: Option<i64>) -> Seq<char> {
    match id {
        Some(5) => "Entertainment"@,
        Some(6) => "Movies"@,
        Some(10) => "Infotainment"@,
        Some(16) => "Business"@,
        _ => "Other"@,
    }
}

/// The JioTV language table, id by id: 1 Hindi, 2 English, 3 Punjabi,
/// 4 Tamil, 5 Telugu, 6 English, 7 Marathi, 8 Bengali, 9 Gujarati,
/// 10 Kannada, 11 Malayalam, 12 Odia; any other id, or none, is "Unknown".
pub proof fn law_language_table(id: Option<i64>)
    ensures
        lang_name(Some(1)) == "Hindi"@,
        lang_name(Some(2)) == "English"@,
        lang_name(Some(3)) == "Punjabi"@,
        lang_name(Some(4)) == "Tamil"@,
        lang_name(Some(5)) == "Telugu"@,
        lang_name(Some(6)) == "English"@,
        lang_name(Some(7)) == "Marathi"@,
        lang_name(Some(8)) == "Bengali"@,
        lang_name(Some(9)) == "Gujarati"@,
        lang_name(Some(10)) == "Kannada"@,
        lang_name(Some(11)) == "Malayalam"@,
        lang_name(Some(12)) == "Odia"@,
        (id matches Some(n) && 1 <= n <= 12) || lang_name(id) == "Unknown"@,
{
}

/// The JioTV category table: 5 Entertainment, 6 Movies, 10 Infotainment,
/// 16 Business; any other id, or none, is "Other".
pub proof fn law_category_table(id: Option<i64>)
    ensures
        category_name(Some(5)) == "Entertainment"@,
        category_name(Some(6)) == "Movies"@,
        category_name(Some(10)) == "Infotainment"@,
        category_name(Some(16)) == "Business"@,
        (id matches Some(n) && (n == 5 || n == 6 || n == 10 || n == 16)) || category_name(id)
            == "Other"@,
{
}

/// The language that a JioTV language id stands for.
pub fn map_lang(id: Option<i64>) -> (res: &'static str)
    ensures
        res@ == lang_name(id),
{
    match id {
        Some(1) => "Hindi",
        Some(2) => "English",
        Some(3) => "Punjabi",
        Some(4) => "Tamil",
        Some(5) => "Telugu",
        Some(6) => "English",
        Some(7) => "Marathi",
        Some(8) => "Bengali",
        Some(9) => "Gujarati",
        Some(10) => "Kannada",
        Some(11) => "Malayalam",
        Some(12) => "Odia",
        _ => "Unknown",
    }
}

/// The category that a JioTV category id stands for.
pub fn map_category(id: Option<i64>) -> (res: &'static str)
    ensures
        res@ == category_name(id),
{
    match id {
        Some(5) => "Entertainment",
        Some(6) => "Movies",
        Some(10) => "Infotainment",
        Some(16) => "Business",
        _ => "Other",
    }
}

/// A channel record as the JioTV channel list gives it; `extra` holds the
/// members that have no field of their own.
pub struct JioRawChannel {
    pub channel_id: JsonValue,
    pub channel_name: Option<String>,
    pub channel_order: JsonValue,
    pub channel_language_id: JsonValue,
    pub channel_category_id: JsonValue,
    pub broadcaster_id: JsonValue,
    pub is_hd: JsonValue,
    pub logo_url: Option<String>,
    pub is_premium: JsonValue,
    pub is_catchup_available: JsonValue,
    pub stb_catchup: JsonValue,
    pub business_type: Option<String>,
    pub plan_type: Option<String>,
    pub channel_price: JsonValue,
    pub is_hidden: JsonValue,
    pub is_fast: JsonValue,
    pub extra: JsonValue,
}

/// The logo URL: kept where it is absolute, else appended to the JioTV image
/// base.
pub open spec fn jio_logo_spec(logo: Seq<char>) -> Seq<char> {
    if starts_with(logo, "http"@) {
        logo
    } else {
        "https://jiotvimages.cdn.jio.com/dare_images/images/"@ + logo
    }
}

pub open spec fn opt_text_json(v: JsonValue, o: Option<String>) -> bool {
    match o {
        Some(s) => v matches JsonValue::Str(x) && x@ == s@,
        None => v is Null,
    }
}

/// The first sixteen members: the record's fields under their wire names.
pub open spec fn jio_raw_head_ok(ms: Seq<(String, JsonValue)>, raw: JioRawChannel) -> bool {
    &&& ms.len() >= 16
    &&& ms[0].0@ == "channel_id"@ && json_same(ms[0].1, raw.channel_id)
    &&& ms[1].0@ == "channel_name"@ && opt_text_json(ms[1].1, raw.channel_name)
    &&& ms[2].0@ == "channel_order"@ && json_same(ms[2].1, raw.channel_order)
    &&& ms[3].0@ == "channelLanguageId"@ && json_same(ms[3].1, raw.channel_language_id)
    &&& ms[4].0@ == "channelCategoryId"@ && json_same(ms[4].1, raw.channel_category_id)
    &&& ms[5].0@ == "broadcasterId"@ && json_same(ms[5].1, raw.broadcaster_id)
    &&& ms[6].0@ == "isHD"@ && json_same(ms[6].1, raw.is_hd)
    &&& ms[7].0@ == "logoUrl"@ && opt_text_json(ms[7].1, raw.logo_url)
    &&& ms[8].0@ == "is_premium"@ && json_same(ms[8].1, raw.is_premium)
    &&& ms[9].0@ == "isCatchupAvailable"@ && json_same(ms[9].1, raw.is_catchup_available)
    &&& ms[10].0@ == "stbCatchup"@ && json_same(ms[10].1, raw.stb_catchup)
    &&& ms[11].0@ == "business_type"@ && opt_text_json(ms[11].1, raw.business_type)
    &&& ms[12].0@ == "plan_type"@ && opt_text_json(ms[12].1, raw.plan_type)
    &&& ms[13].0@ == "channelPrice"@ && json_same(ms[13].1, raw.channel_price)
    &&& ms[14].0@ == "isHidden"@ && json_same(ms[14].1, raw.is_hidden)
    &&& ms[15].0@ == "isFast"@ && json_same(ms[15].1, raw.is_fast)
}

/// The record as JSON: its fields under their wire names, then the extra
/// members.
pub open spec fn jio_raw_json_ok(j: JsonValue, raw: JioRawChannel) -> bool {
    match (j, raw.extra) {
        (JsonValue::Object(ms), JsonValue::Object(extra)) => {
            &&& ms@.len() == 16 + extra@.len()
            &&& jio_raw_head_ok(ms@, raw)
            &&& forall|k: int|
                0 <= k < extra@.len() ==> (#[trigger] ms@[16 + k]).0@ == extra@[k].0@ && json_same(
                    ms@[16 + k].1,
                    extra@[k].1,
                )
        },
        _ => false,
    }
}

/// Whether `normalize_jio_channel` keeps a record: it needs an id and a
/// name that is not blank.
pub open spec fn jio_channel_kept(raw: JioRawChannel) -> bool {
    &&& value_to_string_spec(raw.channel_id) is Some
    &&& raw.channel_name is Some
    &&& trim(raw.channel_name->0@).len() > 0
}

/// The channel that a kept record gives.
pub open spec fn jio_channel_ok(c: Channel, raw: JioRawChannel) -> bool {
    let category = category_name(value_to_i64_spec(raw.channel_category_id));
    &&& c.provider == ProviderKind::Jio
    &&& c.id@ == value_to_string_spec(raw.channel_id)->0
    &&& c.name@ == raw.channel_name->0@
    &&& c.tvg_id is None
    &&& c.tvg_name is None
    &&& opt_view(c.language) == Some(lang_name(value_to_i64_spec(raw.channel_language_id)))
    &&& c.country is None
    &&& opt_view(c.category) == Some(category)
    &&& opt_view(c.group) == Some(category)
    &&& opt_view(c.quality) == Some(
        if value_to_bool_spec(raw.is_hd) {
            "HD"@
        } else {
            "SD"@
        },
    )
    &&& opt_view(c.logo) == (match raw.logo_url {
        Some(l) => Some(jio_logo_spec(l@)),
        None => None,
    })
    &&& c.stream_url is None
    &&& c.premium == value_to_bool_spec(raw.is_premium)
    &&& c.catchup == value_to_bool_spec(raw.is_catchup_available)
    &&& c.hidden == value_to_bool_spec(raw.is_hidden)
    &&& jio_raw_json_ok(c.raw, raw)
}

fn text_json(o: &Option<String>) -> (res: JsonValue)
    ensures
        opt_text_json(res, *o),
{
    match o {
        Some(s) => JsonValue::Str(s.clone()),
        None => JsonValue::Null,
    }
}

/// The record as JSON, with its wire names.
pub fn jio_raw_json(raw: &JioRawChannel) -> (res: JsonValue)
    requires
        raw.extra is Object,
    ensures
        jio_raw_json_ok(res, *raw),
{
    let mut ms: Vec<(String, JsonValue)> = Vec::new();
    ms.push((String::from_str("channel_id"), raw.channel_id.duplicate()));
    ms.push((String::from_str("channel_name"), text_json(&raw.channel_name)));
    ms.push((String::from_str("channel_order"), raw.channel_order.duplicate()));
    ms.push((String::from_str("channelLanguageId"), raw.channel_language_id.duplicate()));
    ms.push((String::from_str("channelCategoryId"), raw.channel_category_id.duplicate()));
    ms.push((String::from_str("broadcasterId"), raw.broadcaster_id.duplicate()));
    ms.push((String::from_str("isHD"), raw.is_hd.duplicate()));
    ms.push((String::from_str("logoUrl"), text_json(&raw.logo_url)));
    ms.push((String::from_str("is_premium"), raw.is_premium.duplicate()));
    ms.push((String::from_str("isCatchupAvailable"), raw.is_catchup_available.duplicate()));
    ms.push((String::from_str("stbCatchup"), raw.stb_catchup.duplicate()));
    ms.push((String::from_str("business_type"), text_json(&raw.business_type)));
    ms.push((String::from_str("plan_type"), text_json(&raw.plan_type)));
    ms.push((String::from_str("channelPrice"), raw.channel_price.duplicate()));
    ms.push((String::from_str("isHidden"), raw.is_hidden.duplicate()));
    ms.push((String::from_str("isFast"), raw.is_fast.duplicate()));
    let ghost head = ms@;
    assert(head.len() == 16);
    assert(jio_raw_head_ok(head, *raw));
    match &raw.extra {
        JsonValue::Object(extra) => {
            let mut i: usize = 0;
            while i < extra.len()
                invariant
                    i <= extra.len(),
                    ms@.len() == 16 + i,
                    ms@.subrange(0, 16) == head,
                    forall|k: int|
                        0 <= k < i ==> (#[trigger] ms@[16 + k]).0@ == extra@[k].0@ && json_same(
                            ms@[16 + k].1,
                            extra@[k].1,
                        ),
                decreases extra.len() - i,
            {
                let v = extra[i].1.duplicate();
                let ghost before = ms@;
                ms.push((extra[i].0.clone(), v));
                assert(ms@.subrange(0, 16) =~= before.subrange(0, 16));
                i = i + 1;
            }
            proof {
                assert forall|k: int| 0 <= k < 16 implies ms@[k] == head[k] by {
                    assert(ms@.subrange(0, 16)[k] == ms@[k]);
                }
                assert(jio_raw_head_ok(ms@, *raw));
            }
        },
        _ => {},
    }
    JsonValue::Object(ms)
}

/// A JioTV channel record as a channel, or `None` where it has no id or no
/// name.
pub fn normalize_jio_channel(raw: &JioRawChannel) -> (res: Option<Channel>)
    requires
        raw.extra is Object,
    ensures
        res is Some <==> jio_channel_kept(*raw),
        res matches Some(c) ==> jio_channel_ok(c, *raw),
{
    let id = match value_to_string(&raw.channel_id) {
        Some(id) => id,
        None => return None,
    };
    let name = match &raw.channel_name {
        Some(n) => n.clone(),
        None => return None,
    };
    let nc = chars_of(name.as_str());
    let nt = crate::text::trim_chars(&nc);
    if nt.len() == 0 {
        return None;
    }
    let language_id = value_to_i64(&raw.channel_language_id);
    let category_id = value_to_i64(&raw.channel_category_id);
    let is_hd = value_to_bool(&raw.is_hd);
    let mut channel = Channel::new(ProviderKind::Jio, id.as_str(), name.as_str());
    channel.language = Some(String::from_str(map_lang(language_id)));
    channel.category = Some(String::from_str(map_category(category_id)));
    channel.group = Some(String::from_str(map_category(category_id)));
    channel.quality = Some(
        if is_hd {
            String::from_str("HD")
        } else {
            String::from_str("SD")
        },
    );
    channel.logo = match &raw.logo_url {
        Some(logo) => {
            let lc = chars_of(logo.as_str());
            let http = chars_of("http");
            if starts_with_exec(&lc, &http) {
                Some(logo.clone())
            } else {
                let mut out = chars_of("https://jiotvimages.cdn.jio.com/dare_images/images/");
                append_str(&mut out, logo.as_str());
                Some(string_of(&out))
            }
        },
        None => None,
    };
    channel.premium = value_to_bool(&raw.is_premium);
    channel.catchup = value_to_bool(&raw.is_catchup_available);
    channel.hidden = value_to_bool(&raw.is_hidden);
    channel.raw = jio_raw_json(raw);
    Some(channel)
}

/// A channel's language is the table entry of its integer language id; its
/// category and group are the table entry of its integer category id; a
/// channel whose `isHD` is true is "HD" and one whose `isHD` is false is
/// "SD"; a logo that is an absolute `http` URL is kept as it is.
pub proof fn law_jio_channel_fields(c: Channel, raw: JioRawChannel)
    requires
        jio_channel_ok(c, raw),
    ensures
        raw.channel_language_id matches JsonValue::Int(n) ==> opt_view(c.language) == Some(
            lang_name(Some(n)),
        ),
        raw.channel_category_id matches JsonValue::Int(n) ==> opt_view(c.category) == Some(
            category_name(Some(n)),
        ) && opt_view(c.group) == Some(category_name(Some(n))),
        raw.is_hd == JsonValue::Bool(true) ==> opt_view(c.quality) == Some("HD"@),
        raw.is_hd == JsonValue::Bool(false) ==> opt_view(c.quality) == Some("SD"@),
        raw.logo_url matches Some(l) ==> (starts_with(l@, "http"@) ==> opt_view(c.logo) == Some(l@)),
        c.name@ == raw.channel_name->0@,
{
}

} // verus!
