//! ZEE5: channel logos, channel catalogue records and programme records.
use vstd::prelude::*;

use crate::channel::{Channel, Programme};
use crate::fields::{
    bool_at, bool_field, item_texts_at, item_texts_field, or_false, rfc3339_at, rfc3339_field,
    text_at, text_field,
};
use crate::jio::opt_text_json;
use crate::json::{as_str_spec, get_spec, json_same, JsonValue};
use crate::playlist::{clone_opt, or_else, unwrap_or};
use crate::provider::ProviderKind;
use crate::schedule::{sort_by_start, sorted_by_start, starting_at};
use crate::text::{
    append_str, chars_of, extend_new, lemma_string_views_push, opt_view, push_new, string_of,
    string_views, trim, trim_chars,
};
use crate::time::{ts_lt, Timestamp};

verus! {

/// The image names of a ZEE5 catalogue item.
pub struct Zee5Image {
    pub channel_square: Option<String>,
    pub channel_list: Option<String>,
    pub square: Option<String>,
    pub list: Option<String>,
    pub cover: Option<String>,
    pub thumbnail: Option<String>,
}

/// The image name a logo is made from: the first of channel square,
/// channel list, square, list, cover and thumbnail that is there.
pub open spec fn logo_key(image: Zee5Image) -> Option<Seq<char>> {
    or_else(
        opt_view(image.channel_square),
        or_else(
            opt_view(image.channel_list),
            or_else(
                opt_view(image.square),
                or_else(
                    opt_view(image.list),
                    or_else(opt_view(image.cover), opt_view(image.thumbnail)),
                ),
            ),
        ),
    )
}

/// The logo URL of an image name.
pub open spec fn logo_url(key: Seq<char>) -> Seq<char> {
    "https://akamaividz2.zee5.com/image/upload/"@ + key + ".png"@
}

fn first_of(a: &Option<String>, b: Option<String>) -> (res: Option<String>)
    ensures
        opt_view(res) == or_else(opt_view(*a), opt_view(b)),
{
    match a {
        Some(x) => Some(x.clone()),
        None => b,
    }
}

/// The logo URL of a catalogue item's images, if it names one.
pub fn resolve_logo_from_image(image: &Zee5Image) -> (res: Option<String>)
    ensures
        opt_view(res) == (match logo_key(*image) {
            Some(k) => Some(logo_url(k)),
            None => None,
        }),
{
    let key = first_of(
        &image.channel_square,
        first_of(
            &image.channel_list,
            first_of(
                &image.square,
                first_of(&image.list, first_of(&image.cover, clone_opt(&image.thumbnail))),
            ),
        ),
    );
    match key {
        Some(k) => {
            let mut out = chars_of("https://akamaividz2.zee5.com/image/upload/");
            append_str(&mut out, k.as_str());
            append_str(&mut out, ".png");
            Some(string_of(&out))
        },
        None => None,
    }
}

/// A channel of the ZEE5 catalogue; `extra` holds the members that have no
/// field of their own.
pub struct Zee5CatalogItem {
    pub id: String,
    pub title: Option<String>,
    pub original_title: Option<String>,
    pub image: Zee5Image,
    pub languages: Vec<String>,
    pub extra: JsonValue,
}

/// The images as JSON, with their wire names.
pub open spec fn image_json_ok(j: JsonValue, image: Zee5Image) -> bool {
    match j {
        JsonValue::Object(ms) => {
            &&& ms@.len() == 6
            &&& ms@[0].0@ == "channel_square"@ && opt_text_json(ms@[0].1, image.channel_square)
            &&& ms@[1].0@ == "channel_list"@ && opt_text_json(ms@[1].1, image.channel_list)
            &&& ms@[2].0@ == "square"@ && opt_text_json(ms@[2].1, image.square)
            &&& ms@[3].0@ == "list"@ && opt_text_json(ms@[3].1, image.list)
            &&& ms@[4].0@ == "cover"@ && opt_text_json(ms@[4].1, image.cover)
            &&& ms@[5].0@ == "thumbnail"@ && opt_text_json(ms@[5].1, image.thumbnail)
        },
        _ => false,
    }
}

/// A list of strings as a JSON array.
pub open spec fn strings_json_ok(j: JsonValue, v: Seq<String>) -> bool {
    match j {
        JsonValue::Array(a) => a@.len() == v.len() && forall|k: int|
            0 <= k < v.len() ==> as_str_spec(#[trigger] a@[k]) == Some(v[k]@),
        _ => false,
    }
}

/// The first five members: the item's fields under their wire names.
pub open spec fn zee5_item_head_ok(ms: Seq<(String, JsonValue)>, item: Zee5CatalogItem) -> bool {
    &&& ms.len() >= 5
    &&& ms[0].0@ == "id"@ && as_str_spec(ms[0].1) == Some(item.id@)
    &&& ms[1].0@ == "title"@ && opt_text_json(ms[1].1, item.title)
    &&& ms[2].0@ == "original_title"@ && opt_text_json(ms[2].1, item.original_title)
    &&& ms[3].0@ == "image"@ && image_json_ok(ms[3].1, item.image)
    &&& ms[4].0@ == "languages"@ && strings_json_ok(ms[4].1, item.languages@)
}

/// The item as JSON: its fields under their wire names, then the extra
/// members.
pub open spec fn zee5_item_json_ok(j: JsonValue, item: Zee5CatalogItem) -> bool {
    match (j, item.extra) {
        (JsonValue::Object(ms), JsonValue::Object(extra)) => {
            &&& ms@.len() == 5 + extra@.len()
            &&& zee5_item_head_ok(ms@, item)
            &&& forall|k: int|
                0 <= k < extra@.len() ==> (#[trigger] ms@[5 + k]).0@ == extra@[k].0@ && json_same(
                    ms@[5 + k].1,
                    extra@[k].1,
                )
        },
        _ => false,
    }
}

fn text_json(o: &Option<String>) -> (res: JsonValue)
    ensures
        opt_text_json(res, *o),
{
    match o {
        Some(s) => JsonValue::Str(s.clone()),
        None => JsonValue::Null,
    }
}

fn image_json(image: &Zee5Image) -> (res: JsonValue)
    ensures
        image_json_ok(res, *image),
{
    let mut ms: Vec<(String, JsonValue)> = Vec::new();
    ms.push((String::from_str("channel_square"), text_json(&image.channel_square)));
    ms.push((String::from_str("channel_list"), text_json(&image.channel_list)));
    ms.push((String::from_str("square"), text_json(&image.square)));
    ms.push((String::from_str("list"), text_json(&image.list)));
    ms.push((String::from_str("cover"), text_json(&image.cover)));
    ms.push((String::from_str("thumbnail"), text_json(&image.thumbnail)));
    JsonValue::Object(ms)
}

fn strings_json(v: &Vec<String>) -> (res: JsonValue)
    ensures
        strings_json_ok(res, v@),
{
    let mut a: Vec<JsonValue> = Vec::new();
    let mut i: usize = 0;
    while i < v.len()
        invariant
            i <= v.len(),
            a@.len() == i,
            forall|k: int| 0 <= k < i ==> as_str_spec(#[trigger] a@[k]) == Some(v@[k]@),
        decreases v.len() - i,
    {
        a.push(JsonValue::Str(v[i].clone()));
        i = i + 1;
    }
    JsonValue::Array(a)
}

/// The item as JSON, with its wire names.
pub fn zee5_item_json(item: &Zee5CatalogItem) -> (res: JsonValue)
    requires
        item.extra is Object,
    ensures
        zee5_item_json_ok(res, *item),
{
    let mut ms: Vec<(String, JsonValue)> = Vec::new();
    ms.push((String::from_str("id"), JsonValue::Str(item.id.clone())));
    ms.push((String::from_str("title"), text_json(&item.title)));
    ms.push((String::from_str("original_title"), text_json(&item.original_title)));
    ms.push((String::from_str("image"), image_json(&item.image)));
    ms.push((String::from_str("languages"), strings_json(&item.languages)));
    let ghost head = ms@;
    assert(zee5_item_head_ok(head, *item));
    match &item.extra {
        JsonValue::Object(extra) => {
            let mut i: usize = 0;
            while i < extra.len()
                invariant
                    i <= extra.len(),
                    ms@.len() == 5 + i,
                    ms@.subrange(0, 5) == head,
                    forall|k: int|
                        0 <= k < i ==> (#[trigger] ms@[5 + k]).0@ == extra@[k].0@ && json_same(
                            ms@[5 + k].1,
                            extra@[k].1,
                        ),
                decreases extra.len() - i,
            {
                let v = extra[i].1.duplicate();
                let ghost before = ms@;
                ms.push((extra[i].0.clone(), v));
                assert(ms@.subrange(0, 5) =~= before.subrange(0, 5));
                i = i + 1;
            }
            proof {
                assert forall|k: int| 0 <= k < 5 implies ms@[k] == head[k] by {
                    assert(ms@.subrange(0, 5)[k] == ms@[k]);
                }
                assert(zee5_item_head_ok(ms@, *item));
            }
        },
        _ => {},
    }
    JsonValue::Object(ms)
}

/// The channel that a catalogue item gives.
pub open spec fn zee5_channel_ok(c: Channel, item: Zee5CatalogItem) -> bool {
    &&& c.provider == ProviderKind::Zee5
    &&& c.id@ == item.id@
    &&& c.name@ == unwrap_or(or_else(opt_view(item.title), opt_view(item.original_title)), item.id@)
    &&& c.tvg_id is None
    &&& c.tvg_name is None
    &&& opt_view(c.language) == (if item.languages@.len() > 0 {
        Some(item.languages@[0]@)
    } else {
        None
    })
    &&& c.country is None
    &&& opt_view(c.group) == Some("ZEE5"@)
    &&& opt_view(c.category) == Some("Entertainment"@)
    &&& c.quality is None
    &&& opt_view(c.logo) == (match logo_key(item.image) {
        Some(k) => Some(logo_url(k)),
        None => None,
    })
    &&& c.stream_url is None
    &&& !c.premium
    &&& !c.catchup
    &&& !c.hidden
    &&& zee5_item_json_ok(c.raw, item)
}

/// A ZEE5 catalogue item as a channel.
pub fn normalize_zee5_channel(item: Zee5CatalogItem) -> (res: Channel)
    requires
        item.extra is Object,
    ensures
        zee5_channel_ok(res, item),
{
    let name = match &item.title {
        Some(t) => t.clone(),
        None => match &item.original_title {
            Some(t) => t.clone(),
            None => item.id.clone(),
        },
    };
    let mut channel = Channel::new(ProviderKind::Zee5, item.id.as_str(), name.as_str());
    channel.language = if item.languages.len() > 0 {
        Some(item.languages[0].clone())
    } else {
        None
    };
    channel.logo = resolve_logo_from_image(&item.image);
    channel.group = Some(String::from_str("ZEE5"));
    channel.category = Some(String::from_str("Entertainment"));
    channel.raw = zee5_item_json(&item);
    channel
}

// ------------------------------------------------------------------
// Programmes
// ------------------------------------------------------------------

pub open spec fn or_instant(a: Option<(int, int)>, b: Option<(int, int)>) -> Option<(int, int)> {
    if a is Some {
        a
    } else {
        b
    }
}

/// The start: the first of `start_time`, `start` and `from` that is an
/// RFC 3339 time.
pub open spec fn zee5_start(raw: JsonValue) -> Option<(int, int)> {
    or_instant(
        rfc3339_at(raw, "start_time"@),
        or_instant(rfc3339_at(raw, "start"@), rfc3339_at(raw, "from"@)),
    )
}

/// The stop: the first of `end_time`, `end` and `to` that is an RFC 3339
/// time.
pub open spec fn zee5_stop(raw: JsonValue) -> Option<(int, int)> {
    or_instant(rfc3339_at(raw, "end_time"@), or_instant(rfc3339_at(raw, "end"@), rfc3339_at(raw, "to"@)))
}

/// The title: `title` or `name`, the first that is not blank, else
/// "Unknown Programme".
pub open spec fn zee5_title(raw: JsonValue) -> Seq<char> {
    unwrap_or(or_else(text_at(raw, "title"@), text_at(raw, "name"@)), "Unknown Programme"@)
}

/// The image: the string under the first of `list`, `cover` and
/// `thumbnail` that the `image` member has.
pub open spec fn zee5_image(raw: JsonValue) -> Option<Seq<char>> {
    match get_spec(raw, "image"@) {
        Some(image) => {
            let pick = if get_spec(image, "list"@) is Some {
                get_spec(image, "list"@)
            } else if get_spec(image, "cover"@) is Some {
                get_spec(image, "cover"@)
            } else {
                get_spec(image, "thumbnail"@)
            };
            match pick {
                Some(v) => as_str_spec(v),
                None => None,
            }
        },
        None => None,
    }
}

/// Whether `normalize_zee5_programme` keeps a record: both times read, the
/// stop after the start, and a title that is not blank.
pub open spec fn zee5_programme_kept(raw: JsonValue) -> bool {
    &&& zee5_start(raw) is Some
    &&& zee5_stop(raw) is Some
    &&& ts_lt(zee5_start(raw)->0, zee5_stop(raw)->0)
    &&& trim(zee5_title(raw)).len() > 0
}

/// The programme that a kept record of `channel` gives.
pub open spec fn zee5_programme_ok(p: Programme, raw: JsonValue, channel: Channel) -> bool {
    &&& p.provider == ProviderKind::Zee5
    &&& p.channel_id@ == channel.id@
    &&& opt_view(p.programme_id) == text_at(raw, "id"@)
    &&& p.title@ == zee5_title(raw)
    &&& opt_view(p.subtitle) == text_at(raw, "episode_title"@)
    &&& opt_view(p.description) == or_else(
        text_at(raw, "description"@),
        or_else(text_at(raw, "long_description"@), text_at(raw, "short_description"@)),
    )
    &&& Some(p.start@) == zee5_start(raw)
    &&& Some(p.stop@) == zee5_stop(raw)
    &&& string_views(p.categories@) == item_texts_at(raw, "genres"@)
    &&& string_views(p.genres@) == push_new(
        item_texts_at(raw, "genres"@),
        item_texts_at(raw, "tags"@),
    )
    &&& opt_view(p.language) == or_else(text_at(raw, "language"@), opt_view(channel.language))
    &&& opt_view(p.image) == zee5_image(raw)
    &&& string_views(p.actors@) == item_texts_at(raw, "cast"@)
    &&& string_views(p.directors@) == item_texts_at(raw, "directors"@)
    &&& opt_view(p.rating_system) == text_at(raw, "rating_system"@)
    &&& opt_view(p.rating_value) == text_at(raw, "rating"@)
    &&& p.is_repeat == or_false(bool_at(raw, "is_repeat"@))
    &&& p.is_live == or_false(bool_at(raw, "is_live"@))
    &&& !p.catchup
    &&& json_same(p.raw, raw)
}

fn or_timestamp(a: Option<Timestamp>, b: Option<Timestamp>) -> (res: Option<Timestamp>)
    ensures
        match res {
            Some(t) => Some(t@) == or_instant(
                match a {
                    Some(x) => Some(x@),
                    None => None,
                },
                match b {
                    Some(x) => Some(x@),
                    None => None,
                },
            ),
            None => a is None && b is None,
        },
{
    match a {
        Some(x) => Some(x),
        None => b,
    }
}

fn or_text(a: Option<String>, b: Option<String>) -> (res: Option<String>)
    ensures
        opt_view(res) == or_else(opt_view(a), opt_view(b)),
{
    match a {
        Some(x) => Some(x),
        None => b,
    }
}

fn zee5_image_field(raw: &JsonValue) -> (res: Option<String>)
    ensures
        opt_view(res) == zee5_image(*raw),
{
    match raw.get("image") {
        Some(image) => {
            let pick: Option<&JsonValue> = match image.get("list") {
                Some(v) => Some(v),
                None => match image.get("cover") {
                    Some(v) => Some(v),
                    None => image.get("thumbnail"),
                },
            };
            match pick {
                Some(v) => match v.as_str() {
                    Some(s) => Some(s.clone()),
                    None => None,
                },
                None => None,
            }
        },
        None => None,
    }
}

/// A ZEE5 programme record of `channel` as a programme, or `None` where its
/// times do not read in order or its title is blank.
pub fn normalize_zee5_programme(raw: &JsonValue, channel: &Channel) -> (res: Option<Programme>)
    ensures
        res is Some <==> zee5_programme_kept(*raw),
        res matches Some(p) ==> zee5_programme_ok(p, *raw, *channel),
{
    let start = match or_timestamp(
        rfc3339_field(raw, "start_time"),
        or_timestamp(rfc3339_field(raw, "start"), rfc3339_field(raw, "from")),
    ) {
        Some(t) => t,
        None => return None,
    };
    let stop = match or_timestamp(
        rfc3339_field(raw, "end_time"),
        or_timestamp(rfc3339_field(raw, "end"), rfc3339_field(raw, "to")),
    ) {
        Some(t) => t,
        None => return None,
    };
    if !start.before(&stop) {
        return None;
    }
    let title = match or_text(text_field(raw, "title"), text_field(raw, "name")) {
        Some(t) => t,
        None => String::from_str("Unknown Programme"),
    };
    let tc = chars_of(title.as_str());
    let tt = trim_chars(&tc);
    if tt.len() == 0 {
        return None;
    }
    let subtitle = text_field(raw, "episode_title");
    let description = or_text(
        text_field(raw, "description"),
        or_text(text_field(raw, "long_description"), text_field(raw, "short_description")),
    );
    let categories = item_texts_field(raw, "genres");
    let tags = item_texts_field(raw, "tags");
    let mut genres: Vec<String> = Vec::new();
    let mut i: usize = 0;
    while i < categories.len()
        invariant
            i <= categories.len(),
            string_views(genres@) == string_views(categories@).take(i as int),
        decreases categories.len() - i,
    {
        let x = categories[i].clone();
        proof {
            lemma_string_views_push(genres@, x);
            assert(string_views(categories@).take(i + 1) =~= string_views(categories@).take(
                i as int,
            ).push(categories@[i as int]@));
        }
        genres.push(x);
        i = i + 1;
    }
    assert(string_views(categories@).take(i as int) =~= string_views(categories@));
    extend_new(&mut genres, &tags);
    let repeat = match bool_field(raw, "is_repeat") {
        Some(b) => b,
        None => false,
    };
    let live = match bool_field(raw, "is_live") {
        Some(b) => b,
        None => false,
    };
    Some(
        Programme {
            provider: ProviderKind::Zee5,
            channel_id: channel.id.clone(),
            programme_id: text_field(raw, "id"),
            title,
            subtitle,
            description,
            start,
            stop,
            categories,
            genres,
            language: or_text(text_field(raw, "language"), clone_opt(&channel.language)),
            image: zee5_image_field(raw),
            actors: item_texts_field(raw, "cast"),
            directors: item_texts_field(raw, "directors"),
            rating_system: text_field(raw, "rating_system"),
            rating_value: text_field(raw, "rating"),
            is_repeat: repeat,
            is_live: live,
            catchup: false,
            raw: raw.duplicate(),
        },
    )
}

/// The positions of the records that `normalize_zee5_programme` keeps.
pub open spec fn kept_positions(raws: Seq<JsonValue>) -> Seq<int>
    decreases raws.len(),
{
    if raws.len() == 0 {
        seq![]
    } else {
        let r = kept_positions(raws.drop_last());
        if zee5_programme_kept(raws.last()) {
            r.push(raws.len() - 1)
        } else {
            r
        }
    }
}

proof fn lemma_kept_positions_bound(raws: Seq<JsonValue>)
    ensures
        forall|k: int|
            0 <= k < kept_positions(raws).len() ==> 0 <= #[trigger] kept_positions(raws)[k]
                < raws.len(),
    decreases raws.len(),
{
    if raws.len() > 0 {
        let d = raws.drop_last();
        lemma_kept_positions_bound(d);
        let r = kept_positions(d);
        assert forall|k: int| 0 <= k < kept_positions(raws).len() implies 0
            <= #[trigger] kept_positions(raws)[k] < raws.len() by {
            if k < r.len() {
                assert(kept_positions(raws)[k] == r[k]);
            }
        }
    }
}

/// The programmes of the records that `normalize_zee5_programme` keeps, in
/// the records' order.
pub open spec fn zee5_collected(got: Seq<Programme>, raws: Seq<JsonValue>, channel: Channel) -> bool {
    &&& got.len() == kept_positions(raws).len()
    &&& forall|k: int|
        0 <= k < got.len() ==> zee5_programme_ok(
            #[trigger] got[k],
            raws[kept_positions(raws)[k]],
            channel,
        )
}

/// The programmes of a channel's ZEE5 guide records: each record kept, in
/// order of start (a stable sort).
pub fn zee5_schedule(raws: &Vec<JsonValue>, channel: &Channel) -> (res: Vec<Programme>)
    ensures
        exists|got: Seq<Programme>|
            {
                &&& #[trigger] zee5_collected(got, raws@, *channel)
                &&& sorted_by_start(res@)
                &&& forall|k: (int, int)| #[trigger] starting_at(res@, k) == starting_at(got, k)
            },
{
    let mut got: Vec<Programme> = Vec::new();
    let mut i: usize = 0;
    assert(raws@.take(0) =~= Seq::<JsonValue>::empty());
    while i < raws.len()
        invariant
            i <= raws.len(),
            got@.len() == kept_positions(raws@.take(i as int)).len(),
            forall|k: int|
                0 <= k < got@.len() ==> zee5_programme_ok(
                    #[trigger] got@[k],
                    raws@[kept_positions(raws@.take(i as int))[k]],
                    *channel,
                ),
        decreases raws.len() - i,
    {
        let ghost prev = kept_positions(raws@.take(i as int));
        proof {
            assert(raws@.take(i + 1).drop_last() =~= raws@.take(i as int));
            assert(raws@.take(i + 1).last() == raws@[i as int]);
            lemma_kept_positions_bound(raws@.take(i as int));
        }
        match normalize_zee5_programme(&raws[i], channel) {
            Some(p) => {
                got.push(p);
                proof {
                    let now = kept_positions(raws@.take(i + 1));
                    assert(now == prev.push(i as int));
                    assert forall|k: int| 0 <= k < got@.len() implies zee5_programme_ok(
                        #[trigger] got@[k],
                        raws@[now[k]],
                        *channel,
                    ) by {
                        if k < prev.len() {
                            assert(now[k] == prev[k]);
                        }
                    }
                }
            },
            None => {},
        }
        i = i + 1;
    }
    assert(raws@.take(i as int) =~= raws@);
    let ghost g = got@;
    let res = sort_by_start(got);
    assert(zee5_collected(g, raws@, *channel));
    res
}

} // verus!
