//! JioTV programme guide: turning its programme records into programmes.
use vstd::prelude::*;

use crate::channel::{Channel, Programme};
use crate::fields::{
    bool_at, bool_field, epoch_at, epoch_field, epoch_fits, epoch_fits_check, epoch_instant,
    epoch_timestamp, first_epoch, or_false, people_at, people_field, str_at, str_field, strs_at,
    strs_field, text_at, text_field,
};
use crate::json::{
    as_i64_spec, as_str_spec, get_spec, i64_decimal, i64_to_string, json_same, json_text,
    push_json_text, JsonValue,
};
use crate::playlist::{clone_opt, or_else, unwrap_or};
use crate::provider::ProviderKind;
use crate::schedule::{drop_repeats, remove_repeats, sort_by_start, sorted_by_start, starting_at};
use crate::text::{
    append_str, chars_of, extend_new, lemma_string_views_push, opt_view, push_new, starts_with,
    starts_with_exec, string_of, string_views, trim, trim_chars,
};
use crate::time::ts_lt;

verus! {

/// The start epoch: `startEpoch`, else `serverEpoch`.
pub open spec fn jio_start_epoch(raw: JsonValue) -> Option<i64> {
    first_epoch(epoch_at(raw, "startEpoch"@), epoch_at(raw, "serverEpoch"@))
}

/// The stop epoch: `endEpoch`.
pub open spec fn jio_stop_epoch(raw: JsonValue) -> Option<i64> {
    first_epoch(epoch_at(raw, "endEpoch"@), None)
}

/// Whether reading the record's times stays within `i64` milliseconds: the
/// start epoch always, the stop epoch where the start gave an instant.
pub open spec fn jio_epochs_fit(raw: JsonValue) -> bool {
    &&& epoch_fits(jio_start_epoch(raw))
    &&& epoch_instant(jio_start_epoch(raw)) is Some ==> epoch_fits(jio_stop_epoch(raw))
}

/// The title: `showname`, `showName` or `title`, the first that is not
/// blank, else "Unknown Programme".
pub open spec fn jio_title(raw: JsonValue) -> Seq<char> {
    unwrap_or(
        or_else(text_at(raw, "showname"@), or_else(text_at(raw, "showName"@), text_at(raw, "title"@))),
        "Unknown Programme"@,
    )
}

/// "Episode " and the JSON text of `episode_num`, where it is there and not
/// null.
pub open spec fn jio_subtitle(raw: JsonValue) -> Option<Seq<char>> {
    match get_spec(raw, "episode_num"@) {
        Some(v) => if v is Null {
            None
        } else {
            Some("Episode "@ + json_text(v))
        },
        None => None,
    }
}

/// The channel id: the record's `channel_id` as a string or an integer,
/// else the channel's own id.
pub open spec fn jio_channel_id(raw: JsonValue, channel_id: Seq<char>) -> Seq<char> {
    match get_spec(raw, "channel_id"@) {
        Some(v) => if as_str_spec(v) is Some {
            as_str_spec(v)->0
        } else if as_i64_spec(v) is Some {
            i64_decimal(as_i64_spec(v)->0 as int)
        } else {
            channel_id
        },
        None => channel_id,
    }
}

/// The image name: the 16:9 episode (or, where there is none, program)
/// asset, else `episodeThumbnail`, else `episodePoster`.
pub open spec fn jio_image_name(raw: JsonValue) -> Option<Seq<char>> {
    let ratio = match get_spec(raw, "assets"@) {
        Some(a) => get_spec(a, "16:9"@),
        None => None,
    };
    let pick = match ratio {
        Some(r) => if get_spec(r, "episode"@) is Some {
            get_spec(r, "episode"@)
        } else {
            get_spec(r, "program"@)
        },
        None => None,
    };
    let first = match pick {
        Some(v) => as_str_spec(v),
        None => None,
    };
    or_else(first, or_else(str_at(raw, "episodeThumbnail"@), str_at(raw, "episodePoster"@)))
}

/// The image URL: the name where it starts with "http", else the name
/// appended to the JioTV poster base.
pub open spec fn jio_image(raw: JsonValue) -> Option<Seq<char>> {
    match jio_image_name(raw) {
        Some(n) => Some(
            if starts_with(n, "http"@) {
                n
            } else {
                "https://jiotv.catchup.cdn.jio.com/dare_images/shows/"@ + n
            },
        ),
        None => None,
    }
}

/// The category: `showCategory`, else the channel's.
pub open spec fn jio_category(raw: JsonValue, channel: Channel) -> Option<Seq<char>> {
    or_else(text_at(raw, "showCategory"@), opt_view(channel.category))
}

/// The categories: the category, then each genre not listed yet.
pub open spec fn jio_categories(raw: JsonValue, channel: Channel) -> Seq<Seq<char>> {
    push_new(
        match jio_category(raw, channel) {
            Some(c) => seq![c],
            None => seq![],
        },
        strs_at(raw, "showGenre"@),
    )
}

/// Whether `normalize_jio_programme` keeps a record: both times read as
/// instants, the stop after the start, and a title that is not blank.
pub open spec fn jio_programme_kept(raw: JsonValue) -> bool {
    let start = epoch_instant(jio_start_epoch(raw));
    let stop = epoch_instant(jio_stop_epoch(raw));
    &&& start is Some
    &&& stop is Some
    &&& ts_lt(start->0, stop->0)
    &&& trim(jio_title(raw)).len() > 0
}

/// The programme that a kept record gives.
pub open spec fn jio_programme_ok(p: Programme, raw: JsonValue, channel: Channel) -> bool {
    &&& p.provider == ProviderKind::Jio
    &&& p.channel_id@ == jio_channel_id(raw, channel.id@)
    &&& opt_view(p.programme_id) == text_at(raw, "showId"@)
    &&& p.title@ == jio_title(raw)
    &&& opt_view(p.subtitle) == jio_subtitle(raw)
    &&& opt_view(p.description) == or_else(
        text_at(raw, "episode_desc"@),
        text_at(raw, "description"@),
    )
    &&& Some(p.start@) == epoch_instant(jio_start_epoch(raw))
    &&& Some(p.stop@) == epoch_instant(jio_stop_epoch(raw))
    &&& string_views(p.categories@) == jio_categories(raw, channel)
    &&& string_views(p.genres@) == strs_at(raw, "showGenre"@)
    &&& opt_view(p.language) == opt_view(channel.language)
    &&& opt_view(p.image) == jio_image(raw)
    &&& string_views(p.actors@) == people_at(raw, "starCast"@)
    &&& string_views(p.directors@) == people_at(raw, "director"@)
    &&& opt_view(p.rating_system) == Some("JioTV"@)
    &&& opt_view(p.rating_value) == text_at(raw, "pcr"@)
    &&& p.is_repeat == or_false(
        if bool_at(raw, "willRepeat"@) is Some {
            bool_at(raw, "willRepeat"@)
        } else {
            bool_at(raw, "isRepeat"@)
        },
    )
    &&& p.is_live == or_false(bool_at(raw, "isLiveAvailable"@))
    &&& p.catchup == or_false(bool_at(raw, "isCatchupAvailable"@))
    &&& json_same(p.raw, raw)
}

/// The string under `key` when it holds some non-space character.
pub open spec fn nonblank_member(raw: JsonValue, key: Seq<char>) -> Option<Seq<char>> {
    match get_spec(raw, key) {
        Some(v) => match as_str_spec(v) {
            Some(s) => if trim(s).len() > 0 {
                Some(s)
            } else {
                None
            },
            None => None,
        },
        None => None,
    }
}

/// A programme's description is the record's `episode_desc` where that is
/// a non-blank string, whatever `description` holds; only otherwise is it
/// `description` (where that is a non-blank string), else none.
pub proof fn law_jio_description_prefers_episode_desc(p: Programme, raw: JsonValue, channel: Channel)
    requires
        jio_programme_ok(p, raw, channel),
    ensures
        nonblank_member(raw, "episode_desc"@) is Some ==> opt_view(p.description) == nonblank_member(
            raw,
            "episode_desc"@,
        ),
        nonblank_member(raw, "episode_desc"@) is None ==> opt_view(p.description) == nonblank_member(
            raw,
            "description"@,
        ),
{
}

/// A programme's title is the record's `showname` where that is a non-blank
/// string; else `showName`, else `title`, likewise; else "Unknown
/// Programme".
pub proof fn law_jio_title_order(p: Programme, raw: JsonValue, channel: Channel)
    requires
        jio_programme_ok(p, raw, channel),
    ensures
        nonblank_member(raw, "showname"@) matches Some(t) ==> p.title@ == t,
        nonblank_member(raw, "showname"@) is None ==> (nonblank_member(raw, "showName"@) matches Some(t)
            ==> p.title@ == t),
        nonblank_member(raw, "showname"@) is None && nonblank_member(raw, "showName"@) is None ==> (
        nonblank_member(raw, "title"@) matches Some(t) ==> p.title@ == t),
        nonblank_member(raw, "showname"@) is None && nonblank_member(raw, "showName"@) is None
            && nonblank_member(raw, "title"@) is None ==> p.title@ == "Unknown Programme"@,
{
}

/// A programme's first category is the record's `showCategory` where that
/// is a non-blank string, else the channel's category; its rating is the
/// record's `pcr` under the "JioTV" system.
pub proof fn law_jio_category_and_rating(p: Programme, raw: JsonValue, channel: Channel)
    requires
        jio_programme_ok(p, raw, channel),
    ensures
        nonblank_member(raw, "showCategory"@) matches Some(c) ==> p.categories@.len() > 0
            && p.categories@[0]@ == c,
        nonblank_member(raw, "showCategory"@) is None ==> (channel.category matches Some(c)
            ==> p.categories@.len() > 0 && p.categories@[0]@ == c@),
        opt_view(p.rating_system) == Some("JioTV"@),
        opt_view(p.rating_value) == nonblank_member(raw, "pcr"@),
{
    let first = match jio_category(raw, channel) {
        Some(c) => seq![c],
        None => Seq::<Seq<char>>::empty(),
    };
    lemma_push_new_prefix(first, strs_at(raw, "showGenre"@));
    let sv = string_views(p.categories@);
    assert(sv.len() == p.categories@.len());
    if jio_category(raw, channel) is Some {
        assert(sv[0] == first[0]);
        assert(sv[0] == p.categories@[0]@);
    }
}

proof fn lemma_push_new_prefix(acc: Seq<Seq<char>>, items: Seq<Seq<char>>)
    ensures
        push_new(acc, items).len() >= acc.len(),
        forall|k: int| 0 <= k < acc.len() ==> push_new(acc, items)[k] == acc[k],
    decreases items.len(),
{
    if items.len() > 0 {
        lemma_push_new_prefix(acc, items.drop_last());
    }
}

fn start_epoch_field(raw: &JsonValue) -> (res: Option<i64>)
    ensures
        res == jio_start_epoch(*raw),
{
    match epoch_field(raw, "startEpoch") {
        Some(r) => r,
        None => match epoch_field(raw, "serverEpoch") {
            Some(r) => r,
            None => None,
        },
    }
}

fn stop_epoch_field(raw: &JsonValue) -> (res: Option<i64>)
    ensures
        res == jio_stop_epoch(*raw),
{
    match epoch_field(raw, "endEpoch") {
        Some(r) => r,
        None => None,
    }
}

fn title_field(raw: &JsonValue) -> (res: String)
    ensures
        res@ == jio_title(*raw),
{
    match text_field(raw, "showname") {
        Some(t) => t,
        None => match text_field(raw, "showName") {
            Some(t) => t,
            None => match text_field(raw, "title") {
                Some(t) => t,
                None => String::from_str("Unknown Programme"),
            },
        },
    }
}

fn subtitle_field(raw: &JsonValue) -> (res: Option<String>)
    ensures
        opt_view(res) == jio_subtitle(*raw),
{
    match raw.get("episode_num") {
        Some(v) => if v.is_null() {
            None
        } else {
            let mut out = chars_of("Episode ");
            push_json_text(&mut out, v);
            Some(string_of(&out))
        },
        None => None,
    }
}

fn channel_id_field(raw: &JsonValue, channel: &Channel) -> (res: String)
    ensures
        res@ == jio_channel_id(*raw, channel.id@),
{
    match raw.get("channel_id") {
        Some(v) => match v.as_str() {
            Some(s) => s.clone(),
            None => match v.as_i64() {
                Some(n) => i64_to_string(n),
                None => channel.id.clone(),
            },
        },
        None => channel.id.clone(),
    }
}

fn image_field(raw: &JsonValue) -> (res: Option<String>)
    ensures
        opt_view(res) == jio_image(*raw),
{
    let ratio: Option<&JsonValue> = match raw.get("assets") {
        Some(a) => a.get("16:9"),
        None => None,
    };
    let pick: Option<&JsonValue> = match ratio {
        Some(r) => match r.get("episode") {
            Some(e) => Some(e),
            None => r.get("program"),
        },
        None => None,
    };
    let first: Option<String> = match pick {
        Some(v) => match v.as_str() {
            Some(s) => Some(s.clone()),
            None => None,
        },
        None => None,
    };
    let name = match first {
        Some(s) => Some(s),
        None => match str_field(raw, "episodeThumbnail") {
            Some(s) => Some(s),
            None => str_field(raw, "episodePoster"),
        },
    };
    match name {
        Some(n) => {
            let nc = chars_of(n.as_str());
            let http = chars_of("http");
            if starts_with_exec(&nc, &http) {
                Some(n)
            } else {
                let mut out = chars_of("https://jiotv.catchup.cdn.jio.com/dare_images/shows/");
                append_str(&mut out, n.as_str());
                Some(string_of(&out))
            }
        },
        None => None,
    }
}

fn or_text(a: Option<String>, b: Option<String>) -> (res: Option<String>)
    ensures
        opt_view(res) == or_else(opt_view(a), opt_view(b)),
{
    match a {
        Some(x) => Some(x),
        None => b,
    }
}

/// A JioTV programme record of `channel` as a programme, or `None` where its
/// times do not read as instants in order or its title is blank.
pub fn normalize_jio_programme(raw: &JsonValue, channel: &Channel, offset: i32) -> (res: Option<
    Programme,
>)
    requires
        jio_epochs_fit(*raw),
    ensures
        res is Some <==> jio_programme_kept(*raw),
        res matches Some(p) ==> jio_programme_ok(p, *raw, *channel),
{
    let start_epoch = start_epoch_field(raw);
    let start = match epoch_timestamp(start_epoch) {
        Some(t) => t,
        None => return None,
    };
    let stop_epoch = stop_epoch_field(raw);
    let stop = match epoch_timestamp(stop_epoch) {
        Some(t) => t,
        None => return None,
    };
    if !start.before(&stop) {
        return None;
    }
    let title = title_field(raw);
    let tc = chars_of(title.as_str());
    let tt = trim_chars(&tc);
    if tt.len() == 0 {
        return None;
    }
    let subtitle = subtitle_field(raw);
    let description = or_text(text_field(raw, "episode_desc"), text_field(raw, "description"));
    let category = or_text(text_field(raw, "showCategory"), clone_opt(&channel.category));
    let mut categories: Vec<String> = Vec::new();
    match category {
        Some(c) => {
            proof {
                lemma_string_views_push(categories@, c);
            }
            categories.push(c);
        },
        None => {},
    }
    assert(string_views(categories@) =~= match jio_category(*raw, *channel) {
        Some(c) => seq![c],
        None => seq![],
    });
    let genres = strs_field(raw, "showGenre");
    extend_new(&mut categories, &genres);
    let repeat = match bool_field(raw, "willRepeat") {
        Some(b) => b,
        None => match bool_field(raw, "isRepeat") {
            Some(b) => b,
            None => false,
        },
    };
    let live = match bool_field(raw, "isLiveAvailable") {
        Some(b) => b,
        None => false,
    };
    let catchup = match bool_field(raw, "isCatchupAvailable") {
        Some(b) => b,
        None => false,
    };
    Some(
        Programme {
            provider: ProviderKind::Jio,
            channel_id: channel_id_field(raw, channel),
            programme_id: text_field(raw, "showId"),
            title,
            subtitle,
            description,
            start,
            stop,
            categories,
            genres,
            language: clone_opt(&channel.language),
            image: image_field(raw),
            actors: people_field(raw, "starCast"),
            directors: people_field(raw, "director"),
            rating_system: Some(String::from_str("JioTV")),
            rating_value: text_field(raw, "pcr"),
            is_repeat: repeat,
            is_live: live,
            catchup,
            raw: raw.duplicate(),
        },
    )
}

/// `normalize_jio_programme` where reading the record's times stays within
/// `i64` milliseconds; `None` where an epoch's seconds overflow when taken
/// to milliseconds.
pub fn normalize_jio_programme_checked(raw: &JsonValue, channel: &Channel, offset: i32) -> (res:
    Option<Option<Programme>>)
    ensures
        res is Some <==> jio_epochs_fit(*raw),
        res matches Some(r) ==> (r is Some <==> jio_programme_kept(*raw)),
        res matches Some(r) ==> (r matches Some(p) ==> jio_programme_ok(p, *raw, *channel)),
{
    let start_epoch = start_epoch_field(raw);
    if !epoch_fits_check(start_epoch) {
        return None;
    }
    let start = epoch_timestamp(start_epoch);
    if start.is_some() {
        let stop_epoch = stop_epoch_field(raw);
        if !epoch_fits_check(stop_epoch) {
            return None;
        }
    }
    Some(normalize_jio_programme(raw, channel, offset))
}

/// A channel's programmes gathered over the days asked for, in order of
/// start (a stable sort) and without a programme that repeats the one
/// kept before it.
pub fn finish_jio_programmes(programmes: Vec<Programme>) -> (res: Vec<Programme>)
    ensures
        exists|sorted: Seq<Programme>|
            {
                &&& sorted_by_start(sorted)
                &&& forall|k: (int, int)| #[trigger]
                    starting_at(sorted, k) == starting_at(programmes@, k)
                &&& res@ == drop_repeats(sorted)
            },
{
    let sorted = sort_by_start(programmes);
    remove_repeats(sorted)
}

} // verus!
