use std::io::Read;

use chrono::{TimeZone, Utc};

use omega::channel::{Channel, Programme};
use omega::guide::build_guide;
use omega::gzip::gzip_best;
use omega::index::{bucket_by_country, bucket_by_genre, index_text, is_index_source, safe_name, BucketBy};
use omega::jio_epg::{finish_jio_programmes, normalize_jio_programme, normalize_jio_programme_checked};
use omega::json::JsonValue;
use omega::pipeline::{
    channel_map_pairs, check_json_array, check_output_size, check_playlist_text, check_xmltv_text,
    entry_from_unified, jio_epg_items, jio_epg_lang_id, json_string, lookup_pair, map_programmes,
    select_epg_channels, unified_playlist, unused_targets, xmltv_channels_from_rows, OutputProblem,
};
use omega::playlist::{build_m3u, Playlist, PlaylistEntry};
use omega::provider::ProviderKind;
use omega::publish::{manifest_json, sha256_hex};
use omega::similarity::{
    jaccard_parts, levenshtein_parts, metadata_relation, prefix_parts, substring_relation,
    Containment, MetaMatch,
};
use omega::time::Timestamp;
use omega::tvg::{normalize_known_tvg_words, quality_match, tvg_id_to_words, weak_generic_match, QualityMatch};
use omega::xmltv::build_xmltv_string;
use omega::zee5::{normalize_zee5_channel, normalize_zee5_programme, resolve_logo_from_image, zee5_schedule, Zee5CatalogItem, Zee5Image};

fn s(text: &str) -> String {
    text.to_string()
}

fn text(value: &str) -> JsonValue {
    JsonValue::Str(value.to_string())
}

fn obj(members: Vec<(&str, JsonValue)>) -> JsonValue {
    JsonValue::Object(members.into_iter().map(|(k, v)| (k.to_string(), v)).collect())
}

fn ts(y: i32, mo: u32, d: u32, h: u32, mi: u32) -> Timestamp {
    let dt = Utc.with_ymd_and_hms(y, mo, d, h, mi, 0).unwrap();
    Timestamp::from_parts(dt.timestamp(), 0).unwrap()
}

fn programme(provider: ProviderKind, channel: &str, title: &str, start: Timestamp, stop: Timestamp) -> Programme {
    Programme {
        provider,
        channel_id: s(channel),
        programme_id: None,
        title: s(title),
        subtitle: None,
        description: None,
        start,
        stop,
        categories: Vec::new(),
        genres: Vec::new(),
        language: None,
        image: None,
        actors: Vec::new(),
        directors: Vec::new(),
        rating_system: None,
        rating_value: None,
        is_repeat: false,
        is_live: false,
        catchup: false,
        raw: JsonValue::Null,
    }
}

fn jio_channel() -> Channel {
    let mut c = Channel::new(ProviderKind::Jio, "144", "Zee News");
    c.category = Some(s("News"));
    c.language = Some(s("Hindi"));
    c
}

#[test]
fn normalizes_jio_programmes() {
    let raw = obj(vec![
        ("startEpoch", JsonValue::Int(1_767_225_600_000)),
        ("endEpoch", text("1767227400")),
        ("showname", text("  ")),
        ("showName", text("Morning News")),
        ("episode_num", JsonValue::Int(12)),
        ("episode_desc", text("Top stories")),
        ("showGenre", JsonValue::Array(vec![text("News"), text(" "), text("Talk"), JsonValue::Int(3)])),
        ("starCast", text(" A , ,B")),
        ("director", JsonValue::Array(vec![text(" D ")])),
        ("episodePoster", text("poster.jpg")),
        ("channel_id", JsonValue::Int(144)),
        ("showId", text("S1")),
        ("willRepeat", JsonValue::Bool(true)),
        ("isLiveAvailable", JsonValue::Int(1)),
    ]);
    let channel = jio_channel();
    let p = normalize_jio_programme(&raw, &channel, 0).unwrap();
    assert_eq!(p.provider, ProviderKind::Jio);
    assert_eq!(p.channel_id, "144");
    assert_eq!(p.programme_id.as_deref(), Some("S1"));
    assert_eq!(p.title, "Morning News");
    assert_eq!(p.subtitle.as_deref(), Some("Episode 12"));
    assert_eq!(p.description.as_deref(), Some("Top stories"));
    assert!(p.start.same(&ts(2026, 1, 1, 0, 0)));
    assert!(p.stop.same(&ts(2026, 1, 1, 0, 30)));
    assert_eq!(p.genres, vec![s("News"), s("Talk")]);
    assert_eq!(p.categories, vec![s("News"), s("Talk")]);
    assert_eq!(p.actors, vec![s("A"), s("B")]);
    assert_eq!(p.directors, vec![s("D")]);
    assert_eq!(p.image.as_deref(), Some("https://jiotv.catchup.cdn.jio.com/dare_images/shows/poster.jpg"));
    assert_eq!(p.language.as_deref(), Some("Hindi"));
    assert_eq!(p.rating_system.as_deref(), Some("JioTV"));
    assert!(p.is_repeat);
    assert!(!p.is_live);
    assert!(!p.catchup);
    assert_eq!(p.duration_seconds(), 1800);
}

#[test]
fn rejects_jio_programmes_without_order() {
    let channel = jio_channel();
    let backwards = obj(vec![("startEpoch", JsonValue::Int(2000)), ("endEpoch", JsonValue::Int(1000))]);
    assert!(normalize_jio_programme(&backwards, &channel, 0).is_none());
    let missing = obj(vec![("startEpoch", JsonValue::Int(1000))]);
    assert!(normalize_jio_programme(&missing, &channel, 0).is_none());
    let bad = obj(vec![("startEpoch", text("soon")), ("serverEpoch", JsonValue::Int(1)), ("endEpoch", JsonValue::Int(2))]);
    assert!(normalize_jio_programme(&bad, &channel, 0).is_none());
    let fallback = obj(vec![("serverEpoch", JsonValue::Int(1)), ("endEpoch", JsonValue::Int(2)), ("assets", obj(vec![("16:9", obj(vec![("program", text("http://img"))]))]))]);
    let p = normalize_jio_programme(&fallback, &channel, 0).unwrap();
    assert_eq!(p.title, "Unknown Programme");
    assert_eq!(p.image.as_deref(), Some("http://img"));
    assert_eq!(p.categories, vec![s("News")]);
    assert_eq!(p.channel_id, "144");
    let overflow = obj(vec![("startEpoch", JsonValue::Int(-9_223_372_036_854_776)), ("endEpoch", JsonValue::Int(2))]);
    assert!(normalize_jio_programme_checked(&overflow, &channel, 0).is_none());
    assert!(matches!(normalize_jio_programme_checked(&fallback, &channel, 0), Some(Some(_))));
}

#[test]
fn orders_jio_schedules_and_drops_repeats() {
    let a = programme(ProviderKind::Jio, "1", "A", ts(2026, 1, 1, 2, 0), ts(2026, 1, 1, 3, 0));
    let b = programme(ProviderKind::Jio, "1", "B", ts(2026, 1, 1, 1, 0), ts(2026, 1, 1, 2, 0));
    let b2 = programme(ProviderKind::Jio, "1", "B", ts(2026, 1, 1, 1, 0), ts(2026, 1, 1, 2, 0));
    let c = programme(ProviderKind::Jio, "1", "C", ts(2026, 1, 1, 1, 0), ts(2026, 1, 1, 2, 0));
    let out = finish_jio_programmes(vec![a, b, c, b2]);
    let titles: Vec<String> = out.iter().map(|p| p.title.clone()).collect();
    assert_eq!(titles, vec![s("B"), s("C"), s("B"), s("A")]);
    let d1 = programme(ProviderKind::Jio, "1", "D", ts(2026, 1, 1, 1, 0), ts(2026, 1, 1, 2, 0));
    let d2 = programme(ProviderKind::Jio, "1", "D", ts(2026, 1, 1, 1, 0), ts(2026, 1, 1, 2, 0));
    assert_eq!(finish_jio_programmes(vec![d1, d2]).len(), 1);
}

fn image(square: Option<&str>, cover: Option<&str>) -> Zee5Image {
    Zee5Image {
        channel_square: None,
        channel_list: None,
        square: square.map(s),
        list: None,
        cover: cover.map(s),
        thumbnail: None,
    }
}

#[test]
fn zee5_logos_and_channels() {
    assert_eq!(
        resolve_logo_from_image(&image(None, Some("abc"))).as_deref(),
        Some("https://akamaividz2.zee5.com/image/upload/abc.png")
    );
    assert_eq!(resolve_logo_from_image(&image(Some("sq"), Some("abc"))).as_deref(), Some("https://akamaividz2.zee5.com/image/upload/sq.png"));
    assert_eq!(resolve_logo_from_image(&image(None, None)), None);
    let item = Zee5CatalogItem {
        id: s("0-9-zeenews"),
        title: None,
        original_title: Some(s("Zee News")),
        image: image(Some("sq"), None),
        languages: vec![s("hi"), s("en")],
        extra: obj(vec![("asset_type", JsonValue::Int(9))]),
    };
    let c = normalize_zee5_channel(item);
    assert_eq!(c.provider, ProviderKind::Zee5);
    assert_eq!(c.id, "0-9-zeenews");
    assert_eq!(c.name, "Zee News");
    assert_eq!(c.language.as_deref(), Some("hi"));
    assert_eq!(c.group.as_deref(), Some("ZEE5"));
    assert_eq!(c.category.as_deref(), Some("Entertainment"));
    assert_eq!(c.logo.as_deref(), Some("https://akamaividz2.zee5.com/image/upload/sq.png"));
    assert_eq!(c.raw.get("asset_type").and_then(|v| v.as_i64()), Some(9));
    assert_eq!(c.raw.get("image").and_then(|v| v.get("square")).and_then(|v| v.as_str()).map(|x| x.as_str()), Some("sq"));
}

#[test]
fn normalizes_zee5_programmes() {
    let channel = Channel::new(ProviderKind::Zee5, "0-9-zeenews", "Zee News");
    let raw = obj(vec![
        ("start", text("not a time")),
        ("from", text("2026-01-01T05:30:00+05:30")),
        ("end_time", text("2026-01-01T01:00:00Z")),
        ("title", text("Headlines")),
        ("genres", JsonValue::Array(vec![obj(vec![("value", text("News"))]), text("Talk")])),
        ("tags", JsonValue::Array(vec![text("News"), text("Live")])),
        ("cast", JsonValue::Array(vec![text("A")])),
        ("image", obj(vec![("cover", text("c.jpg")), ("thumbnail", text("t.jpg"))])),
        ("is_live", JsonValue::Bool(true)),
        ("language", text("hi")),
    ]);
    let p = normalize_zee5_programme(&raw, &channel).unwrap();
    assert_eq!(p.channel_id, "0-9-zeenews");
    assert_eq!(p.title, "Headlines");
    assert!(p.start.same(&ts(2026, 1, 1, 0, 0)));
    assert_eq!(p.categories, vec![s("News"), s("Talk")]);
    assert_eq!(p.genres, vec![s("News"), s("Talk"), s("Live")]);
    assert_eq!(p.actors, vec![s("A")]);
    assert_eq!(p.image.as_deref(), Some("c.jpg"));
    assert_eq!(p.language.as_deref(), Some("hi"));
    assert!(p.is_live);
    assert!(!p.is_repeat);
    let late = obj(vec![("start_time", text("2026-01-01T02:00:00Z")), ("end_time", text("2026-01-01T03:00:00Z"))]);
    let none = obj(vec![("start_time", text("2026-01-01T02:00:00Z"))]);
    let schedule = zee5_schedule(&vec![late, none, raw], &channel);
    assert_eq!(schedule.len(), 2);
    assert_eq!(schedule[0].title, "Headlines");
    assert_eq!(schedule[1].title, "Unknown Programme");
}

#[test]
fn similarity_parts() {
    assert_eq!(levenshtein_parts("kitten", "sitting"), Some((3, 7)));
    assert_eq!(levenshtein_parts("HD", "sitting"), None);
    assert_eq!(jaccard_parts("Zee News", "Zee Cinema"), Some((1, 2, 2)));
    assert_eq!(jaccard_parts("Live", "Zee"), None);
    assert_eq!(substring_relation("Zee News", "Zee News HD"), Containment::Same);
    assert_eq!(substring_relation("Zee News", "Zee News Hindi"), Containment::Contains);
    assert_eq!(substring_relation("Zee", "Sony"), Containment::Unrelated);
    assert_eq!(substring_relation("TV", "Sony"), Containment::Empty);
    assert_eq!(prefix_parts("Star Sports", "Star Gold"), Some((4, 8)));
    assert_eq!(prefix_parts("ABP", "ABP News"), None);
    assert_eq!(metadata_relation(Some(" HD "), Some("hd")), MetaMatch::Same);
    assert_eq!(metadata_relation(Some("Hindi"), Some("English")), MetaMatch::Different);
    assert_eq!(metadata_relation(None, Some("hd")), MetaMatch::Unknown);
}

#[test]
fn tvg_words_and_signals() {
    assert_eq!(tvg_id_to_words("ZeeNews.in@HD"), "Zee News");
    assert_eq!(tvg_id_to_words("News18India.in"), "News 18 India");
    assert_eq!(tvg_id_to_words("9XM.in"), "9 XM");
    assert_eq!(tvg_id_to_words("TV18HD"), "TV18");
    assert_eq!(normalize_known_tvg_words("  Tv 18   Prime HD "), "TV18 Prime");
    assert!(weak_generic_match("News", "Zee News", "Zee News"));
    assert!(weak_generic_match("ABP", "ABP News", "ABP News"));
    assert!(!weak_generic_match("Zee News", "Zee News", "Zee News"));
    assert!(weak_generic_match("India Today", "IndiaTV", "India Today"));
    assert!(!weak_generic_match("IndiaTV", "IndiaTV", "Other"));
    assert_eq!(quality_match(Some("HD"), "ZeeNews.in@HD"), QualityMatch::Same);
    assert_eq!(quality_match(Some("SD"), "ZeeNews.in@HD"), QualityMatch::Different);
    assert_eq!(quality_match(None, "ZeeNews.in@HD"), QualityMatch::Unknown);
    assert_eq!(quality_match(Some("HD"), "ZeeNews.in"), QualityMatch::Unknown);
}

fn unified_row(url: Option<&str>) -> JsonValue {
    let mut ms = vec![
        ("canonical_name", text(" Zee News ")),
        ("tvg_id", text("ZeeNews.in")),
        ("category", text("News")),
        ("country", text("in")),
    ];
    if let Some(u) = url {
        ms.push(("url", text(u)));
    }
    obj(ms)
}

#[test]
fn playlist_entries_from_unified_rows() {
    assert_eq!(json_string(&unified_row(None), "canonical_name").as_deref(), Some("Zee News"));
    assert_eq!(json_string(&obj(vec![("x", text("   "))]), "x"), None);
    let e = entry_from_unified(&unified_row(Some(" http://s "))).unwrap();
    assert_eq!(e.name, "Zee News");
    assert_eq!(e.tvg_name.as_deref(), Some("Zee News"));
    assert_eq!(e.url, "http://s");
    assert_eq!(e.group.as_deref(), Some("News (IN)"));
    assert_eq!(
        e.raw_extinf,
        "#EXTINF:-1 tvg-id=\"ZeeNews.in\" tvg-name=\"Zee News\" tvg-logo=\"\" group-title=\"News (IN)\",Zee News"
    );
    assert!(entry_from_unified(&unified_row(None)).is_none());
    let playlist = unified_playlist(&vec![unified_row(Some("http://a")), unified_row(None), obj(vec![("url", text("http://b"))])]);
    assert_eq!(playlist.name, "omega");
    assert_eq!(playlist.len(), 2);
    assert_eq!(playlist.entries[1].name, "Unknown Channel");
    assert_eq!(playlist.entries[1].group.as_deref(), Some("General (IN)"));
    assert_eq!(check_playlist_text(&build_m3u(&playlist)), Ok(()));
}

#[test]
fn artifact_checks() {
    assert_eq!(check_playlist_text("#EXTM3U\n"), Err(OutputProblem::NoPlaylistEntries));
    assert_eq!(check_playlist_text("#EXTINF"), Err(OutputProblem::NoPlaylistHeader));
    assert_eq!(check_output_size(0), Err(OutputProblem::EmptyFile));
    assert_eq!(check_output_size(10), Ok(()));
    assert_eq!(check_json_array(&JsonValue::Array(vec![])), Err(OutputProblem::EmptyArray));
    assert_eq!(check_json_array(&JsonValue::Null), Err(OutputProblem::NotArray));
    assert_eq!(check_json_array(&JsonValue::Array(vec![JsonValue::Null])), Ok(()));
    assert_eq!(check_xmltv_text("<tv>"), Err(OutputProblem::NoXmlDeclaration));
    assert_eq!(check_xmltv_text("<?xml?><tv><channel>"), Err(OutputProblem::NoProgrammeElement));
    assert_eq!(check_xmltv_text("<?xml?><tv><channel><programme>&lt;programme"), Err(OutputProblem::EscapedProgramme));
    assert_eq!(check_xmltv_text("<?xml?><channel><programme>"), Err(OutputProblem::NoTvElement));
    let xml = build_xmltv_string(&vec![], &vec![], "omega", 330).unwrap();
    assert_eq!(check_xmltv_text(&xml), Err(OutputProblem::NoChannelElement));
}

#[test]
fn xmltv_from_exported_rows() {
    let rows = vec![
        obj(vec![("source_channel_id", text("144")), ("tvg_id", text("Old.in"))]),
        obj(vec![("source_channel_id", text("144")), ("tvg_id", text(" ZeeNews.in "))]),
        obj(vec![("tvg_id", text("Lonely.in"))]),
    ];
    let pairs = channel_map_pairs(&rows);
    assert_eq!(pairs.len(), 2);
    assert_eq!(lookup_pair(&pairs, &s("144")).as_deref(), Some("ZeeNews.in"));
    assert_eq!(lookup_pair(&pairs, &s("145")), None);
    let channels = xmltv_channels_from_rows(&vec![
        obj(vec![("tvg_id", text("ZeeNews.in")), ("logo", text("http://l"))]),
        obj(vec![("display_name", text("Nameless"))]),
    ]);
    assert_eq!(channels.len(), 1);
    assert_eq!(channels[0].display_names, vec![s("ZeeNews.in")]);
    assert_eq!(channels[0].icon.as_deref(), Some("http://l"));
    let ps = vec![
        programme(ProviderKind::Jio, "144", "A", ts(2026, 1, 1, 0, 0), ts(2026, 1, 1, 1, 0)),
        programme(ProviderKind::Jio, "999", "B", ts(2026, 1, 1, 0, 0), ts(2026, 1, 1, 1, 0)),
    ];
    let mapped = map_programmes(&ps, &pairs);
    assert_eq!(mapped.len(), 1);
    assert_eq!(mapped[0].channel_id, "ZeeNews.in");
    assert_eq!(mapped[0].title, "A");
}

#[test]
fn choosing_channels() {
    let mut hidden = Channel::new(ProviderKind::Jio, "2", "Hidden");
    hidden.hidden = true;
    let chosen = select_epg_channels(
        vec![Channel::new(ProviderKind::Jio, "1", "A"), hidden, Channel::new(ProviderKind::Jio, "3", "C")],
        Some(5),
    );
    assert_eq!(chosen.iter().map(|c| c.id.clone()).collect::<Vec<_>>(), vec![s("1"), s("3")]);
    let limited = select_epg_channels(vec![Channel::new(ProviderKind::Jio, "1", "A"), Channel::new(ProviderKind::Jio, "3", "C")], Some(1));
    assert_eq!(limited.len(), 1);
    let targets = vec![Channel::new(ProviderKind::IptvOrg, "a", "A"), Channel::new(ProviderKind::IptvOrg, "b", "B")];
    let left = unused_targets(&targets, &vec![s("a")]);
    assert_eq!(left.len(), 1);
    assert_eq!(left[0].id, "b");
    let mut c = Channel::new(ProviderKind::Jio, "1", "A");
    assert_eq!(jio_epg_lang_id(&c), 6);
    c.raw = obj(vec![("channel_language_id", JsonValue::Int(1))]);
    assert_eq!(jio_epg_lang_id(&c), 1);
    assert_eq!(jio_epg_items(None, Some(vec![JsonValue::Null])).len(), 1);
    assert_eq!(jio_epg_items(Some(vec![]), Some(vec![JsonValue::Null])).len(), 0);
}

fn entry(name: &str, group: Option<&str>) -> PlaylistEntry {
    PlaylistEntry {
        tvg_id: None,
        tvg_name: None,
        name: s(name),
        label: None,
        group: group.map(s),
        logo: None,
        url: s("http://x"),
        raw_extinf: s(""),
    }
}

#[test]
fn playlist_indexes() {
    assert_eq!(safe_name("News & Info (IN)"), "news_info_in");
    assert_eq!(safe_name("__"), "");
    let entries = vec![
        entry("a", Some("Sports (IN)")),
        entry("b", Some("News (UK)")),
        entry("c", Some("Sports (US)")),
        entry("d", None),
    ];
    let genres = bucket_by_genre(&entries);
    let keys: Vec<String> = genres.iter().map(|b| b.0.clone()).collect();
    assert_eq!(keys, vec![s("General"), s("News"), s("Sports")]);
    assert_eq!(genres[2].1.iter().map(|e| e.name.clone()).collect::<Vec<_>>(), vec![s("a"), s("c")]);
    let countries = bucket_by_country(&entries);
    let ckeys: Vec<String> = countries.iter().map(|b| b.0.clone()).collect();
    assert_eq!(ckeys, vec![s("in"), s("uk"), s("unknown"), s("us")]);
    assert_eq!(
        index_text(&ckeys[0..2].to_vec(), BucketBy::Country),
        "#EXTM3U\n#EXTINF:-1,IN\ncountries/in.m3u\n#EXTINF:-1,UK\ncountries/uk.m3u\n"
    );
    assert_eq!(
        index_text(&vec![s("Kids & Family")], BucketBy::Genre),
        "#EXTM3U\n#EXTINF:-1,Kids & Family\ngenres/kids_family.m3u\n"
    );
    assert!(is_index_source("omega.m3u"));
    assert!(!is_index_source("index.genre.m3u"));
    assert!(!is_index_source("notes.txt"));
    let mut p = Playlist::new("Sports");
    p.entries = genres[2].1.clone_entries();
    assert_eq!(p.len(), 2);
}

trait CloneEntries {
    fn clone_entries(&self) -> Vec<PlaylistEntry>;
}

impl CloneEntries for Vec<PlaylistEntry> {
    fn clone_entries(&self) -> Vec<PlaylistEntry> {
        self.iter().map(|e| e.duplicate()).collect()
    }
}

#[test]
fn digests_and_manifest() {
    assert_eq!(sha256_hex(b"abc"), "ba7816bf8f01cfea414140de5dae2223b00361a396177a9cb410ff61f20015ad");
    assert_eq!(sha256_hex(b""), "e3b0c44298fc1c149afbf4c8996fb92427ae41e4649b934ca495991b7852b855");
    let m = manifest_json("2026-01-01T00:00:00+00:00", &vec![(s("omega.m3u"), 12, s("aa"))]);
    assert_eq!(m.get("name").and_then(|v| v.as_str()).map(|x| x.as_str()), Some("omega-iptv-rust"));
    let artifacts = m.get("artifacts").and_then(|v| v.as_array()).unwrap();
    assert_eq!(artifacts.len(), 1);
    assert_eq!(artifacts[0].get("bytes").and_then(|v| v.as_i64()), Some(12));
    assert_eq!(artifacts[0].get("sha256").and_then(|v| v.as_str()).map(|x| x.as_str()), Some("aa"));
}

#[test]
fn gzip_round_trip() {
    let data = b"<?xml version=\"1.0\"?><tv></tv>\n".repeat(20);
    let packed = gzip_best(&data);
    assert_eq!(&packed[..10], &[0x1f, 0x8b, 8, 0, 0, 0, 0, 0, 2, 255]);
    let mut unpacked = Vec::new();
    flate2::read::GzDecoder::new(&packed[..]).read_to_end(&mut unpacked).unwrap();
    assert_eq!(unpacked, data);
}

#[test]
fn builds_guides_on_tvg_ids() {
    let mut iptv = Channel::new(ProviderKind::IptvOrg, "ZeeNews.in", "Zee News Raw");
    iptv.tvg_name = Some(s("Zee News"));
    let other = Channel::new(ProviderKind::IptvOrg, "AajTak.in", "Aaj Tak");
    let jio_map = vec![(s("144"), s("ZeeNews.in"))];
    let zee5_map = vec![(s("z1"), s("AajTak.in")), (s("z2"), s("Missing.in"))];
    let ps = vec![
        programme(ProviderKind::Jio, "144", "Late Show", ts(2026, 1, 1, 2, 0), ts(2026, 1, 1, 3, 0)),
        programme(ProviderKind::Jio, "144", "Late-Show", ts(2026, 1, 1, 2, 0), ts(2026, 1, 1, 3, 0)),
        programme(ProviderKind::Zee5, "z1", "Early", ts(2026, 1, 1, 1, 0), ts(2026, 1, 1, 2, 0)),
        programme(ProviderKind::Zee5, "z2", "Nowhere", ts(2026, 1, 1, 1, 0), ts(2026, 1, 1, 2, 0)),
        programme(ProviderKind::IptvOrg, "144", "Ignored", ts(2026, 1, 1, 1, 0), ts(2026, 1, 1, 2, 0)),
    ];
    let (channels, programmes) = build_guide(&vec![iptv, other], &ps, &jio_map, &zee5_map);
    let ids: Vec<String> = channels.iter().map(|c| c.id.clone()).collect();
    assert_eq!(ids, vec![s("AajTak.in"), s("ZeeNews.in")]);
    assert_eq!(channels[1].display_names, vec![s("Zee News")]);
    let titles: Vec<String> = programmes.iter().map(|p| p.title.clone()).collect();
    assert_eq!(titles, vec![s("Early"), s("Nowhere"), s("Late Show")]);
    assert_eq!(programmes[1].channel_id, "Missing.in");
}

#[test]
fn escaped_text_has_no_markup() {
    for input in ["<b>\"x\" & 'y'</b>", "plain", "<<>>\"\"''"] {
        let x = omega::xmltv::esc(input);
        assert!(!x.contains('<') && !x.contains('>') && !x.contains('"') && !x.contains('\''));
        let a = omega::playlist::escape_attr(input);
        assert!(!a.contains('<') && !a.contains('>') && !a.contains('"'));
    }
}

#[test]
fn decimal_text_reads_back() {
    for n in [0i64, 7, -7, 10, 1234567890, i64::MAX, i64::MIN] {
        assert_eq!(omega::json::parse_i64(&omega::json::i64_to_string(n)), Some(n));
    }
}

#[test]
fn edit_distance_is_bounded_by_longer_name() {
    for (a, b) in [("zee news", "aaj tak"), ("colors", "colors cineplex"), ("a1", "b2")] {
        if let Some((d, m)) = levenshtein_parts(a, b) {
            assert!(d <= m);
        }
    }
    assert_eq!(levenshtein_parts("Zee News", "ZEE NEWS"), Some((0, 8)));
}

#[test]
fn clean_names_are_ascii_words() {
    for input in ["Zée Nëws (HD) — 24×7", "Star+Plus@HD", "  Sony   SAB  "] {
        let c = omega::clean::clean_name(input);
        assert!(c.chars().all(|ch| ch.is_ascii_alphanumeric() || ch == ' '));
        let k = omega::clean::compact_name(input);
        assert!(k.chars().all(|ch| ch.is_ascii_alphanumeric()));
    }
    assert_eq!(omega::clean::clean_name("Star+Plus@HD"), "star plus plus");
}

#[test]
fn unify_fields_prefers_target_identity_and_source_details() {
    let mut source = Channel::new(ProviderKind::Jio, "144", "Zee News");
    source.language = Some("Hindi".to_string());
    source.stream_url = Some("https://jio.example/zee.m3u8".to_string());
    source.logo = None;
    let mut target = Channel::new(ProviderKind::IptvOrg, "ZeeNews.in", "Zee News HD");
    target.tvg_id = Some("ZeeNews.in".to_string());
    target.language = Some("English".to_string());
    target.logo = Some("https://logo.example/zee.png".to_string());
    target.stream_url = Some("https://iptv.example/zee.m3u8".to_string());
    let fields = omega::matching::unify_fields(&source, &target);
    assert_eq!(fields.canonical_name, "Zee News");
    assert_eq!(fields.display_name, "Zee News");
    assert_eq!(fields.tvg_id.as_deref(), Some("ZeeNews.in"));
    assert_eq!(fields.language.as_deref(), Some("Hindi"));
    assert_eq!(fields.logo.as_deref(), Some("https://logo.example/zee.png"));
    assert_eq!(fields.stream_url.as_deref(), Some("https://iptv.example/zee.m3u8"));
    assert_eq!(fields.country, None);
    assert_eq!(fields.confidence_source, "jio+iptv_org");
}

#[test]
fn clean_name_is_idempotent_on_examples() {
    for raw in ["Zee News HD (India)", "Star Plus & Friends [4K]", "  T V  ", "Colors Kannada @hd", "ABP Ananda"] {
        let once = omega::clean::clean_name(raw);
        assert_eq!(omega::clean::clean_name(&once), once);
    }
}

#[test]
fn compact_name_drops_spaces_of_clean_name() {
    assert_eq!(omega::clean::compact_name("T V"), "tv");
    assert_eq!(omega::clean::compact_name("tv"), "");
    assert_eq!(omega::clean::clean_name("Star Plus HD"), "star plus");
    assert_eq!(omega::clean::compact_name("Star Plus HD"), "starplus");
    assert_eq!(omega::clean::compact_name("HD"), "");
    assert_eq!(omega::clean::clean_name("HD"), "");
}

fn full_entry(name: &str, tvg_id: Option<&str>, logo: Option<&str>, group: Option<&str>, url: &str) -> PlaylistEntry {
    PlaylistEntry {
        tvg_id: tvg_id.map(s),
        tvg_name: None,
        name: s(name),
        label: None,
        group: group.map(s),
        logo: logo.map(s),
        url: s(url),
        raw_extinf: String::new(),
    }
}

#[test]
fn built_playlist_parses_back() {
    let mut playlist = Playlist::new("omega");
    playlist.push(full_entry("Zee News", Some("ZeeNews.in"), Some("https://logo.example/zee.png?x=1"), Some("News (IN)"), "https://a.example/zee.m3u8"));
    playlist.push(full_entry("Aaj Tak", None, None, None, "http://b.example/aajtak"));
    let text = build_m3u(&playlist);
    let back = omega::playlist::parse_m3u(&text);
    assert_eq!(back.len(), 2);
    assert_eq!(back[0].url, "https://a.example/zee.m3u8");
    assert_eq!(back[0].tvg_id.as_deref(), Some("ZeeNews.in"));
    assert_eq!(back[0].tvg_name.as_deref(), Some("Zee News"));
    assert_eq!(back[0].name, "Zee News");
    assert_eq!(back[0].logo.as_deref(), Some("https://logo.example/zee.png?x=1"));
    assert_eq!(back[0].group.as_deref(), Some("News (IN)"));
    assert_eq!(back[1].tvg_id, None);
    assert_eq!(back[1].logo, None);
    assert_eq!(back[1].group.as_deref(), Some("General"));
    assert_eq!(back[1].name, "Aaj Tak");
}

#[test]
fn value_ending_like_an_attribute_is_misread() {
    let mut playlist = Playlist::new("omega");
    playlist.push(full_entry("Zee", Some("x tvg-name="), None, None, "http://a"));
    let back = omega::playlist::parse_m3u(&build_m3u(&playlist));
    assert_eq!(back[0].tvg_name.as_deref(), Some("tvg-name="));
    assert_ne!(back[0].name, "Zee");
}

#[test]
fn xmltv_leaves_out_unshown_programmes() {
    let start = ts(2026, 1, 1, 0, 0);
    let stop = ts(2026, 1, 1, 1, 0);
    let good = omega::xmltv::XmltvProgramme::from_programme(&programme(ProviderKind::Jio, "Zee.in", "News", start, stop));
    let backwards = omega::xmltv::XmltvProgramme::from_programme(&programme(ProviderKind::Jio, "Zee.in", "Late", stop, start));
    let blank = omega::xmltv::XmltvProgramme::from_programme(&programme(ProviderKind::Jio, "Zee.in", "  ", start, stop));
    let channels = vec![omega::xmltv::XmltvChannel::new("Zee.in", "Zee")];
    let good_again = omega::xmltv::XmltvProgramme::from_programme(&programme(ProviderKind::Jio, "Zee.in", "News", start, stop));
    let all = build_xmltv_string(&channels, &vec![good, backwards, blank], "omega", 330).unwrap();
    let shown = build_xmltv_string(&channels, &vec![good_again], "omega", 330).unwrap();
    assert_eq!(all, shown);
    assert_eq!(all.matches("<programme ").count(), 1);
    assert_eq!(all.matches("<channel ").count(), 1);
}

#[test]
fn playlist_text_of_unified_rows() {
    assert_eq!(omega::pipeline::unified_playlist_text(&vec![]), None);
    let rows = vec![obj(vec![("url", text(" http://b ")), ("display_name", text("B"))])];
    let t = omega::pipeline::unified_playlist_text(&rows).unwrap();
    assert_eq!(t, build_m3u(&unified_playlist(&rows)));
    assert!(t.starts_with("#EXTM3U\n"));
    assert!(t.contains("\nhttp://b\n"));
}

#[test]
fn guide_files_of_exported_rows() {
    let start = ts(2026, 1, 1, 0, 0);
    let stop = ts(2026, 1, 1, 1, 0);
    let programmes = vec![
        programme(ProviderKind::Jio, "144", "Morning News", start, stop),
        programme(ProviderKind::Jio, "999", "Elsewhere", start, stop),
    ];
    let channel_rows = vec![obj(vec![("tvg_id", text("ZeeNews.in")), ("display_name", text("Zee News"))])];
    let map_rows = vec![obj(vec![("source_channel_id", text("144")), ("tvg_id", text("ZeeNews.in"))])];
    assert!(omega::pipeline::xmltv_guide_files(&vec![], &map_rows, &programmes).is_none());
    assert!(omega::pipeline::xmltv_guide_files(&channel_rows, &map_rows, &vec![]).is_none());
    let files = omega::pipeline::xmltv_guide_files(&channel_rows, &map_rows, &programmes).unwrap();
    assert!(files.xml.contains("<channel id=\"ZeeNews.in\">"));
    assert!(files.xml.contains("channel=\"ZeeNews.in\""));
    assert!(files.xml.contains("Morning News"));
    assert!(!files.xml.contains("Elsewhere"));
    assert!(files.xml.contains("generator-info-name=\"omega-iptv-rust\""));
    let mut unpacked = Vec::new();
    flate2::read::GzDecoder::new(&files.gzip[..]).read_to_end(&mut unpacked).unwrap();
    assert_eq!(unpacked, files.xml.as_bytes());
}

#[test]
fn taken_targets_are_not_offered_again() {
    let targets = vec![Channel::new(ProviderKind::IptvOrg, "a", "A"), Channel::new(ProviderKind::IptvOrg, "b", "B")];
    let mut used: Vec<String> = Vec::new();
    omega::pipeline::mark_target_used(&mut used, &s("a"));
    omega::pipeline::mark_target_used(&mut used, &s("a"));
    assert_eq!(used, vec![s("a")]);
    let left = unused_targets(&targets, &used);
    assert_eq!(left.len(), 1);
    assert_eq!(left[0].id, "b");
}

#[test]
fn chrono_range_of_instants() {
    assert!(Timestamp::from_parts(8_210_266_876_799, 0).is_some());
    assert!(Timestamp::from_parts(8_210_266_876_800, 0).is_none());
    assert!(Timestamp::from_parts(-8_334_601_228_800, 0).is_some());
    assert!(Timestamp::from_parts(-8_334_601_228_801, 0).is_none());
    assert!(Timestamp::from_parts(59, 1_500_000_000).is_some());
    assert!(Timestamp::from_parts(58, 1_500_000_000).is_none());
    assert!(Timestamp::from_parts(59, 2_000_000_000).is_none());
}

#[test]
fn circuit_breaker_reopens_from_half_open() {
    let mut cb = omega::circuit_breaker::CircuitBreaker::new(2, std::time::Duration::from_secs(0));
    cb.record_failure();
    assert_eq!(cb.state(), omega::circuit_breaker::CircuitState::Closed);
    cb.record_failure();
    assert_eq!(cb.state(), omega::circuit_breaker::CircuitState::Open);
    assert!(cb.allow_request_after(true));
    assert_eq!(cb.state(), omega::circuit_breaker::CircuitState::HalfOpen);
    cb.record_failure();
    assert_eq!(cb.state(), omega::circuit_breaker::CircuitState::Open);
    cb.record_success();
    assert_eq!(cb.state(), omega::circuit_breaker::CircuitState::Closed);
}
