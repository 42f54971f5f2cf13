use chrono::{TimeZone, Utc};

use omega::alias::{AliasEngine, AliasMatch};
use omega::channel::{Channel, Programme};
use omega::circuit_breaker::{CircuitBreaker, CircuitState};
use omega::clean::{
    clean_name, compact_name, infer_quality_from_name, meaningful_token_count, normalize_quality,
    token_set,
};
use omega::config::OmegaConfig;
use omega::http::HttpClientFactory;
use omega::iptv_org::{clean_stream_url, parse_iptv_org_m3u};
use omega::jio::{map_category, map_lang, normalize_jio_channel, JioRawChannel};
use omega::json::{i64_to_string, parse_i64, u64_to_string, value_to_bool, value_to_i64, value_to_string, JsonValue};
use omega::matching::{confidence_to_str, decision_to_str, Confidence, MatchDecision};
use omega::playlist::{build_entry, build_m3u, escape_attr, extract_attr, extract_label, parse_m3u, Playlist, PlaylistEntry};
use omega::provider::{provider_kind_from_str, ProviderInfo, ProviderKind};
use omega::retry::{after_failure, retry_delay_ms, RetryAction, RetryPolicy};
use omega::time::{format_xmltv_time, Timestamp};
use omega::xmltv::{build_xmltv_string, esc, XmltvChannel, XmltvProgramme};

fn ts(y: i32, mo: u32, d: u32, h: u32, mi: u32, s: u32) -> Timestamp {
    let dt = Utc.with_ymd_and_hms(y, mo, d, h, mi, s).unwrap();
    Timestamp::from_parts(dt.timestamp(), 0).unwrap()
}

fn s(text: &str) -> String {
    text.to_string()
}

fn obj(members: Vec<(&str, JsonValue)>) -> JsonValue {
    JsonValue::Object(members.into_iter().map(|(k, v)| (k.to_string(), v)).collect())
}

fn text(value: &str) -> JsonValue {
    JsonValue::Str(value.to_string())
}

#[test]
fn parses_m3u_entry() {
    let input = r#"#EXTM3U
#EXTINF:-1 tvg-id="ZeeNews.in" tvg-name="Zee News" tvg-logo="https://example.com/logo.png" group-title="News (IN)",Zee News
https://example.com/zee-news.m3u8
"#;

    let entries = parse_m3u(input);

    assert_eq!(entries.len(), 1);
    assert_eq!(entries[0].tvg_id.as_deref(), Some("ZeeNews.in"));
    assert_eq!(entries[0].tvg_name.as_deref(), Some("Zee News"));
    assert_eq!(entries[0].group.as_deref(), Some("News (IN)"));
    assert_eq!(entries[0].genre(), "News");
    assert_eq!(entries[0].country(), "in");
}

#[test]
fn formats_india_time() {
    let dt = Utc.with_ymd_and_hms(2026, 1, 1, 0, 0, 0).unwrap();
    let value = Timestamp::from_parts(dt.timestamp(), 0).unwrap();

    let formatted = format_xmltv_time(&value, 330);

    assert_eq!(formatted, "20260101053000 +0530");
}

#[test]
fn formats_time_outside_offset_range_in_utc() {
    let value = ts(2026, 1, 1, 0, 0, 0);
    assert_eq!(format_xmltv_time(&value, 0), "20260101000000 +0000");
    assert_eq!(format_xmltv_time(&value, 24 * 60), "20260101000000 +0000");
    assert_eq!(format_xmltv_time(&value, -60), "20251231230000 -0100");
}

#[test]
fn parses_entry_label_and_fallbacks() {
    let input = "#EXTM3U\n  #EXTINF:-1 tvg-id=\"\" group-title=\"Movies|Hindi\",  Some Movie  \n  http://x/y.m3u8  \nhttp://orphan\n#EXTINF:-1,\nnot-a-url\n";
    let entries = parse_m3u(input);
    assert_eq!(entries.len(), 1);
    assert_eq!(entries[0].tvg_id, None);
    assert_eq!(entries[0].label.as_deref(), Some("Some Movie"));
    assert_eq!(entries[0].name, "Some Movie");
    assert_eq!(entries[0].url, "http://x/y.m3u8");
    assert_eq!(entries[0].genre(), "Movies");
    assert_eq!(entries[0].country(), "unknown");
}

#[test]
fn extracts_attributes_and_labels() {
    let line = "#EXTINF:-1 tvg-id=\" Abc.in \" tvg-logo=\"\",First, Second ";
    assert_eq!(extract_attr(line, "tvg-id").as_deref(), Some("Abc.in"));
    assert_eq!(extract_attr(line, "tvg-logo"), None);
    assert_eq!(extract_attr(line, "group-title"), None);
    assert_eq!(extract_label(line).as_deref(), Some("Second"));
    assert_eq!(extract_label("#EXTINF:-1 no comma"), None);
}

#[test]
fn builds_m3u_with_escaped_attributes() {
    let mut playlist = Playlist::new("omega");
    assert!(playlist.is_empty());
    playlist.push(PlaylistEntry {
        tvg_id: Some(s("A&B.in")),
        tvg_name: None,
        name: s("A & B"),
        label: None,
        group: None,
        logo: Some(s("http://l/\"x\".png")),
        url: s("http://stream/a"),
        raw_extinf: s(""),
    });
    assert_eq!(playlist.len(), 1);
    let text = build_m3u(&playlist);
    assert_eq!(
        text,
        "#EXTM3U\n#EXTINF:-1 tvg-id=\"A&amp;B.in\" tvg-name=\"A &amp; B\" tvg-logo=\"http://l/&quot;x&quot;.png\" group-title=\"General\",A & B\nhttp://stream/a\n"
    );
    assert_eq!(build_entry(&playlist.entries[0]), text["#EXTM3U\n".len()..].to_string());
    assert_eq!(escape_attr("<a href=\"x\">&</a>"), "&lt;a href=&quot;x&quot;&gt;&amp;&lt;/a&gt;");
}

#[test]
fn genre_and_country_of_groups() {
    let mut e = PlaylistEntry {
        tvg_id: None,
        tvg_name: None,
        name: s("x"),
        label: None,
        group: Some(s(" Sports (IN) | Cricket")),
        logo: None,
        url: s("http://x"),
        raw_extinf: s(""),
    };
    assert_eq!(e.genre(), "Sports");
    assert_eq!(e.country(), "in");
    e.group = Some(s("(UK)"));
    assert_eq!(e.genre(), "General");
    assert_eq!(e.country(), "uk");
    e.group = None;
    assert_eq!(e.genre(), "General");
    assert_eq!(e.country(), "unknown");
    e.group = Some(s("Kids ( )"));
    assert_eq!(e.country(), "unknown");
}

#[test]
fn cleans_channel_names() {
    assert_eq!(clean_name("Zee News HD"), "zee news");
    assert_eq!(clean_name("Star Sports 1 (Hindi)"), "star sports 1");
    assert_eq!(clean_name("&TV HD"), "andtv");
    assert_eq!(clean_name("Colors+ 4K"), "colors plus");
    assert_eq!(clean_name("ZeeTV@HD"), "zeetv");
    assert_eq!(clean_name("India TV Live"), "");
    assert_eq!(compact_name("Zee News HD"), "zeenews");
    assert_eq!(compact_name("Sony SAB [Backup]"), "sonysab");
}

#[test]
fn token_sets_and_counts() {
    assert_eq!(token_set("Zee News News HD"), vec![s("zee"), s("news")]);
    assert_eq!(meaningful_token_count("Zee News News HD"), 2);
    assert_eq!(meaningful_token_count("HD Live TV"), 0);
}

#[test]
fn quality_labels() {
    assert_eq!(normalize_quality(Some(" 4k UHD ")).as_deref(), Some("4K"));
    assert_eq!(normalize_quality(Some("Full HD")).as_deref(), Some("HD"));
    assert_eq!(normalize_quality(Some("sd")).as_deref(), Some("SD"));
    assert_eq!(normalize_quality(Some("other")), None);
    assert_eq!(normalize_quality(None), None);
    assert_eq!(infer_quality_from_name("Star Plus HD").as_deref(), Some("HD"));
    assert_eq!(infer_quality_from_name("Star Plus"), None);
}

#[test]
fn alias_engine_resolves_and_matches() {
    let mut engine = AliasEngine::new();
    assert_eq!(engine.resolve("Zee News HD").as_deref(), Some("ZeeNews.in"));
    assert_eq!(engine.resolve("zee-news").as_deref(), Some("ZeeNews.in"));
    assert_eq!(engine.resolve("Unknown Channel"), None);
    assert_eq!(engine.alias_match("Zee News", "Zee News HD"), AliasMatch::SameCanonical);
    assert_eq!(engine.alias_match("Zee TV", "ZeeTV.in"), AliasMatch::SameCanonical);
    assert_eq!(engine.alias_match("Zee TV", "Sony"), AliasMatch::NoMatch);
    engine.insert("Sony Max", "SonyMax.in");
    assert_eq!(engine.resolve("SONY MAX").as_deref(), Some("SonyMax.in"));
    engine.insert("Sony Max", "SonyMax2.in");
    assert_eq!(engine.resolve("Sony Max").as_deref(), Some("SonyMax2.in"));
    engine.insert("Star Gold", "StarGoldHD.in");
    assert_eq!(engine.alias_match("Star Gold", "StarGoldHD"), AliasMatch::CanonicalMatchesName);
    assert_eq!(engine.alias_match("StarGoldHD", "Star Gold"), AliasMatch::CanonicalMatchesName);
}

#[test]
fn circuit_breaker_opens_and_recovers() {
    let mut breaker = CircuitBreaker::new(2, std::time::Duration::from_secs(3600));
    assert_eq!(breaker.state(), CircuitState::Closed);
    assert!(breaker.allow_request());
    breaker.record_failure();
    assert_eq!(breaker.state(), CircuitState::Closed);
    assert_eq!(breaker.failures(), 1);
    breaker.record_failure();
    assert_eq!(breaker.state(), CircuitState::Open);
    assert!(!breaker.allow_request());
    assert!(breaker.allow_request_after(true));
    assert_eq!(breaker.state(), CircuitState::HalfOpen);
    breaker.record_success();
    assert_eq!(breaker.state(), CircuitState::Closed);
    assert_eq!(breaker.failures(), 0);
}

#[test]
fn retry_delays_double_up_to_the_cap() {
    let policy = RetryPolicy::default();
    assert_eq!(policy.attempts, 3);
    assert_eq!(retry_delay_ms(&policy, 0), 500);
    assert_eq!(retry_delay_ms(&policy, 1), 1000);
    assert_eq!(retry_delay_ms(&policy, 3), 4000);
    assert_eq!(retry_delay_ms(&policy, 4), 5000);
    assert_eq!(retry_delay_ms(&policy, 200), 5000);
    assert_eq!(after_failure(&policy, 0), RetryAction::SleepThenRetry(500));
    assert_eq!(after_failure(&policy, 1), RetryAction::SleepThenRetry(1000));
    assert_eq!(after_failure(&policy, 2), RetryAction::GiveUp);
}

#[test]
fn provider_names() {
    assert_eq!(ProviderKind::Jio.as_str(), "jio");
    assert_eq!(ProviderKind::IptvOrg.as_str(), "iptv_org");
    assert_eq!(provider_kind_from_str("zee5"), ProviderKind::Zee5);
    assert_eq!(provider_kind_from_str("sonyliv"), ProviderKind::SonyLiv);
    assert_eq!(provider_kind_from_str("sony_liv"), ProviderKind::Unknown);
    assert_eq!(provider_kind_from_str("other"), ProviderKind::Unknown);
    let info = ProviderInfo::new(ProviderKind::Jio, "JioTV");
    assert_eq!(info.kind, ProviderKind::Jio);
    assert_eq!(info.name, "JioTV");
    assert_eq!(decision_to_str(&MatchDecision::NeedsReview), "review");
    assert_eq!(confidence_to_str(&Confidence::High), "High");
}

#[test]
fn default_configuration() {
    let config = OmegaConfig::default();
    assert_eq!(config.environment, "development");
    assert_eq!(config.database.url, "sqlite://omega.db");
    assert_eq!(config.http.timeout_seconds, 20);
    assert!(config.providers.jio_enabled);
    let factory = HttpClientFactory::new(30, "agent/1.0");
    assert_eq!(factory.timeout_seconds(), 30);
    assert_eq!(factory.user_agent(), "agent/1.0");
}

#[test]
fn reads_integers_and_flags() {
    assert_eq!(parse_i64("-42"), Some(-42));
    assert_eq!(parse_i64("+7"), Some(7));
    assert_eq!(parse_i64("9223372036854775807"), Some(i64::MAX));
    assert_eq!(parse_i64("9223372036854775808"), None);
    assert_eq!(parse_i64("-9223372036854775808"), Some(i64::MIN));
    assert_eq!(parse_i64(" 1"), None);
    assert_eq!(parse_i64("-"), None);
    assert_eq!(i64_to_string(-120), "-120");
    assert_eq!(i64_to_string(i64::MIN), "-9223372036854775808");
    assert_eq!(u64_to_string(u64::MAX), "18446744073709551615");
    assert_eq!(value_to_i64(&text("15")), Some(15));
    assert_eq!(value_to_i64(&JsonValue::Int(3)), Some(3));
    assert_eq!(value_to_i64(&JsonValue::Bool(true)), None);
    assert!(value_to_bool(&text(" YES ")));
    assert!(value_to_bool(&JsonValue::Int(2)));
    assert!(!value_to_bool(&text("no")));
    assert!(!value_to_bool(&JsonValue::Null));
    assert_eq!(value_to_string(&JsonValue::Int(-5)).as_deref(), Some("-5"));
    assert_eq!(value_to_string(&JsonValue::UInt(u64::MAX)).as_deref(), Some("18446744073709551615"));
    assert_eq!(value_to_string(&text("  ")), None);
}

#[test]
fn jio_lookup_tables() {
    assert_eq!(map_lang(Some(1)), "Hindi");
    assert_eq!(map_lang(Some(6)), "English");
    assert_eq!(map_lang(Some(99)), "Unknown");
    assert_eq!(map_lang(None), "Unknown");
    assert_eq!(map_category(Some(16)), "Business");
    assert_eq!(map_category(Some(1)), "Other");
}

fn jio_raw(id: JsonValue, name: Option<&str>) -> JioRawChannel {
    JioRawChannel {
        channel_id: id,
        channel_name: name.map(|n| n.to_string()),
        channel_order: JsonValue::Null,
        channel_language_id: JsonValue::Int(1),
        channel_category_id: text("6"),
        broadcaster_id: JsonValue::Null,
        is_hd: JsonValue::Bool(true),
        logo_url: Some(s("Zee_News.png")),
        is_premium: text("yes"),
        is_catchup_available: JsonValue::Int(0),
        stb_catchup: JsonValue::Null,
        business_type: None,
        plan_type: None,
        channel_price: JsonValue::Null,
        is_hidden: JsonValue::Bool(false),
        is_fast: JsonValue::Null,
        extra: obj(vec![("extraKey", JsonValue::Int(1))]),
    }
}

#[test]
fn normalizes_jio_channels() {
    let raw = jio_raw(JsonValue::Int(144), Some("Zee News"));
    let channel = normalize_jio_channel(&raw).unwrap();
    assert_eq!(channel.provider, ProviderKind::Jio);
    assert_eq!(channel.id, "144");
    assert_eq!(channel.name, "Zee News");
    assert_eq!(channel.language.as_deref(), Some("Hindi"));
    assert_eq!(channel.category.as_deref(), Some("Movies"));
    assert_eq!(channel.group.as_deref(), Some("Movies"));
    assert_eq!(channel.quality.as_deref(), Some("HD"));
    assert_eq!(
        channel.logo.as_deref(),
        Some("https://jiotvimages.cdn.jio.com/dare_images/images/Zee_News.png")
    );
    assert!(channel.premium);
    assert!(!channel.catchup);
    assert!(!channel.hidden);
    assert_eq!(channel.raw.get("channel_id").and_then(|v| v.as_i64()), Some(144));
    assert_eq!(channel.raw.get("extraKey").and_then(|v| v.as_i64()), Some(1));
    assert_eq!(channel.display_key(), "jio:144");

    assert!(normalize_jio_channel(&jio_raw(JsonValue::Null, Some("X"))).is_none());
    assert!(normalize_jio_channel(&jio_raw(JsonValue::Int(1), Some("  "))).is_none());
    assert!(normalize_jio_channel(&jio_raw(JsonValue::Int(1), None)).is_none());
}

#[test]
fn parses_iptv_org_playlists() {
    let input = "#EXTM3U\n#EXTINF:-1 tvg-id=\"ZeeNews.in@HD\" tvg-logo=\"http://l.png\" group-title=\"News\",Zee News HD\nhttp://a.b/c?x=1&amp;y=2 \n#EXTINF:-1,Plain\nhttps://plain/stream\n";
    let channels = parse_iptv_org_m3u(input);
    assert_eq!(channels.len(), 2);
    assert_eq!(channels[0].provider, ProviderKind::IptvOrg);
    assert_eq!(channels[0].id, "ZeeNews.in@HD");
    assert_eq!(channels[0].name, "Zee News HD");
    assert_eq!(channels[0].group.as_deref(), Some("News"));
    assert_eq!(channels[0].category.as_deref(), Some("News"));
    assert_eq!(channels[0].stream_url.as_deref(), Some("http://a.b/c?x=1&y=2"));
    assert_eq!(channels[1].id, "Plain");
    assert_eq!(channels[1].tvg_id, None);
    assert_eq!(clean_stream_url(" a&lt;b&gt;&quot;c&quot; "), "a<b>\"c\"");
}

#[test]
fn escapes_xml_text() {
    assert_eq!(esc("<a & 'b'> \"c\""), "&lt;a &amp; &apos;b&apos;&gt; &quot;c&quot;");
    assert_eq!(esc("&amp;"), "&amp;amp;");
}

fn programme(channel: &str, title: &str, start: Timestamp, stop: Timestamp) -> Programme {
    Programme {
        provider: ProviderKind::Jio,
        channel_id: s(channel),
        programme_id: None,
        title: s(title),
        subtitle: None,
        description: None,
        start,
        stop,
        categories: Vec::new(),
        genres: Vec::new(),
        language: None,
        image: None,
        actors: Vec::new(),
        directors: Vec::new(),
        rating_system: None,
        rating_value: None,
        is_repeat: false,
        is_live: false,
        catchup: false,
        raw: JsonValue::Null,
    }
}

#[test]
fn builds_xmltv_documents() {
    let mut channel = XmltvChannel::new("Zee.in", "Zee & Co");
    channel.icon = Some(s("http://i.png"));
    let start = ts(2026, 1, 1, 0, 0, 0);
    let stop = ts(2026, 1, 1, 1, 0, 0);
    let mut p = programme("Zee.in", "Morning <Show>", start, stop);
    p.subtitle = Some(s("Episode 1"));
    p.categories = vec![s("News")];
    p.genres = vec![s("News"), s("Talk")];
    p.actors = vec![s("A")];
    p.rating_value = Some(s("U"));
    p.is_repeat = true;
    let xp = XmltvProgramme::from_programme(&p);
    assert_eq!(xp.categories, vec![s("News"), s("Talk")]);
    assert!(xp.previously_shown);
    let backwards = XmltvProgramme::from_programme(&programme("Zee.in", "Late", stop, start));
    let xml = build_xmltv_string(&vec![channel], &vec![xp, backwards], "omega", 330).unwrap();
    let expected = [
        "<?xml version=\"1.0\" encoding=\"UTF-8\"?>\n",
        "<tv generator-info-name=\"omega\">\n",
        "  <channel id=\"Zee.in\">\n",
        "    <display-name>Zee &amp; Co</display-name>\n",
        "    <icon src=\"http://i.png\"/>\n",
        "  </channel>\n",
        "  <programme start=\"20260101053000 +0530\" stop=\"20260101063000 +0530\" channel=\"Zee.in\">\n",
        "    <title>Morning &lt;Show&gt;</title>\n",
        "    <sub-title>Episode 1</sub-title>\n",
        "    <category>News</category>\n",
        "    <category>Talk</category>\n",
        "    <credits>\n",
        "      <actor>A</actor>\n",
        "    </credits>\n",
        "    <rating system=\"unknown\"><value>U</value></rating>\n",
        "    <previously-shown/>\n",
        "  </programme>\n",
        "</tv>\n",
    ]
    .concat();
    assert_eq!(xml, expected);
}

#[test]
fn xmltv_channels_from_channels() {
    let mut c = Channel::new(ProviderKind::IptvOrg, "Zee.in", "Zee");
    c.tvg_name = Some(s("Zee TV"));
    c.logo = Some(s("http://logo"));
    let x = XmltvChannel::from_channel(&c);
    assert_eq!(x.id, "Zee.in");
    assert_eq!(x.display_names, vec![s("Zee"), s("Zee TV")]);
    assert_eq!(x.icon.as_deref(), Some("http://logo"));
    c.tvg_name = Some(s("Zee"));
    assert_eq!(XmltvChannel::from_channel(&c).display_names, vec![s("Zee")]);
}

#[test]
fn timestamps_and_durations() {
    let a = Timestamp::from_millis(1_700_000_000_123).unwrap();
    assert_eq!(a.secs(), 1_700_000_000);
    assert_eq!(a.nanos(), 123_000_000);
    let b = Timestamp::from_millis(-1).unwrap();
    assert_eq!(b.secs(), -1);
    assert_eq!(b.nanos(), 999_000_000);
    assert!(b.before(&a));
    assert!(Timestamp::from_millis(i64::MAX).is_none());
    let c = Timestamp::parse_rfc3339("2026-01-01T05:30:00+05:30").unwrap();
    assert!(c.same(&ts(2026, 1, 1, 0, 0, 0)));
    assert_eq!(c.to_rfc3339(), "2026-01-01T00:00:00+00:00");
    assert!(Timestamp::parse_rfc3339("yesterday").is_none());
    let p = programme("1", "T", ts(2026, 1, 1, 0, 0, 0), ts(2026, 1, 1, 0, 30, 0));
    assert_eq!(p.duration_seconds(), 1800);
    assert!(p.is_valid());
    let q = programme("", "T", ts(2026, 1, 1, 0, 0, 0), ts(2026, 1, 1, 0, 30, 0));
    assert!(!q.is_valid());
    let half = Timestamp::from_millis(-1500).unwrap();
    let zero = Timestamp::from_millis(0).unwrap();
    assert_eq!(zero.seconds_until(&half), -1);
}
