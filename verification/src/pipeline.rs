//! The decisions of the build pipeline: which exported rows become playlist
//! entries, XMLTV channels and programmes, which channels get their guide
//! fetched, and whether the written artifacts look right.
use vstd::prelude::*;

use crate::channel::{channel_same, Channel, Programme};
use crate::fields::str_at;
use crate::json::{as_i64_spec, get_spec, JsonValue};
use crate::playlist::{or_else, unwrap_or, EntryView, Playlist, PlaylistEntry, entry_views, lemma_entry_views_push};
use crate::text::{
    append_str, chars_of, contains, contains_string, opt_view, starts_with, string_of,
    string_views, trim, trim_chars, upper_chars, uppercase,
};
use crate::clean::contains_str;
use crate::gzip::{gzip_best, gzip_best_stream};
use crate::playlist::{build_m3u, m3u_text};
use crate::xmltv::{
    build_xmltv_string, programme_views, xmltv_spec, XmltvChannel, XmltvChannelView, XmltvProgramme,
    XmltvProgrammeView,
};

verus! {

// ------------------------------------------------------------------
// Reading exported rows
// ------------------------------------------------------------------

/// The string under `key`, trimmed, where that leaves something.
pub open spec fn row_text(row: JsonValue, key: Seq<char>) -> Option<Seq<char>> {
    match str_at(row, key) {
        Some(s) => if trim(s).len() > 0 {
            Some(trim(s))
        } else {
            None
        },
        None => None,
    }
}

/// The string under `key`, trimmed, where that leaves something.
pub fn json_string(row: &JsonValue, key: &str) -> (res: Option<String>)
    ensures
        opt_view(res) == row_text(*row, key@),
{
    match row.get(key) {
        Some(v) => match v.as_str() {
            Some(s) => {
                let c = chars_of(s.as_str());
                let t = trim_chars(&c);
                if t.len() > 0 {
                    Some(string_of(&t))
                } else {
                    None
                }
            },
            None => None,
        },
        None => None,
    }
}

fn or_text(a: Option<String>, b: Option<String>) -> (res: Option<String>)
    ensures
        opt_view(res) == or_else(opt_view(a), opt_view(b)),
{
    match a {
        Some(x) => Some(x),
        None => b,
    }
}

fn text_or(a: Option<String>, d: &str) -> (res: String)
    ensures
        res@ == unwrap_or(opt_view(a), d@),
{
    match a {
        Some(x) => x,
        None => String::from_str(d),
    }
}

// ------------------------------------------------------------------
// Playlist entries from unified channel rows
// ------------------------------------------------------------------

/// The entry name of a unified row: its display name, else its canonical
/// name, else "Unknown Channel".
pub open spec fn unified_name(row: JsonValue) -> Seq<char> {
    unwrap_or(or_else(row_text(row, "display_name"@), row_text(row, "canonical_name"@)), "Unknown Channel"@)
}

/// The group title of a unified row: its group (else category, else
/// "General") and its country in upper case (else "IN") in brackets.
pub open spec fn unified_group(row: JsonValue) -> Seq<char> {
    unwrap_or(or_else(row_text(row, "group"@), row_text(row, "category"@)), "General"@) + " ("@
        + uppercase(unwrap_or(row_text(row, "country"@), "IN"@)) + ")"@
}

/// The `#EXTINF` line recorded with the entry.
pub open spec fn unified_extinf(row: JsonValue) -> Seq<char> {
    "#EXTINF:-1 tvg-id=\""@ + unwrap_or(row_text(row, "tvg_id"@), ""@) + "\" tvg-name=\""@
        + unified_name(row) + "\" tvg-logo=\""@ + unwrap_or(row_text(row, "logo"@), ""@)
        + "\" group-title=\""@ + unified_group(row) + "\","@ + unified_name(row)
}

/// The playlist entry of a unified channel row, where it has a URL.
pub open spec fn unified_entry(row: JsonValue) -> Option<EntryView> {
    match row_text(row, "url"@) {
        Some(url) => Some(
            EntryView {
                tvg_id: row_text(row, "tvg_id"@),
                tvg_name: Some(unified_name(row)),
                name: unified_name(row),
                label: None,
                group: Some(unified_group(row)),
                logo: row_text(row, "logo"@),
                url: url,
                raw_extinf: unified_extinf(row),
            },
        ),
        None => None,
    }
}

/// The entries of the rows that have one, in order.
pub open spec fn unified_entries(rows: Seq<JsonValue>) -> Seq<EntryView>
    decreases rows.len(),
{
    if rows.len() == 0 {
        seq![]
    } else {
        let r = unified_entries(rows.drop_last());
        match unified_entry(rows.last()) {
            Some(e) => r.push(e),
            None => r,
        }
    }
}

/// The playlist entry of a unified channel row, or `None` where it has no
/// URL.
pub fn entry_from_unified(row: &JsonValue) -> (res: Option<PlaylistEntry>)
    ensures
        match res {
            Some(e) => unified_entry(*row) == Some(e@),
            None => unified_entry(*row) is None,
        },
{
    let name = text_or(
        or_text(json_string(row, "display_name"), json_string(row, "canonical_name")),
        "Unknown Channel",
    );
    let url = match json_string(row, "url") {
        Some(u) => u,
        None => return None,
    };
    let uc = chars_of(url.as_str());
    let ut = trim_chars(&uc);
    proof {
        crate::text::lemma_trim_idempotent(str_at(*row, "url"@)->0);
    }
    if ut.len() == 0 {
        return None;
    }
    let tvg_id = json_string(row, "tvg_id");
    let logo = json_string(row, "logo");
    let group_name = text_or(
        or_text(json_string(row, "group"), json_string(row, "category")),
        "General",
    );
    let country = text_or(json_string(row, "country"), "IN");
    let cc = chars_of(country.as_str());
    let cu = upper_chars(&cc);
    let mut g = chars_of(group_name.as_str());
    append_str(&mut g, " (");
    crate::text::append_chars(&mut g, &cu);
    append_str(&mut g, ")");
    let group = string_of(&g);
    let mut x = chars_of("#EXTINF:-1 tvg-id=\"");
    match &tvg_id {
        Some(t) => append_str(&mut x, t.as_str()),
        None => append_str(&mut x, ""),
    }
    append_str(&mut x, "\" tvg-name=\"");
    append_str(&mut x, name.as_str());
    append_str(&mut x, "\" tvg-logo=\"");
    match &logo {
        Some(l) => append_str(&mut x, l.as_str()),
        None => append_str(&mut x, ""),
    }
    append_str(&mut x, "\" group-title=\"");
    append_str(&mut x, group.as_str());
    append_str(&mut x, "\",");
    append_str(&mut x, name.as_str());
    let raw_extinf = string_of(&x);
    Some(
        PlaylistEntry {
            tvg_id,
            tvg_name: Some(name.clone()),
            name,
            label: None,
            group: Some(group),
            logo,
            url,
            raw_extinf,
        },
    )
}

/// The "omega" playlist of the unified channel rows: one entry for each
/// row that has a URL, in order.
pub fn unified_playlist(rows: &Vec<JsonValue>) -> (res: Playlist)
    ensures
        res.name@ == "omega"@,
        entry_views(res.entries@) == unified_entries(rows@),
{
    let mut playlist = Playlist::new("omega");
    let mut i: usize = 0;
    assert(rows@.take(0) =~= Seq::<JsonValue>::empty());
    assert(entry_views(playlist.entries@) =~= Seq::<EntryView>::empty());
    while i < rows.len()
        invariant
            i <= rows.len(),
            playlist.name@ == "omega"@,
            entry_views(playlist.entries@) == unified_entries(rows@.take(i as int)),
        decreases rows.len() - i,
    {
        assert(rows@.take(i + 1).drop_last() =~= rows@.take(i as int));
        assert(rows@.take(i + 1).last() == rows@[i as int]);
        match entry_from_unified(&rows[i]) {
            Some(e) => {
                proof {
                    lemma_entry_views_push(playlist.entries@, e);
                }
                playlist.push(e);
            },
            None => {},
        }
        i = i + 1;
    }
    assert(rows@.take(i as int) =~= rows@);
    playlist
}

// ------------------------------------------------------------------
// XMLTV from exported rows
// ------------------------------------------------------------------

/// A list of key-value pairs read as a map; a later pair for a key wins,
/// as repeated inserts into a map do.
pub open spec fn pairs_map(ps: Seq<(Seq<char>, Seq<char>)>) -> Map<Seq<char>, Seq<char>>
    decreases ps.len(),
{
    if ps.len() == 0 {
        Map::empty()
    } else {
        pairs_map(ps.drop_last()).insert(ps.last().0, ps.last().1)
    }
}

pub open spec fn pair_views(v: Seq<(String, String)>) -> Seq<(Seq<char>, Seq<char>)> {
    v.map_values(|p: (String, String)| (p.0@, p.1@))
}

/// The pair of a channel-map row: its source channel id and its tvg id,
/// where it has both.
pub open spec fn map_row(row: JsonValue) -> Option<(Seq<char>, Seq<char>)> {
    match (row_text(row, "source_channel_id"@), row_text(row, "tvg_id"@)) {
        (Some(s), Some(t)) => Some((s, t)),
        _ => None,
    }
}

pub open spec fn map_rows(rows: Seq<JsonValue>) -> Seq<(Seq<char>, Seq<char>)>
    decreases rows.len(),
{
    if rows.len() == 0 {
        seq![]
    } else {
        let r = map_rows(rows.drop_last());
        match map_row(rows.last()) {
            Some(p) => r.push(p),
            None => r,
        }
    }
}

/// The pairs (source channel id, tvg id) of the channel-map rows that have
/// both; read with `pairs_map`, a later row for a source id wins.
pub fn channel_map_pairs(rows: &Vec<JsonValue>) -> (res: Vec<(String, String)>)
    ensures
        pair_views(res@) == map_rows(rows@),
{
    let mut out: Vec<(String, String)> = Vec::new();
    let mut i: usize = 0;
    assert(rows@.take(0) =~= Seq::<JsonValue>::empty());
    assert(pair_views(out@) =~= Seq::<(Seq<char>, Seq<char>)>::empty());
    while i < rows.len()
        invariant
            i <= rows.len(),
            pair_views(out@) == map_rows(rows@.take(i as int)),
        decreases rows.len() - i,
    {
        assert(rows@.take(i + 1).drop_last() =~= rows@.take(i as int));
        assert(rows@.take(i + 1).last() == rows@[i as int]);
        let s = json_string(&rows[i], "source_channel_id");
        let t = json_string(&rows[i], "tvg_id");
        match (s, t) {
            (Some(s), Some(t)) => {
                let ghost before = out@;
                out.push((s, t));
                assert(pair_views(out@) =~= pair_views(before).push((out@.last().0@, out@.last().1@)));
            },
            _ => {},
        }
        i = i + 1;
    }
    assert(rows@.take(i as int) =~= rows@);
    out
}

/// The value that a list of pairs gives `key`: that of the last pair for
/// it.
pub fn lookup_pair(ps: &Vec<(String, String)>, key: &String) -> (res: Option<String>)
    ensures
        match res {
            Some(v) => pairs_map(pair_views(ps@)).dom().contains(key@) && pairs_map(
                pair_views(ps@),
            )[key@] == v@,
            None => !pairs_map(pair_views(ps@)).dom().contains(key@),
        },
{
    let mut j: usize = ps.len();
    while j > 0
        invariant
            j <= ps.len(),
            forall|k: int| j <= k < ps.len() ==> ps@[k].0@ != key@,
        decreases j,
    {
        if ps[j - 1].0 == *key {
            let v = ps[j - 1].1.clone();
            proof {
                lemma_pairs_map_last(pair_views(ps@), key@, j - 1);
            }
            return Some(v);
        }
        j = j - 1;
    }
    proof {
        lemma_pairs_map_absent(pair_views(ps@), key@);
    }
    None
}

proof fn lemma_pairs_map_last(ps: Seq<(Seq<char>, Seq<char>)>, key: Seq<char>, i: int)
    requires
        0 <= i < ps.len(),
        ps[i].0 == key,
        forall|k: int| i < k < ps.len() ==> (#[trigger] ps[k]).0 != key,
    ensures
        pairs_map(ps).dom().contains(key),
        pairs_map(ps)[key] == ps[i].1,
    decreases ps.len(),
{
    if i < ps.len() - 1 {
        lemma_pairs_map_last(ps.drop_last(), key, i);
    }
}

proof fn lemma_pairs_map_absent(ps: Seq<(Seq<char>, Seq<char>)>, key: Seq<char>)
    requires
        forall|k: int| 0 <= k < ps.len() ==> (#[trigger] ps[k]).0 != key,
    ensures
        !pairs_map(ps).dom().contains(key),
    decreases ps.len(),
{
    if ps.len() > 0 {
        lemma_pairs_map_absent(ps.drop_last(), key);
    }
}

/// The XMLTV channel of an exported channel row: its tvg id, its display
/// name (else the tvg id) and its logo, where it has a tvg id.
pub open spec fn row_channel(row: JsonValue) -> Option<XmltvChannelView> {
    match row_text(row, "tvg_id"@) {
        Some(t) => Some(
            XmltvChannelView {
                id: t,
                display_names: seq![unwrap_or(row_text(row, "display_name"@), t)],
                icon: row_text(row, "logo"@),
            },
        ),
        None => None,
    }
}

pub open spec fn row_channels(rows: Seq<JsonValue>) -> Seq<XmltvChannelView>
    decreases rows.len(),
{
    if rows.len() == 0 {
        seq![]
    } else {
        let r = row_channels(rows.drop_last());
        match row_channel(rows.last()) {
            Some(c) => r.push(c),
            None => r,
        }
    }
}

/// The XMLTV channels of the exported channel rows that have a tvg id.
pub fn xmltv_channels_from_rows(rows: &Vec<JsonValue>) -> (res: Vec<XmltvChannel>)
    ensures
        res@.map_values(|c: XmltvChannel| c@) == row_channels(rows@),
{
    let mut out: Vec<XmltvChannel> = Vec::new();
    let mut i: usize = 0;
    assert(rows@.take(0) =~= Seq::<JsonValue>::empty());
    assert(out@.map_values(|c: XmltvChannel| c@) =~= Seq::<XmltvChannelView>::empty());
    while i < rows.len()
        invariant
            i <= rows.len(),
            out@.map_values(|c: XmltvChannel| c@) == row_channels(rows@.take(i as int)),
        decreases rows.len() - i,
    {
        assert(rows@.take(i + 1).drop_last() =~= rows@.take(i as int));
        assert(rows@.take(i + 1).last() == rows@[i as int]);
        match json_string(&rows[i], "tvg_id") {
            Some(t) => {
                let name = match json_string(&rows[i], "display_name") {
                    Some(n) => n,
                    None => t.clone(),
                };
                let mut c = XmltvChannel::new(t.as_str(), name.as_str());
                c.icon = json_string(&rows[i], "logo");
                let ghost before = out@;
                out.push(c);
                assert(out@.map_values(|c: XmltvChannel| c@) =~= before.map_values(
                    |c: XmltvChannel| c@,
                ).push(out@.last()@));
            },
            None => {},
        }
        i = i + 1;
    }
    assert(rows@.take(i as int) =~= rows@);
    out
}

/// The XMLTV programme of a programme, with the channel given by `tvg`.
pub open spec fn mapped_programme(x: XmltvProgrammeView, p: Programme, tvg: Seq<char>) -> bool {
    &&& x.channel_id == tvg
    &&& x.start == p.start@
    &&& x.stop == p.stop@
    &&& x.title == p.title@
    &&& x.subtitle == opt_view(p.subtitle)
    &&& x.description == opt_view(p.description)
    &&& x.categories == crate::text::push_new(string_views(p.categories@), string_views(p.genres@))
    &&& x.icon == opt_view(p.image)
    &&& x.actors == string_views(p.actors@)
    &&& x.directors == string_views(p.directors@)
    &&& x.rating_system == opt_view(p.rating_system)
    &&& x.rating_value == opt_view(p.rating_value)
    &&& x.previously_shown == p.is_repeat
}

/// The positions of the programmes whose channel the map knows.
pub open spec fn mapped_positions(ps: Seq<Programme>, m: Map<Seq<char>, Seq<char>>) -> Seq<int>
    decreases ps.len(),
{
    if ps.len() == 0 {
        seq![]
    } else {
        let r = mapped_positions(ps.drop_last(), m);
        if m.dom().contains(ps.last().channel_id@) {
            r.push(ps.len() - 1)
        } else {
            r
        }
    }
}

proof fn lemma_mapped_positions_bound(ps: Seq<Programme>, m: Map<Seq<char>, Seq<char>>)
    ensures
        forall|k: int|
            0 <= k < mapped_positions(ps, m).len() ==> 0 <= #[trigger] mapped_positions(ps, m)[k]
                < ps.len(),
    decreases ps.len(),
{
    if ps.len() > 0 {
        let d = ps.drop_last();
        lemma_mapped_positions_bound(d, m);
        let r = mapped_positions(d, m);
        assert forall|k: int| 0 <= k < mapped_positions(ps, m).len() implies 0
            <= #[trigger] mapped_positions(ps, m)[k] < ps.len() by {
            if k < r.len() {
                assert(mapped_positions(ps, m)[k] == r[k]);
            }
        }
    }
}

/// The XMLTV programmes of the programmes whose channel the map knows, in
/// order, each on the tvg id the map gives its channel.
pub fn map_programmes(programmes: &Vec<Programme>, map: &Vec<(String, String)>) -> (res: Vec<
    XmltvProgramme,
>)
    ensures
        ({
            let m = pairs_map(pair_views(map@));
            let pos = mapped_positions(programmes@, m);
            &&& res@.len() == pos.len()
            &&& forall|k: int|
                0 <= k < res@.len() ==> mapped_programme(
                    #[trigger] res@[k]@,
                    programmes@[pos[k]],
                    m[programmes@[pos[k]].channel_id@],
                )
        }),
{
    let ghost m = pairs_map(pair_views(map@));
    let mut out: Vec<XmltvProgramme> = Vec::new();
    let mut i: usize = 0;
    assert(programmes@.take(0) =~= Seq::<Programme>::empty());
    while i < programmes.len()
        invariant
            i <= programmes.len(),
            m == pairs_map(pair_views(map@)),
            out@.len() == mapped_positions(programmes@.take(i as int), m).len(),
            forall|k: int|
                0 <= k < out@.len() ==> mapped_programme(
                    #[trigger] out@[k]@,
                    programmes@[mapped_positions(programmes@.take(i as int), m)[k]],
                    m[programmes@[mapped_positions(programmes@.take(i as int), m)[k]].channel_id@],
                ),
        decreases programmes.len() - i,
    {
        let ghost prev = mapped_positions(programmes@.take(i as int), m);
        proof {
            assert(programmes@.take(i + 1).drop_last() =~= programmes@.take(i as int));
            assert(programmes@.take(i + 1).last() == programmes@[i as int]);
            lemma_mapped_positions_bound(programmes@.take(i as int), m);
        }
        match lookup_pair(map, &programmes[i].channel_id) {
            Some(tvg) => {
                let mut x = XmltvProgramme::from_programme(&programmes[i]);
                x.channel_id = tvg;
                out.push(x);
                proof {
                    let now = mapped_positions(programmes@.take(i + 1), m);
                    assert(now == prev.push(i as int));
                    assert forall|k: int| 0 <= k < out@.len() implies mapped_programme(
                        #[trigger] out@[k]@,
                        programmes@[now[k]],
                        m[programmes@[now[k]].channel_id@],
                    ) by {
                        if k < prev.len() {
                            assert(now[k] == prev[k]);
                            assert(prev[k] < i);
                        }
                    }
                }
            },
            None => {},
        }
        i = i + 1;
    }
    assert(programmes@.take(i as int) =~= programmes@);
    out
}

/// The XMLTV programmes of a guide: one for each programme whose channel
/// the map knows, in order, each on the tvg id the map gives its channel.
pub open spec fn guide_programmes(
    xs: Seq<XmltvProgrammeView>,
    ps: Seq<Programme>,
    m: Map<Seq<char>, Seq<char>>,
) -> bool {
    let pos = mapped_positions(ps, m);
    &&& xs.len() == pos.len()
    &&& forall|k: int|
        0 <= k < xs.len() ==> mapped_programme(
            #[trigger] xs[k],
            ps[pos[k]],
            m[ps[pos[k]].channel_id@],
        )
}

/// The two guide files that the XMLTV pipeline writes.
pub struct GuideFiles {
    /// The XMLTV document.
    pub xml: String,
    /// The document's UTF-8 bytes as a gzip stream.
    pub gzip: Vec<u8>,
}

/// The guide files of the exported rows: `None` where there are no channel
/// rows or no programmes (nothing is written then); else the XMLTV document
/// of the channels of the rows with a tvg id and of the programmes the map
/// places, generated by "omega-iptv-rust" in the +05:30 offset, and that
/// document's bytes compressed.
pub fn xmltv_guide_files(
    channel_rows: &Vec<JsonValue>,
    map_table: &Vec<JsonValue>,
    programmes: &Vec<Programme>,
) -> (res: Option<GuideFiles>)
    ensures
        res is None <==> (channel_rows@.len() == 0 || programmes@.len() == 0),
        res matches Some(f) ==> exists|xs: Seq<XmltvProgrammeView>|
            guide_programmes(xs, programmes@, pairs_map(map_rows(map_table@))) && f.xml@
                == xmltv_spec(row_channels(channel_rows@), xs, "omega-iptv-rust"@, 330),
        res matches Some(f) ==> f.gzip@ == gzip_best_stream(vstd::utf8::encode_utf8(f.xml@)),
{
    if channel_rows.len() == 0 || programmes.len() == 0 {
        return None;
    }
    let pairs = channel_map_pairs(map_table);
    let channels = xmltv_channels_from_rows(channel_rows);
    let progs = map_programmes(programmes, &pairs);
    let ghost xs = programme_views(progs@);
    assert(guide_programmes(xs, programmes@, pairs_map(map_rows(map_table@)))) by {
        let m = pairs_map(pair_views(pairs@));
        let pos = mapped_positions(programmes@, m);
        assert forall|k: int| 0 <= k < xs.len() implies mapped_programme(
            #[trigger] xs[k],
            programmes@[pos[k]],
            m[programmes@[pos[k]].channel_id@],
        ) by {
            assert(xs[k] == progs@[k]@);
        }
    }
    assert(crate::xmltv::channel_views(channels@) == row_channels(channel_rows@));
    match build_xmltv_string(&channels, &progs, "omega-iptv-rust", 330) {
        Ok(xml) => {
            let gzip = gzip_best(xml.as_str().as_bytes());
            Some(GuideFiles { xml, gzip })
        },
        Err(_) => {
            assert(false);
            None
        },
    }
}

/// The text of the omega playlist of the unified channel rows: `None` where
/// there are no rows (nothing is written then); else the M3U text of one
/// entry for each row with a URL, in order.
pub fn unified_playlist_text(rows: &Vec<JsonValue>) -> (res: Option<String>)
    ensures
        res is None <==> rows@.len() == 0,
        res matches Some(t) ==> t@ == m3u_text(unified_entries(rows@)),
{
    if rows.len() == 0 {
        return None;
    }
    let playlist = unified_playlist(rows);
    Some(build_m3u(&playlist))
}

// ------------------------------------------------------------------
// Choosing channels
// ------------------------------------------------------------------

/// The channels that are not hidden, in order.
pub open spec fn visible(cs: Seq<Channel>) -> Seq<Channel>
    decreases cs.len(),
{
    if cs.len() == 0 {
        seq![]
    } else {
        let r = visible(cs.drop_last());
        if cs.last().hidden {
            r
        } else {
            r.push(cs.last())
        }
    }
}

/// The channels whose guide is fetched: those that are not hidden, the
/// first `limit` of them where a limit is given.
pub fn select_epg_channels(channels: Vec<Channel>, limit: Option<usize>) -> (res: Vec<Channel>)
    ensures
        res@ == match limit {
            Some(n) => if n < visible(channels@).len() {
                visible(channels@).take(n as int)
            } else {
                visible(channels@)
            },
            None => visible(channels@),
        },
{
    let ghost all = channels@;
    let mut rest = channels;
    let mut out: Vec<Channel> = Vec::new();
    let ghost mut n: int = 0;
    proof {
        assert(all.skip(0) =~= all);
        assert(all.take(0) =~= Seq::<Channel>::empty());
    }
    while rest.len() > 0
        invariant
            0 <= n <= all.len(),
            rest@ == all.skip(n),
            out@ == visible(all.take(n)),
        decreases rest.len(),
    {
        let c = rest.remove(0);
        proof {
            assert(c == all[n]);
            assert(rest@ =~= all.skip(n + 1));
            assert(all.take(n + 1).drop_last() =~= all.take(n));
            assert(all.take(n + 1).last() == c);
        }
        if !c.hidden {
            out.push(c);
        }
        proof {
            n = n + 1;
        }
    }
    proof {
        assert(all.take(n) =~= all);
    }
    match limit {
        Some(l) => {
            if l < out.len() {
                out.truncate(l);
            }
        },
        None => {},
    }
    out
}

/// The targets whose id is not among `used`, in order.
pub open spec fn unused(targets: Seq<Channel>, used: Seq<Seq<char>>) -> Seq<Channel>
    decreases targets.len(),
{
    if targets.len() == 0 {
        seq![]
    } else {
        let r = unused(targets.drop_last(), used);
        if used.contains(targets.last().id@) {
            r
        } else {
            r.push(targets.last())
        }
    }
}

/// The used target ids after a confident match took `id`: it joins them
/// once.
pub open spec fn mark_used(used: Seq<Seq<char>>, id: Seq<char>) -> Seq<Seq<char>> {
    if used.contains(id) {
        used
    } else {
        used.push(id)
    }
}

/// Records that a confident match took the target `target_id`.
pub fn mark_target_used(used: &mut Vec<String>, target_id: &String)
    ensures
        string_views(final(used)@) == mark_used(string_views(old(used)@), target_id@),
{
    if !contains_string(used, target_id) {
        let ghost before = string_views(used@);
        used.push(target_id.clone());
        assert(string_views(used@) =~= before.push(target_id@));
    }
}

proof fn lemma_unused_ids(targets: Seq<Channel>, used: Seq<Seq<char>>)
    ensures
        forall|k: int|
            0 <= k < unused(targets, used).len() ==> !used.contains(
                #[trigger] unused(targets, used)[k].id@,
            ),
        unused(targets, used).len() <= targets.len(),
    decreases targets.len(),
{
    if targets.len() > 0 {
        lemma_unused_ids(targets.drop_last(), used);
    }
}

/// Once a match has taken a target, no later source is offered it again,
/// nor any target taken before it.
pub proof fn law_taken_target_not_offered(targets: Seq<Channel>, used: Seq<Seq<char>>, id: Seq<char>)
    ensures
        forall|k: int|
            0 <= k < unused(targets, mark_used(used, id)).len() ==> (#[trigger] unused(
                targets,
                mark_used(used, id),
            )[k]).id@ != id,
        forall|k: int|
            0 <= k < unused(targets, mark_used(used, id)).len() ==> !used.contains(
                #[trigger] unused(targets, mark_used(used, id))[k].id@,
            ),
{
    let m = mark_used(used, id);
    lemma_unused_ids(targets, m);
    assert forall|k: int| 0 <= k < unused(targets, m).len() implies (#[trigger] unused(targets, m)[k]).id@
        != id && !used.contains(unused(targets, m)[k].id@) by {
        let x = unused(targets, m)[k].id@;
        assert(!m.contains(x));
        if !used.contains(id) {
            assert(m[m.len() - 1] == id);
            if used.contains(x) {
                let j = choose|j: int| 0 <= j < used.len() && used[j] == x;
                assert(m[j] == x);
            }
        }
    }
}

/// Copies of the targets that no earlier match has taken.
pub fn unused_targets(targets: &Vec<Channel>, used: &Vec<String>) -> (res: Vec<Channel>)
    ensures
        res@.len() == unused(targets@, string_views(used@)).len(),
        forall|k: int|
            0 <= k < res@.len() ==> channel_same(
                #[trigger] res@[k],
                unused(targets@, string_views(used@))[k],
            ),
{
    let ghost u = string_views(used@);
    let mut out: Vec<Channel> = Vec::new();
    let mut i: usize = 0;
    assert(targets@.take(0) =~= Seq::<Channel>::empty());
    while i < targets.len()
        invariant
            i <= targets.len(),
            u == string_views(used@),
            out@.len() == unused(targets@.take(i as int), u).len(),
            forall|k: int|
                0 <= k < out@.len() ==> channel_same(
                    #[trigger] out@[k],
                    unused(targets@.take(i as int), u)[k],
                ),
        decreases targets.len() - i,
    {
        let ghost prev = unused(targets@.take(i as int), u);
        assert(targets@.take(i + 1).drop_last() =~= targets@.take(i as int));
        assert(targets@.take(i + 1).last() == targets@[i as int]);
        if !contains_string(used, &targets[i].id) {
            let c = targets[i].duplicate();
            out.push(c);
            proof {
                let now = unused(targets@.take(i + 1), u);
                assert(now == prev.push(targets@[i as int]));
                assert forall|k: int| 0 <= k < out@.len() implies channel_same(
                    #[trigger] out@[k],
                    now[k],
                ) by {
                    if k < prev.len() {
                        assert(now[k] == prev[k]);
                    }
                }
            }
        }
        i = i + 1;
    }
    assert(targets@.take(i as int) =~= targets@);
    out
}

/// A provider channel as it is read back from storage: an IPTV-org
/// channel carries its id and name as its tvg id and tvg name; any other
/// channel is kept as it is.
pub fn restore_stored_channel(channel: Channel) -> (res: Channel)
    ensures
        channel.provider == crate::provider::ProviderKind::IptvOrg ==> {
            &&& opt_view(res.tvg_id) == Some(channel.id@)
            &&& opt_view(res.tvg_name) == Some(channel.name@)
            &&& res == (Channel { tvg_id: res.tvg_id, tvg_name: res.tvg_name, ..channel })
        },
        channel.provider != crate::provider::ProviderKind::IptvOrg ==> res == channel,
{
    let mut c = channel;
    match c.provider {
        crate::provider::ProviderKind::IptvOrg => {
            c.tvg_id = Some(c.id.clone());
            c.tvg_name = Some(c.name.clone());
        },
        _ => {},
    }
    c
}

/// The JioTV language id used to ask for a channel's guide: the integer
/// under `channel_language_id` in its record, else 6.
pub fn jio_epg_lang_id(channel: &Channel) -> (res: i64)
    ensures
        res == match get_spec(channel.raw, "channel_language_id"@) {
            Some(v) => match as_i64_spec(v) {
                Some(n) => n,
                None => 6,
            },
            None => 6,
        },
{
    match channel.raw.get("channel_language_id") {
        Some(v) => match v.as_i64() {
            Some(n) => n,
            None => 6,
        },
        None => 6,
    }
}

/// The programme records of a JioTV guide reply: its `epg` list, else its
/// `result` list, else none.
pub fn jio_epg_items(epg: Option<Vec<JsonValue>>, result: Option<Vec<JsonValue>>) -> (res: Vec<
    JsonValue,
>)
    ensures
        res@ == match epg {
            Some(e) => e@,
            None => match result {
                Some(r) => r@,
                None => seq![],
            },
        },
{
    match epg {
        Some(e) => e,
        None => match result {
            Some(r) => r,
            None => Vec::new(),
        },
    }
}

// ------------------------------------------------------------------
// Checking the artifacts
// ------------------------------------------------------------------

/// What is wrong with a written artifact.
#[derive(PartialEq, Eq, Structural, Clone, Copy, Debug)]
pub enum OutputProblem {
    /// The file is empty.
    EmptyFile,
    /// A JSON artifact is not an array.
    NotArray,
    /// A JSON artifact is an empty array.
    EmptyArray,
    /// The playlist does not start with `#EXTM3U`.
    NoPlaylistHeader,
    /// The playlist has no `#EXTINF` entry.
    NoPlaylistEntries,
    /// The guide does not start with an XML declaration.
    NoXmlDeclaration,
    /// The guide starts with an escaped XML declaration.
    EscapedXmlDeclaration,
    /// The guide has no `tv` element.
    NoTvElement,
    /// The guide has no `channel` element.
    NoChannelElement,
    /// The guide has no `programme` element.
    NoProgrammeElement,
    /// The guide holds escaped `programme` tags.
    EscapedProgramme,
}

/// A written artifact must not be empty.
pub fn check_output_size(bytes: u64) -> (res: Result<(), OutputProblem>)
    ensures
        res == if bytes == 0 {
            Err::<(), OutputProblem>(OutputProblem::EmptyFile)
        } else {
            Ok(())
        },
{
    if bytes == 0 {
        Err(OutputProblem::EmptyFile)
    } else {
        Ok(())
    }
}

/// A JSON artifact must be a nonempty array.
pub fn check_json_array(value: &JsonValue) -> (res: Result<(), OutputProblem>)
    ensures
        res == match *value {
            JsonValue::Array(a) => if a@.len() == 0 {
                Err::<(), OutputProblem>(OutputProblem::EmptyArray)
            } else {
                Ok(())
            },
            _ => Err(OutputProblem::NotArray),
        },
{
    match value.as_array() {
        Some(a) => if a.len() == 0 {
            Err(OutputProblem::EmptyArray)
        } else {
            Ok(())
        },
        None => Err(OutputProblem::NotArray),
    }
}

/// What the playlist check finds.
pub open spec fn playlist_check(text: Seq<char>) -> Result<(), OutputProblem> {
    if !starts_with(text, "#EXTM3U"@) {
        Err(OutputProblem::NoPlaylistHeader)
    } else if !contains(text, "#EXTINF"@) {
        Err(OutputProblem::NoPlaylistEntries)
    } else {
        Ok(())
    }
}

/// The playlist must start with `#EXTM3U` and hold an `#EXTINF` entry.
pub fn check_playlist_text(text: &str) -> (res: Result<(), OutputProblem>)
    ensures
        res == playlist_check(text@),
{
    let t = chars_of(text);
    let head = chars_of("#EXTM3U");
    if !crate::text::starts_with_exec(&t, &head) {
        return Err(OutputProblem::NoPlaylistHeader);
    }
    if !contains_str(&t, "#EXTINF") {
        return Err(OutputProblem::NoPlaylistEntries);
    }
    Ok(())
}

/// A playlist that `build_m3u` writes passes the playlist check once it
/// has an entry: it starts with `#EXTM3U` and holds `#EXTINF`.
pub proof fn law_built_playlist_passes_check(entries: Seq<EntryView>)
    requires
        entries.len() > 0,
    ensures
        playlist_check(crate::playlist::m3u_text(entries)) == Ok::<(), OutputProblem>(()),
{
    reveal_strlit("#EXTM3U\n");
    reveal_strlit("#EXTM3U");
    reveal_strlit("#EXTINF");
    reveal_strlit("#EXTINF:-1 tvg-id=\"");
    let t = crate::playlist::m3u_text(entries);
    let first = crate::playlist::entry_text(entries[0]);
    assert(crate::playlist::entries_text(entries) == first + crate::playlist::entries_text(
        entries.drop_first(),
    ));
    let lit = "#EXTINF:-1 tvg-id=\""@;
    assert(first.len() >= lit.len());
    assert forall|k: int| 0 <= k < lit.len() implies first[k] == lit[k] by {}
    assert(t.subrange(0, 7) =~= "#EXTM3U"@);
    assert(t.subrange(8, 15) =~= "#EXTINF"@);
    assert(crate::text::matches_at(t, 8, "#EXTINF"@));
}

/// What the guide check finds.
pub open spec fn xmltv_check(text: Seq<char>) -> Result<(), OutputProblem> {
    if !starts_with(text, "<?xml"@) {
        Err(OutputProblem::NoXmlDeclaration)
    } else if starts_with(text, "&lt;?xml"@) {
        Err(OutputProblem::EscapedXmlDeclaration)
    } else if !contains(text, "<tv"@) {
        Err(OutputProblem::NoTvElement)
    } else if !contains(text, "<channel"@) {
        Err(OutputProblem::NoChannelElement)
    } else if !contains(text, "<programme"@) {
        Err(OutputProblem::NoProgrammeElement)
    } else if contains(text, "&lt;programme"@) {
        Err(OutputProblem::EscapedProgramme)
    } else {
        Ok(())
    }
}

/// The guide must start with a real XML declaration and hold real `tv`,
/// `channel` and `programme` elements, and no escaped ones.
pub fn check_xmltv_text(text: &str) -> (res: Result<(), OutputProblem>)
    ensures
        res == xmltv_check(text@),
{
    let t = chars_of(text);
    let decl = chars_of("<?xml");
    let escaped_decl = chars_of("&lt;?xml");
    if !crate::text::starts_with_exec(&t, &decl) {
        return Err(OutputProblem::NoXmlDeclaration);
    }
    if crate::text::starts_with_exec(&t, &escaped_decl) {
        return Err(OutputProblem::EscapedXmlDeclaration);
    }
    if !contains_str(&t, "<tv") {
        return Err(OutputProblem::NoTvElement);
    }
    if !contains_str(&t, "<channel") {
        return Err(OutputProblem::NoChannelElement);
    }
    if !contains_str(&t, "<programme") {
        return Err(OutputProblem::NoProgrammeElement);
    }
    if contains_str(&t, "&lt;programme") {
        return Err(OutputProblem::EscapedProgramme);
    }
    Ok(())
}

} // verus!
