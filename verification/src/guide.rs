//! An XMLTV guide on IPTV-org tvg ids: provider programmes put on the tvg
//! ids their channels were matched to, each showing once, with the IPTV-org
//! channels they use.
use vstd::prelude::*;

use crate::channel::{Channel, Programme};
use crate::clean::{compact_name, compact_spec};
use crate::index::{law_lex_transitive, law_lex_trichotomy, lex_lt, lex_lt_exec};
use crate::pipeline::{lookup_pair, mapped_programme, pair_views, pairs_map};
use crate::playlist::{clone_opt, unwrap_or};
use crate::provider::ProviderKind;
use crate::schedule::{sort_by_start, sorted_by_start, starting_at, Timed};
use crate::text::{
    append_str, chars_of, contains_string, lemma_string_views_push, opt_view, push_new, string_of,
    string_views,
};
use crate::time::{rfc3339_text, Timestamp};
use crate::xmltv::{XmltvChannel, XmltvChannelView, XmltvProgramme};

verus! {

impl Timed for XmltvProgramme {
    open spec fn start_key(&self) -> (int, int) {
        self.start@
    }

    fn start_time(&self) -> (res: Timestamp) {
        self.start
    }
}

/// The tvg id a programme's channel was matched to: through the JioTV map
/// for JioTV programmes, the ZEE5 map for ZEE5 ones, none for others.
pub open spec fn programme_tvg(
    p: Programme,
    jio: Map<Seq<char>, Seq<char>>,
    zee5: Map<Seq<char>, Seq<char>>,
) -> Option<Seq<char>> {
    match p.provider {
        ProviderKind::Jio => if jio.dom().contains(p.channel_id@) {
            Some(jio[p.channel_id@])
        } else {
            None
        },
        ProviderKind::Zee5 => if zee5.dom().contains(p.channel_id@) {
            Some(zee5[p.channel_id@])
        } else {
            None
        },
        _ => None,
    }
}

/// What makes two showings the same: the tvg id, the start and stop in
/// RFC 3339 and the compact title, joined by `|`.
pub open spec fn showing_key(tvg: Seq<char>, p: Programme) -> Seq<char> {
    tvg + "|"@ + rfc3339_text(p.start@.0, p.start@.1) + "|"@ + rfc3339_text(p.stop@.0, p.stop@.1)
        + "|"@ + compact_spec(p.title@)
}

pub open spec fn pick_keys(picks: Seq<(int, Seq<char>)>, ps: Seq<Programme>) -> Seq<Seq<char>> {
    picks.map_values(|x: (int, Seq<char>)| showing_key(x.1, ps[x.0]))
}

/// The programmes that go into the guide, as position and tvg id: each one
/// that has a tvg id and whose showing no earlier pick has.
pub open spec fn guide_picks(
    ps: Seq<Programme>,
    jio: Map<Seq<char>, Seq<char>>,
    zee5: Map<Seq<char>, Seq<char>>,
) -> Seq<(int, Seq<char>)>
    decreases ps.len(),
{
    if ps.len() == 0 {
        seq![]
    } else {
        let r = guide_picks(ps.drop_last(), jio, zee5);
        match programme_tvg(ps.last(), jio, zee5) {
            Some(t) => if pick_keys(r, ps).contains(showing_key(t, ps.last())) {
                r
            } else {
                r.push((ps.len() - 1, t))
            },
            None => r,
        }
    }
}

/// The tvg ids the picks use, each once, in order of first use.
pub open spec fn used_tvgs(picks: Seq<(int, Seq<char>)>) -> Seq<Seq<char>> {
    push_new(seq![], picks.map_values(|x: (int, Seq<char>)| x.1))
}

/// The IPTV-org channel of an id: the last one with that id.
pub open spec fn iptv_lookup(cs: Seq<Channel>, id: Seq<char>) -> Option<Channel>
    decreases cs.len(),
{
    if cs.len() == 0 {
        None
    } else if cs.last().id@ == id {
        Some(cs.last())
    } else {
        iptv_lookup(cs.drop_last(), id)
    }
}

/// The guide channel of an IPTV-org channel on a tvg id: its tvg name (else
/// its name) and its logo.
pub open spec fn guide_channel(c: Channel, tvg: Seq<char>) -> XmltvChannelView {
    XmltvChannelView {
        id: tvg,
        display_names: seq![unwrap_or(opt_view(c.tvg_name), c.name@)],
        icon: opt_view(c.logo),
    }
}

/// The guide channels: one for each used tvg id that an IPTV-org channel
/// has, in order of the id.
pub open spec fn guide_channels_ok(
    chs: Seq<XmltvChannelView>,
    used: Seq<Seq<char>>,
    iptv: Seq<Channel>,
) -> bool {
    &&& forall|i: int, j: int| 0 <= i < j < chs.len() ==> lex_lt(#[trigger] chs[i].id, #[trigger] chs[j].id)
    &&& forall|i: int|
        0 <= i < chs.len() ==> used.contains((#[trigger] chs[i]).id) && iptv_lookup(
            iptv,
            chs[i].id,
        ) is Some && chs[i] == guide_channel(iptv_lookup(iptv, chs[i].id)->0, chs[i].id)
    &&& forall|t: Seq<char>|
        used.contains(t) && #[trigger] iptv_lookup(iptv, t) is Some ==> exists|i: int|
            0 <= i < chs.len() && (#[trigger] chs[i]).id == t
}

/// The guide programmes before ordering: each pick's programme on its tvg
/// id.
pub open spec fn guide_programmes_ok(
    got: Seq<XmltvProgramme>,
    picks: Seq<(int, Seq<char>)>,
    ps: Seq<Programme>,
) -> bool {
    &&& got.len() == picks.len()
    &&& forall|k: int| 0 <= k < got.len() ==> mapped_programme(#[trigger] got[k]@, ps[picks[k].0], picks[k].1)
}

fn programme_tvg_exec(
    p: &Programme,
    jio: &Vec<(String, String)>,
    zee5: &Vec<(String, String)>,
) -> (res: Option<String>)
    ensures
        opt_view(res) == programme_tvg(*p, pairs_map(pair_views(jio@)), pairs_map(pair_views(zee5@))),
{
    match p.provider {
        ProviderKind::Jio => lookup_pair(jio, &p.channel_id),
        ProviderKind::Zee5 => lookup_pair(zee5, &p.channel_id),
        _ => None,
    }
}

fn showing_key_exec(tvg: &String, p: &Programme) -> (res: String)
    ensures
        res@ == showing_key(tvg@, *p),
{
    let mut out = chars_of(tvg.as_str());
    append_str(&mut out, "|");
    let a = p.start.to_rfc3339();
    append_str(&mut out, a.as_str());
    append_str(&mut out, "|");
    let b = p.stop.to_rfc3339();
    append_str(&mut out, b.as_str());
    append_str(&mut out, "|");
    let c = compact_name(p.title.as_str());
    append_str(&mut out, c.as_str());
    string_of(&out)
}

fn iptv_lookup_exec(cs: &Vec<Channel>, id: &String) -> (res: Option<usize>)
    ensures
        match res {
            Some(i) => i < cs@.len() && iptv_lookup(cs@, id@) == Some(cs@[i as int]),
            None => iptv_lookup(cs@, id@) is None,
        },
{
    let mut j: usize = cs.len();
    assert(cs@.take(j as int) =~= cs@);
    while j > 0
        invariant
            j <= cs.len(),
            iptv_lookup(cs@, id@) == iptv_lookup(cs@.take(j as int), id@),
        decreases j,
    {
        assert(cs@.take(j as int).last() == cs@[j - 1]);
        assert(cs@.take(j as int).drop_last() =~= cs@.take(j - 1));
        if cs[j - 1].id == *id {
            return Some(j - 1);
        }
        j = j - 1;
    }
    None
}

proof fn lemma_push_new_distinct(acc: Seq<Seq<char>>, items: Seq<Seq<char>>)
    requires
        acc.no_duplicates(),
    ensures
        push_new(acc, items).no_duplicates(),
    decreases items.len(),
{
    if items.len() > 0 {
        lemma_push_new_distinct(acc, items.drop_last());
        let m = push_new(acc, items.drop_last());
        if !m.contains(items.last()) {
            let r = m.push(items.last());
            assert forall|a: int, b: int| 0 <= a < b < r.len() implies r[a] != r[b] by {
                if b == m.len() {
                    assert(r[a] == m[a]);
                }
            }
        }
    }
}

proof fn lemma_insert_channel(
    before: Seq<XmltvChannelView>,
    p: int,
    newc: XmltvChannelView,
    t: Seq<char>,
    cur: Seq<Seq<char>>,
    iptv: Seq<Channel>,
)
    requires
        guide_channels_ok(before, cur, iptv),
        !cur.contains(t),
        0 <= p <= before.len(),
        forall|k: int| 0 <= k < p ==> lex_lt(#[trigger] before[k].id, t),
        p < before.len() ==> !lex_lt(before[p].id, t),
        iptv_lookup(iptv, t) is Some,
        newc == guide_channel(iptv_lookup(iptv, t)->0, t),
    ensures
        guide_channels_ok(before.insert(p, newc), cur.push(t), iptv),
{
    let after = before.insert(p, newc);
    let nxt = cur.push(t);
    assert forall|k: int| 0 <= k < before.len() implies (#[trigger] before[k]).id != t by {
        assert(cur.contains(before[k].id));
    }
    if p < before.len() {
        law_lex_trichotomy(before[p].id, t);
    }
    assert forall|k: int| 0 <= k < p implies #[trigger] after[k] == before[k] by {}
    assert forall|k: int| p < k < after.len() implies #[trigger] after[k] == before[k - 1] by {}
    assert(after[p] == newc);
    assert forall|a: int, b: int| 0 <= a < b < after.len() implies lex_lt(
        #[trigger] after[a].id,
        #[trigger] after[b].id,
    ) by {
        if b < p {
        } else if b == p {
        } else if a < p {
            assert(after[b] == before[b - 1]);
            if b - 1 > p {
                law_lex_transitive(t, before[p].id, before[b - 1].id);
            }
            law_lex_transitive(before[a].id, t, before[b - 1].id);
        } else if a == p {
            assert(after[b] == before[b - 1]);
            if b - 1 > p {
                law_lex_transitive(t, before[p].id, before[b - 1].id);
            }
        } else {
            assert(after[a] == before[a - 1] && after[b] == before[b - 1]);
        }
    }
    assert forall|k: int| 0 <= k < after.len() implies nxt.contains((#[trigger] after[k]).id)
        && iptv_lookup(iptv, after[k].id) is Some && after[k] == guide_channel(
        iptv_lookup(iptv, after[k].id)->0,
        after[k].id,
    ) by {
        if k < p {
            let m = choose|m: int| 0 <= m < cur.len() && cur[m] == before[k].id;
            assert(nxt[m] == cur[m]);
        } else if k == p {
            assert(nxt[cur.len() as int] == t);
        } else {
            assert(after[k] == before[k - 1]);
            let m = choose|m: int| 0 <= m < cur.len() && cur[m] == before[k - 1].id;
            assert(nxt[m] == cur[m]);
        }
    }
    assert forall|x: Seq<char>|
        nxt.contains(x) && #[trigger] iptv_lookup(iptv, x) is Some implies exists|k: int|
        0 <= k < after.len() && (#[trigger] after[k]).id == x by {
        if x == t {
            assert(after[p].id == t);
        } else {
            let m = choose|m: int| 0 <= m < nxt.len() && nxt[m] == x;
            assert(m < cur.len());
            assert(cur[m] == x);
            assert(cur.contains(x));
            let k = choose|k: int| 0 <= k < before.len() && (#[trigger] before[k]).id == x;
            if k < p {
                assert(after[k].id == x);
            } else {
                assert(after[k + 1] == before[k]);
            }
        }
    }
}

proof fn lemma_skip_channel(before: Seq<XmltvChannelView>, t: Seq<char>, cur: Seq<Seq<char>>, iptv: Seq<Channel>)
    requires
        guide_channels_ok(before, cur, iptv),
        iptv_lookup(iptv, t) is None,
    ensures
        guide_channels_ok(before, cur.push(t), iptv),
{
    let nxt = cur.push(t);
    assert forall|k: int| 0 <= k < before.len() implies nxt.contains((#[trigger] before[k]).id) by {
        let m = choose|m: int| 0 <= m < cur.len() && cur[m] == before[k].id;
        assert(nxt[m] == cur[m]);
    }
    assert forall|x: Seq<char>|
        nxt.contains(x) && #[trigger] iptv_lookup(iptv, x) is Some implies exists|k: int|
        0 <= k < before.len() && (#[trigger] before[k]).id == x by {
        let m = choose|m: int| 0 <= m < nxt.len() && nxt[m] == x;
        if m < cur.len() {
            assert(cur[m] == x);
            assert(cur.contains(x));
        }
    }
}

/// The guide on IPTV-org tvg ids: each programme whose channel a map
/// matched, on that tvg id, once for each showing, in order of start (a
/// stable sort); and the IPTV-org channel of each tvg id used, in order of
/// the id. A later pair of a map wins for its channel id.
#[verifier::rlimit(60)]
pub fn build_guide(
    iptv_channels: &Vec<Channel>,
    programmes: &Vec<Programme>,
    jio_map: &Vec<(String, String)>,
    zee5_map: &Vec<(String, String)>,
) -> (res: (Vec<XmltvChannel>, Vec<XmltvProgramme>))
    ensures
        ({
            let jio = pairs_map(pair_views(jio_map@));
            let zee5 = pairs_map(pair_views(zee5_map@));
            let picks = guide_picks(programmes@, jio, zee5);
            &&& guide_channels_ok(
                res.0@.map_values(|c: XmltvChannel| c@),
                used_tvgs(picks),
                iptv_channels@,
            )
            &&& sorted_by_start(res.1@)
            &&& exists|got: Seq<XmltvProgramme>|
                #[trigger] guide_programmes_ok(got, picks, programmes@) && forall|k: (int, int)|
                    #[trigger] starting_at(res.1@, k) == starting_at(got, k)
        }),
{
    let ghost jio = pairs_map(pair_views(jio_map@));
    let ghost zee5 = pairs_map(pair_views(zee5_map@));
    let ghost ps = programmes@;
    let mut seen: Vec<String> = Vec::new();
    let mut used: Vec<String> = Vec::new();
    let mut got: Vec<XmltvProgramme> = Vec::new();
    let mut i: usize = 0;
    proof {
        assert(ps.take(0) =~= Seq::<Programme>::empty());
        assert(string_views(seen@) =~= Seq::<Seq<char>>::empty());
        assert(string_views(used@) =~= Seq::<Seq<char>>::empty());
    }
    while i < programmes.len()
        invariant
            i <= programmes.len(),
            ps == programmes@,
            jio == pairs_map(pair_views(jio_map@)),
            zee5 == pairs_map(pair_views(zee5_map@)),
            forall|k: int| 0 <= k < guide_picks(ps.take(i as int), jio, zee5).len() ==> 0 <= (
            #[trigger] guide_picks(ps.take(i as int), jio, zee5)[k]).0 < i,
            string_views(seen@) == pick_keys(guide_picks(ps.take(i as int), jio, zee5), ps),
            string_views(used@) == used_tvgs(guide_picks(ps.take(i as int), jio, zee5)),
            guide_programmes_ok(got@, guide_picks(ps.take(i as int), jio, zee5), ps),
        decreases programmes.len() - i,
    {
        let ghost prev = guide_picks(ps.take(i as int), jio, zee5);
        let ghost next_ps = ps.take(i + 1);
        proof {
            assert(next_ps.drop_last() =~= ps.take(i as int));
            assert(next_ps.last() == ps[i as int]);
            assert(pick_keys(prev, next_ps) =~= pick_keys(prev, ps)) by {
                assert forall|k: int| 0 <= k < prev.len() implies #[trigger] next_ps[prev[k].0] == ps[prev[k].0] by {
                }
            }
        }
        let p = &programmes[i];
        match programme_tvg_exec(p, jio_map, zee5_map) {
            Some(tvg) => {
                let key = showing_key_exec(&tvg, p);
                if !contains_string(&seen, &key) {
                    proof {
                        lemma_string_views_push(seen@, key);
                    }
                    seen.push(key);
                    let mut x = XmltvProgramme::from_programme(p);
                    x.channel_id = tvg.clone();
                    got.push(x);
                    let ghost u0 = string_views(used@);
                    if !contains_string(&used, &tvg) {
                        let t2 = tvg.clone();
                        proof {
                            lemma_string_views_push(used@, t2);
                        }
                        used.push(t2);
                    }
                    proof {
                        let now = guide_picks(next_ps, jio, zee5);
                        assert(now == prev.push((i as int, tvg@)));
                        assert(pick_keys(now, ps) =~= pick_keys(prev, ps).push(showing_key(tvg@, ps[i as int])));
                        let tv_prev = prev.map_values(|x: (int, Seq<char>)| x.1);
                        let tv_now = now.map_values(|x: (int, Seq<char>)| x.1);
                        assert(tv_now =~= tv_prev.push(tvg@));
                        assert(tv_now.drop_last() =~= tv_prev);
                        assert(string_views(used@) == used_tvgs(now));
                        assert forall|k: int| 0 <= k < got@.len() implies mapped_programme(
                            #[trigger] got@[k]@,
                            ps[now[k].0],
                            now[k].1,
                        ) by {
                            if k < prev.len() {
                                assert(now[k] == prev[k]);
                            }
                        }
                    }
                } else {
                    proof {
                        assert(guide_picks(next_ps, jio, zee5) == prev);
                    }
                }
            },
            None => {
                proof {
                    assert(guide_picks(next_ps, jio, zee5) == prev);
                }
            },
        }
        i = i + 1;
    }
    proof {
        assert(ps.take(i as int) =~= ps);
    }
    let ghost picks = guide_picks(ps, jio, zee5);
    let ghost uv = string_views(used@);
    proof {
        lemma_push_new_distinct(seq![], picks.map_values(|x: (int, Seq<char>)| x.1));
    }
    // the channels of the used tvg ids, in order of the id
    let mut chans: Vec<XmltvChannel> = Vec::new();
    let mut u: usize = 0;
    while u < used.len()
        invariant
            u <= used.len(),
            uv == string_views(used@),
            uv.no_duplicates(),
            guide_channels_ok(chans@.map_values(|c: XmltvChannel| c@), uv.take(u as int), iptv_channels@),
        decreases used.len() - u,
    {
        let ghost before = chans@.map_values(|c: XmltvChannel| c@);
        let ghost t = uv[u as int];
        proof {
            assert(uv.take(u + 1) =~= uv.take(u as int).push(t));
            assert(used@[u as int]@ == t);
        }
        match iptv_lookup_exec(iptv_channels, &used[u]) {
            Some(ci) => {
                let c = &iptv_channels[ci];
                let name = match &c.tvg_name {
                    Some(n) => n.clone(),
                    None => c.name.clone(),
                };
                let mut xc = XmltvChannel::new(used[u].as_str(), name.as_str());
                xc.icon = clone_opt(&c.logo);
                let tc = chars_of(used[u].as_str());
                let len = chans.len();
                let mut p: usize = 0;
                while p < len
                    invariant
                        p <= len,
                        len == chans.len(),
                        tc@ == t,
                        chans@.map_values(|c: XmltvChannel| c@) == before,
                        forall|k: int| 0 <= k < p ==> lex_lt(#[trigger] before[k].id, t),
                    ensures
                        p <= len,
                        forall|k: int| 0 <= k < p ==> lex_lt(#[trigger] before[k].id, t),
                        p < len ==> !lex_lt(before[p as int].id, t),
                    decreases len - p,
                {
                    let ic = chars_of(chans[p].id.as_str());
                    assert(before[p as int].id == chans@[p as int].id@);
                    if !lex_lt_exec(&ic, &tc) {
                        break;
                    }
                    p = p + 1;
                }
                let ghost old_ch = chans@;
                chans.insert(p, xc);
                proof {
                    assert(chans@.map_values(|c: XmltvChannel| c@) =~= before.insert(p as int, xc@));
                    assert(!uv.take(u as int).contains(t)) by {
                        if uv.take(u as int).contains(t) {
                            let m = choose|m: int| 0 <= m < u && uv.take(u as int)[m] == t;
                            assert(uv[m] == uv[u as int]);
                        }
                    }
                    lemma_insert_channel(before, p as int, xc@, t, uv.take(u as int), iptv_channels@);
                }
            },
            None => {
                proof {
                    lemma_skip_channel(before, t, uv.take(u as int), iptv_channels@);
                }
            },
        }
        u = u + 1;
    }
    proof {
        assert(uv.take(u as int) =~= uv);
    }
    let ghost g = got@;
    let sorted = sort_by_start(got);
    proof {
        assert(guide_programmes_ok(g, picks, programmes@));
    }
    (chans, sorted)
}

} // verus!
