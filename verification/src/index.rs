//! Playlist indexes: entries grouped by genre and by country, in order of
//! the group name, with the file names and index playlists written for
//! them.
use vstd::prelude::*;

use crate::playlist::{country_spec, entry_views, genre_spec, EntryView, Playlist, PlaylistEntry};
use crate::text::{
    append_chars, append_str, chars_of, is_alnum, is_ascii_alnum, join, join_chars, lower_chars,
    lowercase, split, split_chars, starts_with, starts_with_exec, string_of, upper_chars,
    uppercase, views, lemma_views_push,
};

verus! {

// ------------------------------------------------------------------
// The order of names
// ------------------------------------------------------------------

/// The order of strings: by code point, character by character, a prefix
/// first (the order of `String`'s `Ord`, since UTF-8 keeps code-point
/// order).
pub open spec fn lex_lt(a: Seq<char>, b: Seq<char>) -> bool
    decreases a.len(),
{
    if a.len() == 0 {
        b.len() > 0
    } else if b.len() == 0 {
        false
    } else if a[0] != b[0] {
        (a[0] as u32) < (b[0] as u32)
    } else {
        lex_lt(a.drop_first(), b.drop_first())
    }
}

/// Of two strings, one comes first, or they are the same; never both ways.
pub proof fn law_lex_trichotomy(a: Seq<char>, b: Seq<char>)
    ensures
        lex_lt(a, b) || lex_lt(b, a) || a == b,
        !(lex_lt(a, b) && lex_lt(b, a)),
        lex_lt(a, b) ==> a != b,
    decreases a.len(),
{
    if a.len() > 0 && b.len() > 0 && a[0] == b[0] {
        law_lex_trichotomy(a.drop_first(), b.drop_first());
        if a.drop_first() == b.drop_first() {
            assert(a =~= seq![a[0]] + a.drop_first());
            assert(b =~= seq![b[0]] + b.drop_first());
        }
    } else if a.len() == 0 && b.len() == 0 {
        assert(a =~= b);
    } else if a.len() > 0 && b.len() > 0 {
        vstd::utf8::char_u32_cast(a[0], a[0] as u32);
        vstd::utf8::char_u32_cast(b[0], b[0] as u32);
        assert((a[0] as u32) != (b[0] as u32));
    }
}

/// The order of strings is transitive.
pub proof fn law_lex_transitive(a: Seq<char>, b: Seq<char>, c: Seq<char>)
    requires
        lex_lt(a, b),
        lex_lt(b, c),
    ensures
        lex_lt(a, c),
    decreases a.len(),
{
    if a.len() > 0 && b.len() > 0 && c.len() > 0 && a[0] == b[0] && b[0] == c[0] {
        law_lex_transitive(a.drop_first(), b.drop_first(), c.drop_first());
    }
}

pub fn lex_lt_exec(a: &Vec<char>, b: &Vec<char>) -> (r: bool)
    ensures
        r == lex_lt(a@, b@),
{
    let mut i: usize = 0;
    assert(a@.skip(0) =~= a@);
    assert(b@.skip(0) =~= b@);
    while i < a.len() && i < b.len() && a[i] == b[i]
        invariant
            i <= a.len(),
            i <= b.len(),
            lex_lt(a@, b@) == lex_lt(a@.skip(i as int), b@.skip(i as int)),
        decreases a.len() - i,
    {
        assert(a@.skip(i as int).drop_first() =~= a@.skip(i + 1));
        assert(b@.skip(i as int).drop_first() =~= b@.skip(i + 1));
        i = i + 1;
    }
    let ghost x = a@.skip(i as int);
    let ghost y = b@.skip(i as int);
    if i == a.len() {
        assert(x.len() == 0);
        i < b.len()
    } else if i == b.len() {
        assert(y.len() == 0);
        false
    } else {
        assert(x[0] == a@[i as int] && y[0] == b@[i as int]);
        (a[i] as u32) < (b[i] as u32)
    }
}

// ------------------------------------------------------------------
// Buckets
// ------------------------------------------------------------------

/// What entries are grouped by.
#[derive(PartialEq, Eq, Structural, Clone, Copy, Debug)]
pub enum BucketBy {
    Genre,
    Country,
}

/// The group name of an entry.
pub open spec fn bucket_key(by: BucketBy, e: EntryView) -> Seq<char> {
    match by {
        BucketBy::Genre => genre_spec(e.group),
        BucketBy::Country => country_spec(e.group),
    }
}

/// Whether an entry belongs to the group `k`.
pub open spec fn in_bucket(by: BucketBy, k: Seq<char>) -> spec_fn(EntryView) -> bool {
    |e: EntryView| bucket_key(by, e) == k
}

pub open spec fn bucket_views(b: Seq<(String, Vec<PlaylistEntry>)>) -> Seq<(Seq<char>, Seq<EntryView>)> {
    b.map_values(|p: (String, Vec<PlaylistEntry>)| (p.0@, entry_views(p.1@)))
}

/// The groups of `entries`: each group name once, in order of the names,
/// with the entries of that name in their order; every entry is in one.
pub open spec fn buckets_of(b: Seq<(Seq<char>, Seq<EntryView>)>, by: BucketBy, entries: Seq<EntryView>) -> bool {
    &&& forall|i: int, j: int| 0 <= i < j < b.len() ==> lex_lt(#[trigger] b[i].0, #[trigger] b[j].0)
    &&& forall|i: int|
        0 <= i < b.len() ==> (#[trigger] b[i]).1 == entries.filter(in_bucket(by, b[i].0))
    &&& forall|e: int|
        0 <= e < entries.len() ==> exists|i: int|
            0 <= i < b.len() && (#[trigger] b[i]).0 == bucket_key(by, #[trigger] entries[e])
}

fn entry_key(by: BucketBy, e: &PlaylistEntry) -> (res: String)
    ensures
        res@ == bucket_key(by, e@),
{
    match by {
        BucketBy::Genre => e.genre(),
        BucketBy::Country => e.country(),
    }
}

proof fn lemma_filter_none<T>(s: Seq<T>, pred: spec_fn(T) -> bool)
    requires
        forall|k: int| 0 <= k < s.len() ==> !pred(#[trigger] s[k]),
    ensures
        s.filter(pred) == Seq::<T>::empty(),
{
    s.lemma_all_neg_filter_empty(pred);
    assert(s.filter(pred) =~= Seq::<T>::empty());
}

/// The entries grouped by `by`.
#[verifier::rlimit(40)]
pub fn bucket_entries(by: BucketBy, entries: &Vec<PlaylistEntry>) -> (res: Vec<(String, Vec<PlaylistEntry>)>)
    ensures
        buckets_of(bucket_views(res@), by, entry_views(entries@)),
{
    let ghost all = entry_views(entries@);
    let mut out: Vec<(String, Vec<PlaylistEntry>)> = Vec::new();
    let mut n: usize = 0;
    proof {
        assert(all.take(0) =~= Seq::<EntryView>::empty());
    }
    while n < entries.len()
        invariant
            n <= entries.len(),
            all == entry_views(entries@),
            buckets_of(bucket_views(out@), by, all.take(n as int)),
        decreases entries.len() - n,
    {
        let ghost b0 = bucket_views(out@);
        let ghost prefix = all.take(n as int);
        let ghost next = all.take(n + 1);
        let e = entries[n].duplicate();
        let key = entry_key(by, &entries[n]);
        let kc = chars_of(key.as_str());
        proof {
            assert(next =~= prefix.push(e@));
            assert(e@ == all[n as int]);
        }
        let len = out.len();
        let mut p: usize = 0;
        while p < len
            invariant
                p <= len,
                len == out.len(),
                kc@ == key@,
                bucket_views(out@) == b0,
                forall|i: int| 0 <= i < p ==> lex_lt(#[trigger] b0[i].0, key@),
            ensures
                p <= len,
                forall|i: int| 0 <= i < p ==> lex_lt(#[trigger] b0[i].0, key@),
                p < len ==> !lex_lt(b0[p as int].0, key@),
            decreases len - p,
        {
            let bc = chars_of(out[p].0.as_str());
            assert(b0[p as int].0 == out@[p as int].0@);
            if !lex_lt_exec(&bc, &kc) {
                break;
            }
            p = p + 1;
        }
        let found = if p < len {
            let bc = chars_of(out[p].0.as_str());
            crate::text::chars_eq(&bc, &kc)
        } else {
            false
        };
        proof {
            assert(p < len ==> b0[p as int].0 == out@[p as int].0@);
        }
        if found {
            // the entry joins the group at `p`
            let ghost old_out = out@;
            let mut bucket = out.remove(p);
            let ghost ev = entry_views(bucket.1@);
            proof {
                crate::playlist::lemma_entry_views_push(bucket.1@, e);
            }
            bucket.1.push(e);
            out.insert(p, bucket);
            proof {
                let b1 = bucket_views(out@);
                assert(b1.len() == b0.len());
                assert forall|i: int| 0 <= i < b1.len() && i != p implies #[trigger] b1[i] == b0[i] by {
                    assert(out@[i] == old_out[i]);
                }
                assert(b1[p as int].0 == key@);
                assert(b1[p as int].1 == b0[p as int].1.push(e@));
                assert forall|i: int| 0 <= i < b1.len() implies (#[trigger] b1[i]).1 == next.filter(
                    in_bucket(by, b1[i].0),
                ) by {
                    prefix.lemma_filter_push(e@, in_bucket(by, b1[i].0));
                    if i != p {
                        assert(b1[i] == b0[i]);
                        law_lex_trichotomy(b0[i].0, b0[p as int].0);
                    }
                }
                assert forall|i: int, j: int| 0 <= i < j < b1.len() implies lex_lt(
                    #[trigger] b1[i].0,
                    #[trigger] b1[j].0,
                ) by {
                    assert(b1[i].0 == b0[i].0 && b1[j].0 == b0[j].0);
                }
                assert forall|x: int| 0 <= x < next.len() implies exists|i: int|
                    0 <= i < b1.len() && (#[trigger] b1[i]).0 == bucket_key(by, #[trigger] next[x]) by {
                    if x < n {
                        assert(next[x] == prefix[x]);
                        let i = choose|i: int| 0 <= i < b0.len() && (#[trigger] b0[i]).0 == bucket_key(by, prefix[x]);
                        assert(b1[i].0 == b0[i].0);
                    } else {
                        assert(b1[p as int].0 == bucket_key(by, next[x]));
                    }
                }
            }
        } else {
            // a new group at `p`
            let mut v: Vec<PlaylistEntry> = Vec::new();
            proof {
                crate::playlist::lemma_entry_views_push(v@, e);
            }
            v.push(e);
            let ghost old_out = out@;
            out.insert(p, (key, v));
            proof {
                let b1 = bucket_views(out@);
                assert(b1.len() == b0.len() + 1);
                assert forall|i: int| 0 <= i < p implies #[trigger] b1[i] == b0[i] by {
                    assert(out@[i] == old_out[i]);
                }
                assert forall|i: int| p < i < b1.len() implies #[trigger] b1[i] == b0[i - 1] by {
                    assert(out@[i] == old_out[i - 1]);
                }
                assert(b1[p as int].0 == key@);
                assert(b1[p as int].1 == seq![e@]);
                // no earlier entry has this key
                assert forall|k: int| 0 <= k < prefix.len() implies !in_bucket(by, key@)(
                    #[trigger] prefix[k],
                ) by {
                    let i = choose|i: int| 0 <= i < b0.len() && (#[trigger] b0[i]).0 == bucket_key(by, prefix[k]);
                    if bucket_key(by, prefix[k]) == key@ {
                        if i < p {
                            law_lex_trichotomy(b0[i].0, key@);
                        } else if i == p {
                        } else {
                            law_lex_trichotomy(b0[p as int].0, key@);
                            law_lex_trichotomy(b0[p as int].0, b0[i].0);
                        }
                    }
                }
                lemma_filter_none(prefix, in_bucket(by, key@));
                prefix.lemma_filter_push(e@, in_bucket(by, key@));
                assert(next.filter(in_bucket(by, key@)) =~= seq![e@]);
                if p < len {
                    law_lex_trichotomy(b0[p as int].0, key@);
                }
                assert forall|i: int| 0 <= i < b1.len() implies (#[trigger] b1[i]).1 == next.filter(
                    in_bucket(by, b1[i].0),
                ) by {
                    if i != p {
                        prefix.lemma_filter_push(e@, in_bucket(by, b1[i].0));
                        if i < p {
                            assert(b1[i] == b0[i]);
                            law_lex_trichotomy(b0[i].0, key@);
                        } else {
                            assert(b1[i] == b0[i - 1]);
                            law_lex_trichotomy(b0[p as int].0, key@);
                            if i - 1 > p {
                                law_lex_transitive(key@, b0[p as int].0, b0[i - 1].0);
                            }
                            law_lex_trichotomy(key@, b0[i - 1].0);
                        }
                    }
                }
                assert forall|i: int, j: int| 0 <= i < j < b1.len() implies lex_lt(
                    #[trigger] b1[i].0,
                    #[trigger] b1[j].0,
                ) by {
                    if j < p {
                    } else if j == p {
                    } else if i < p {
                        assert(b1[j] == b0[j - 1]);
                        law_lex_trichotomy(b0[p as int].0, key@);
                        if j - 1 > p {
                            law_lex_transitive(key@, b0[p as int].0, b0[j - 1].0);
                        }
                        law_lex_transitive(b0[i].0, key@, b0[j - 1].0);
                    } else if i == p {
                        assert(b1[j] == b0[j - 1]);
                        law_lex_trichotomy(b0[p as int].0, key@);
                        if j - 1 > p {
                            law_lex_transitive(key@, b0[p as int].0, b0[j - 1].0);
                        }
                    } else {
                        assert(b1[i] == b0[i - 1] && b1[j] == b0[j - 1]);
                    }
                }
                assert forall|x: int| 0 <= x < next.len() implies exists|i: int|
                    0 <= i < b1.len() && (#[trigger] b1[i]).0 == bucket_key(by, #[trigger] next[x]) by {
                    if x < n {
                        assert(next[x] == prefix[x]);
                        let i = choose|i: int| 0 <= i < b0.len() && (#[trigger] b0[i]).0 == bucket_key(by, prefix[x]);
                        if i < p {
                            assert(b1[i].0 == b0[i].0);
                        } else {
                            assert(b1[i + 1].0 == b0[i].0);
                        }
                    } else {
                        assert(b1[p as int].0 == bucket_key(by, next[x]));
                    }
                }
            }
        }
        n = n + 1;
    }
    proof {
        assert(all.take(n as int) =~= all);
    }
    out
}

/// The entries grouped by genre, in order of the genre.
pub fn bucket_by_genre(entries: &Vec<PlaylistEntry>) -> (res: Vec<(String, Vec<PlaylistEntry>)>)
    ensures
        buckets_of(bucket_views(res@), BucketBy::Genre, entry_views(entries@)),
{
    bucket_entries(BucketBy::Genre, entries)
}

/// The entries grouped by country, in order of the country.
pub fn bucket_by_country(entries: &Vec<PlaylistEntry>) -> (res: Vec<(String, Vec<PlaylistEntry>)>)
    ensures
        buckets_of(bucket_views(res@), BucketBy::Country, entry_views(entries@)),
{
    bucket_entries(BucketBy::Country, entries)
}

// ------------------------------------------------------------------
// File names and index playlists
// ------------------------------------------------------------------

/// A character of a file name: ASCII letters and digits stay, anything
/// else becomes `_`.
pub open spec fn file_char(c: char) -> char {
    if is_alnum(c) {
        c
    } else {
        '_'
    }
}

/// The parts that are not empty.
pub open spec fn nonempty_parts(ps: Seq<Seq<char>>) -> Seq<Seq<char>>
    decreases ps.len(),
{
    if ps.len() == 0 {
        seq![]
    } else {
        let r = nonempty_parts(ps.drop_last());
        if ps.last().len() > 0 {
            r.push(ps.last())
        } else {
            r
        }
    }
}

/// What `safe_name` returns: the lowercased name with every character but
/// ASCII letters and digits written `_`, runs of `_` made one, and none at
/// either end.
pub open spec fn safe_name_spec(value: Seq<char>) -> Seq<char> {
    join(
        nonempty_parts(split(lowercase(value).map_values(|c: char| file_char(c)), '_')),
        "_"@,
    )
}

/// A name fit for a file: lowercased, with every character but ASCII
/// letters and digits written `_`, runs of `_` made one, none at either end.
pub fn safe_name(value: &str) -> (res: String)
    ensures
        res@ == safe_name_spec(value@),
{
    let v = chars_of(value);
    let low = lower_chars(&v);
    let mut mapped: Vec<char> = Vec::new();
    let mut i: usize = 0;
    while i < low.len()
        invariant
            i <= low.len(),
            mapped@ == low@.take(i as int).map_values(|c: char| file_char(c)),
        decreases low.len() - i,
    {
        let c = low[i];
        if is_ascii_alnum(c) {
            mapped.push(c);
        } else {
            mapped.push('_');
        }
        i = i + 1;
        assert(mapped@ =~= low@.take(i as int).map_values(|c: char| file_char(c)));
    }
    assert(low@.take(i as int) =~= low@);
    let parts = split_chars(&mapped, '_');
    let mut kept: Vec<Vec<char>> = Vec::new();
    let mut j: usize = 0;
    assert(views(parts@).take(0) =~= Seq::<Seq<char>>::empty());
    while j < parts.len()
        invariant
            j <= parts.len(),
            views(kept@) == nonempty_parts(views(parts@).take(j as int)),
        decreases parts.len() - j,
    {
        assert(views(parts@).take(j + 1).drop_last() =~= views(parts@).take(j as int));
        assert(views(parts@).take(j + 1).last() == parts@[j as int]@);
        if parts[j].len() > 0 {
            let x = crate::text::subrange(&parts[j], 0, parts[j].len());
            assert(x@ =~= parts@[j as int]@);
            proof {
                lemma_views_push(kept@, x);
            }
            kept.push(x);
        }
        j = j + 1;
    }
    assert(views(parts@).take(j as int) =~= views(parts@));
    let sep = chars_of("_");
    let joined = join_chars(&kept, &sep);
    string_of(&joined)
}

/// The two index lines of a group: its title and its playlist file.
pub open spec fn index_lines(title: Seq<char>, dir: Seq<char>, name: Seq<char>) -> Seq<char> {
    "#EXTINF:-1,"@ + title + "\n"@ + dir + safe_name_spec(name) + ".m3u\n"@
}

/// The index lines of the groups, in order.
pub open spec fn index_body(keys: Seq<Seq<char>>, by: BucketBy) -> Seq<char>
    decreases keys.len(),
{
    if keys.len() == 0 {
        seq![]
    } else {
        index_body(keys.drop_last(), by) + match by {
            BucketBy::Genre => index_lines(keys.last(), "genres/"@, keys.last()),
            BucketBy::Country => index_lines(uppercase(keys.last()), "countries/"@, keys.last()),
        }
    }
}

/// The index playlist of the groups: a header, then for each group its
/// title (a country in upper case) and its file under `genres/` or
/// `countries/`.
pub fn index_text(keys: &Vec<String>, by: BucketBy) -> (res: String)
    ensures
        res@ == "#EXTM3U\n"@ + index_body(crate::text::string_views(keys@), by),
{
    let ghost ks = crate::text::string_views(keys@);
    let mut out = chars_of("#EXTM3U\n");
    let ghost head = out@;
    let mut i: usize = 0;
    assert(ks.take(0) =~= Seq::<Seq<char>>::empty());
    assert(head + Seq::<char>::empty() =~= head);
    while i < keys.len()
        invariant
            i <= keys.len(),
            ks == crate::text::string_views(keys@),
            head == "#EXTM3U\n"@,
            out@ == head + index_body(ks.take(i as int), by),
        decreases keys.len() - i,
    {
        assert(ks.take(i + 1).drop_last() =~= ks.take(i as int));
        assert(ks.take(i + 1).last() == keys@[i as int]@);
        let ghost o = out@;
        let key = &keys[i];
        append_str(&mut out, "#EXTINF:-1,");
        match by {
            BucketBy::Genre => append_str(&mut out, key.as_str()),
            BucketBy::Country => {
                let kc = chars_of(key.as_str());
                let up = upper_chars(&kc);
                append_chars(&mut out, &up);
            },
        }
        append_str(&mut out, "\n");
        match by {
            BucketBy::Genre => append_str(&mut out, "genres/"),
            BucketBy::Country => append_str(&mut out, "countries/"),
        }
        let safe = safe_name(key.as_str());
        append_str(&mut out, safe.as_str());
        append_str(&mut out, ".m3u\n");
        i = i + 1;
        assert(out@ =~= head + index_body(ks.take(i as int), by));
    }
    assert(ks.take(i as int) =~= ks);
    string_of(&out)
}

/// Whether a file of the playlist directory goes into the indexes: an
/// `.m3u` file whose name does not start with "index".
pub open spec fn is_index_source_spec(name: Seq<char>) -> bool {
    &&& name.len() >= 4
    &&& name.skip(name.len() - 4) == ".m3u"@
    &&& !starts_with(name, "index"@)
}

/// Whether a file of the playlist directory goes into the indexes.
pub fn is_index_source(file_name: &str) -> (res: bool)
    ensures
        res == is_index_source_spec(file_name@),
{
    let n = chars_of(file_name);
    let ext = chars_of(".m3u");
    let idx = chars_of("index");
    if n.len() < 4 {
        return false;
    }
    let tail = crate::text::subrange(&n, n.len() - 4, n.len());
    assert(tail@ =~= n@.skip(n@.len() - 4));
    crate::text::chars_eq(&tail, &ext) && !starts_with_exec(&n, &idx)
}

} // verus!
