//! Known alternative names of channels, keyed by their compact form.
use vstd::prelude::*;

use crate::clean::{compact_chars, compact_spec};
use crate::text::{chars_eq, chars_of, string_of};

verus! {

/// The map that a list of (alias, canonical) insertions describes: a later
/// insertion of the same alias replaces an earlier one.
pub open spec fn entries_map(e: Seq<(Vec<char>, String)>) -> Map<Seq<char>, Seq<char>>
    decreases e.len(),
{
    if e.len() == 0 {
        Map::empty()
    } else {
        entries_map(e.drop_last()).insert(e.last().0@, e.last().1@)
    }
}

/// How two names relate through the alias table.
#[derive(Debug, Clone, Copy, PartialEq, Eq, Structural)]
pub enum AliasMatch {
    /// Both names resolve to the same canonical id.
    SameCanonical,
    /// One name resolves to a canonical id whose compact form is the other
    /// name's compact form.
    CanonicalMatchesName,
    NoMatch,
}

#[derive(Clone)]
pub struct AliasEngine {
    aliases: Vec<(Vec<char>, String)>,
}

/// The alias table that `AliasEngine::new` starts with.
pub open spec fn default_aliases() -> Map<Seq<char>, Seq<char>> {
    Map::empty().insert(compact_spec("Zee TV"@), "ZeeTV.in"@).insert(
        compact_spec("Zee TV HD"@),
        "ZeeTV.in"@,
    ).insert(compact_spec("ZeeTV"@), "ZeeTV.in"@).insert(compact_spec("Zee News"@), "ZeeNews.in"@).insert(
        compact_spec("Zee News HD"@),
        "ZeeNews.in"@,
    ).insert(compact_spec("Zee Cinema"@), "ZeeCinema.in"@).insert(
        compact_spec("Zee Cinema HD"@),
        "ZeeCinema.in"@,
    ).insert(compact_spec("&TV"@), "AndTV.in"@).insert(compact_spec("&TV HD"@), "AndTV.in"@).insert(
        compact_spec("And TV"@),
        "AndTV.in"@,
    ).insert(compact_spec("&pictures"@), "AndPictures.in"@).insert(
        compact_spec("&pictures HD"@),
        "AndPictures.in"@,
    ).insert(compact_spec("And Pictures"@), "AndPictures.in"@).insert(
        compact_spec("Zee Bangla"@),
        "ZeeBangla.in"@,
    ).insert(compact_spec("Zee Marathi"@), "ZeeMarathi.in"@).insert(
        compact_spec("Zee Tamil"@),
        "ZeeTamil.in"@,
    ).insert(compact_spec("Zee Telugu"@), "ZeeTelugu.in"@).insert(
        compact_spec("Zee Kannada"@),
        "ZeeKannada.in"@,
    ).insert(compact_spec("Zee Keralam"@), "ZeeKeralam.in"@).insert(
        compact_spec("Aaj Tak"@),
        "AajTak.in"@,
    ).insert(compact_spec("Aaj Tak HD"@), "AajTak.in"@).insert(compact_spec("WION"@), "WION.in"@).insert(
        compact_spec("Zing"@),
        "Zing.in"@,
    )
}

/// What `resolve` returns for a name under a table.
pub open spec fn resolve_spec(m: Map<Seq<char>, Seq<char>>, value: Seq<char>) -> Option<Seq<char>> {
    if m.dom().contains(compact_spec(value)) {
        Some(m[compact_spec(value)])
    } else {
        None
    }
}

/// How `alias_match` relates two names under a table.
pub open spec fn alias_match_spec(m: Map<Seq<char>, Seq<char>>, a: Seq<char>, b: Seq<char>) -> AliasMatch {
    let ra = resolve_spec(m, a);
    let rb = resolve_spec(m, b);
    if ra is Some && rb is Some && ra->0 == rb->0 {
        AliasMatch::SameCanonical
    } else if ra is Some && compact_spec(ra->0) == compact_spec(b) {
        AliasMatch::CanonicalMatchesName
    } else if rb is Some && compact_spec(a) == compact_spec(rb->0) {
        AliasMatch::CanonicalMatchesName
    } else {
        AliasMatch::NoMatch
    }
}

impl View for AliasEngine {
    type V = Map<Seq<char>, Seq<char>>;

    closed spec fn view(&self) -> Map<Seq<char>, Seq<char>> {
        entries_map(self.aliases@)
    }
}

impl AliasEngine {
    /// An engine holding the built-in aliases.
    pub fn new() -> (res: Self)
        ensures
            res@ == default_aliases(),
    {
        let mut engine = AliasEngine { aliases: Vec::new() };
        assert(engine@ == Map::<Seq<char>, Seq<char>>::empty());
        engine.seed_defaults();
        engine
    }

    /// Records that `alias` (by its compact form) names `canonical`.
    pub fn insert(&mut self, alias: &str, canonical: &str)
        ensures
            final(self)@ == old(self)@.insert(compact_spec(alias@), canonical@),
    {
        let a = chars_of(alias);
        let key = compact_chars(&a);
        let ghost old_e = self.aliases@;
        self.aliases.push((key, String::from_str(canonical)));
        assert(self.aliases@.drop_last() =~= old_e);
    }

    /// The canonical id recorded for the compact form of `value`.
    pub fn resolve(&self, value: &str) -> (res: Option<String>)
        ensures
            res matches Some(r) ==> resolve_spec(self@, value@) == Some(r@),
            res is None ==> resolve_spec(self@, value@) is None,
    {
        let v = chars_of(value);
        let key = compact_chars(&v);
        let n = self.aliases.len();
        let mut j: usize = n;
        assert(self.aliases@.take(n as int) =~= self.aliases@);
        while j > 0
            invariant
                j <= n == self.aliases@.len(),
                key@ == compact_spec(value@),
                entries_map(self.aliases@).dom().contains(key@) == entries_map(
                    self.aliases@.take(j as int),
                ).dom().contains(key@),
                entries_map(self.aliases@).dom().contains(key@) ==> entries_map(self.aliases@)[key@]
                    == entries_map(self.aliases@.take(j as int))[key@],
            decreases j,
        {
            let ghost t = self.aliases@.take(j as int);
            assert(t.drop_last() =~= self.aliases@.take(j - 1));
            assert(t.last() == self.aliases@[j - 1]);
            if chars_eq(&self.aliases[j - 1].0, &key) {
                return Some(self.aliases[j - 1].1.clone());
            }
            j = j - 1;
        }
        None
    }

    /// How two names relate through the table.
    pub fn alias_match(&self, a: &str, b: &str) -> (res: AliasMatch)
        ensures
            res == alias_match_spec(self@, a@, b@),
    {
        let ra = self.resolve(a);
        let rb = self.resolve(b);
        let ca = chars_of(a);
        let cb = chars_of(b);
        let compact_a = compact_chars(&ca);
        let compact_b = compact_chars(&cb);
        if let (Some(x), Some(y)) = (&ra, &rb) {
            let xc = chars_of(x.as_str());
            let yc = chars_of(y.as_str());
            if chars_eq(&xc, &yc) {
                return AliasMatch::SameCanonical;
            }
        }
        if let Some(x) = &ra {
            let xc = chars_of(x.as_str());
            let cx = compact_chars(&xc);
            if chars_eq(&cx, &compact_b) {
                return AliasMatch::CanonicalMatchesName;
            }
        }
        if let Some(y) = &rb {
            let yc = chars_of(y.as_str());
            let cy = compact_chars(&yc);
            if chars_eq(&compact_a, &cy) {
                return AliasMatch::CanonicalMatchesName;
            }
        }
        AliasMatch::NoMatch
    }

    fn seed_defaults(&mut self)
        ensures
            old(self)@ == Map::<Seq<char>, Seq<char>>::empty() ==> final(self)@ == default_aliases(),
    {
        self.insert("Zee TV", "ZeeTV.in");
        self.insert("Zee TV HD", "ZeeTV.in");
        self.insert("ZeeTV", "ZeeTV.in");
        self.insert("Zee News", "ZeeNews.in");
        self.insert("Zee News HD", "ZeeNews.in");
        self.insert("Zee Cinema", "ZeeCinema.in");
        self.insert("Zee Cinema HD", "ZeeCinema.in");
        self.insert("&TV", "AndTV.in");
        self.insert("&TV HD", "AndTV.in");
        self.insert("And TV", "AndTV.in");
        self.insert("&pictures", "AndPictures.in");
        self.insert("&pictures HD", "AndPictures.in");
        self.insert("And Pictures", "AndPictures.in");
        self.insert("Zee Bangla", "ZeeBangla.in");
        self.insert("Zee Marathi", "ZeeMarathi.in");
        self.insert("Zee Tamil", "ZeeTamil.in");
        self.insert("Zee Telugu", "ZeeTelugu.in");
        self.insert("Zee Kannada", "ZeeKannada.in");
        self.insert("Zee Keralam", "ZeeKeralam.in");
        self.insert("Aaj Tak", "AajTak.in");
        self.insert("Aaj Tak HD", "AajTak.in");
        self.insert("WION", "WION.in");
        self.insert("Zing", "Zing.in");
    }
}

impl Default for AliasEngine {
    fn default() -> (res: Self)
        ensures
            res@ == default_aliases(),
    {
        Self::new()
    }
}

/// A name resolves to what was last recorded for its compact form; the
/// other entries are untouched.
pub proof fn law_resolve_after_insert(
    m: Map<Seq<char>, Seq<char>>,
    alias: Seq<char>,
    canonical: Seq<char>,
    query: Seq<char>,
)
    ensures
        compact_spec(query) == compact_spec(alias) ==> resolve_spec(
            m.insert(compact_spec(alias), canonical),
            query,
        ) == Some(canonical),
        compact_spec(query) != compact_spec(alias) ==> resolve_spec(
            m.insert(compact_spec(alias), canonical),
            query,
        ) == resolve_spec(m, query),
{
}

/// Two names that resolve to the same canonical id are a same-canonical
/// match, whichever order they are given in.
pub proof fn law_alias_match_symmetric_same(m: Map<Seq<char>, Seq<char>>, a: Seq<char>, b: Seq<char>)
    ensures
        (alias_match_spec(m, a, b) == AliasMatch::SameCanonical) == (alias_match_spec(m, b, a)
            == AliasMatch::SameCanonical),
        (alias_match_spec(m, a, b) == AliasMatch::NoMatch) == (alias_match_spec(m, b, a)
            == AliasMatch::NoMatch),
{
}

} // verus!
