//! The whole-number parts of name similarity: edit distances, shared
//! tokens, containment and common prefixes of clean names, and how two
//! metadata values compare. The scores made of them are ratios of these.
use vstd::prelude::*;

use crate::clean::{clean_chars, clean_spec, compact_chars, compact_spec, dedup, token_set, token_set_spec};
use crate::text::{
    ascii_lower, chars_of, chars_eq, contains, contains_exec, opt_view, string_of, string_views, trim,
    trim_chars,
};

verus! {

/// The least number of character insertions, deletions and substitutions
/// that turn `a` into `b`.
pub open spec fn edit_distance(a: Seq<char>, b: Seq<char>) -> nat
    decreases a.len() + b.len(),
{
    if a.len() == 0 {
        b.len()
    } else if b.len() == 0 {
        a.len()
    } else {
        let sub = edit_distance(a.drop_last(), b.drop_last()) + if a.last() == b.last() {
            0nat
        } else {
            1nat
        };
        let del = edit_distance(a.drop_last(), b) + 1;
        let ins = edit_distance(a, b.drop_last()) + 1;
        if sub <= del && sub <= ins {
            sub
        } else if del <= ins {
            del
        } else {
            ins
        }
    }
}

/// `strsim::levenshtein`: the least number of character insertions,
/// deletions and substitutions that turn one string into the other.
#[verifier::external_body]
fn levenshtein(a: &str, b: &str) -> (res: usize)
    ensures
        res == edit_distance(a@, b@),
{
    strsim::levenshtein(a, b)
}

pub open spec fn max_nat(a: nat, b: nat) -> nat {
    if a >= b {
        a
    } else {
        b
    }
}

pub open spec fn min_nat(a: nat, b: nat) -> nat {
    if a <= b {
        a
    } else {
        b
    }
}

/// No more edits are needed than the longer string has characters.
pub proof fn law_edit_distance_bounded(a: Seq<char>, b: Seq<char>)
    ensures
        edit_distance(a, b) <= max_nat(a.len(), b.len()),
    decreases a.len() + b.len(),
{
    if a.len() > 0 && b.len() > 0 {
        law_edit_distance_bounded(a.drop_last(), b.drop_last());
    }
}

/// A string is no edits away from itself.
pub proof fn law_edit_distance_zero_on_equal(a: Seq<char>)
    ensures
        edit_distance(a, a) == 0,
    decreases a.len(),
{
    if a.len() > 0 {
        law_edit_distance_zero_on_equal(a.drop_last());
    }
}

/// The parts of the edit-distance similarity: none where a clean name is
/// empty, else the edit distance of the clean names and the longer length.
pub open spec fn levenshtein_view(a: Seq<char>, b: Seq<char>) -> Option<(nat, nat)> {
    let x = clean_spec(a);
    let y = clean_spec(b);
    if x.len() == 0 || y.len() == 0 {
        None
    } else {
        Some((edit_distance(x, y), max_nat(x.len(), y.len())))
    }
}

/// The length that the edit distance is measured against is that of the
/// longer clean name, and the distance never exceeds it; neither depends
/// on the order of the names.
pub proof fn law_levenshtein_parts(a: Seq<char>, b: Seq<char>)
    ensures
        levenshtein_view(a, b) matches Some((d, m)) ==> {
            &&& m >= clean_spec(a).len() && m >= clean_spec(b).len()
            &&& (m == clean_spec(a).len() || m == clean_spec(b).len())
            &&& d <= m
        },
        levenshtein_view(a, b) is None <==> (clean_spec(a).len() == 0 || clean_spec(b).len() == 0),
        clean_spec(a) == clean_spec(b) && clean_spec(a).len() > 0 ==> levenshtein_view(a, b) == Some(
            (0nat, clean_spec(a).len()),
        ),
{
    law_edit_distance_bounded(clean_spec(a), clean_spec(b));
    law_edit_distance_zero_on_equal(clean_spec(a));
}

/// What the edit-distance similarity of two names is made of: `None` where
/// a clean name is empty (the similarity is then nothing), else the edit
/// distance of the clean names and the length of the longer one. Clean
/// names are ASCII, so their lengths in characters and in bytes agree.
pub fn levenshtein_parts(a: &str, b: &str) -> (res: Option<(usize, usize)>)
    ensures
        match res {
            None => levenshtein_view(a@, b@) is None,
            Some((d, m)) => levenshtein_view(a@, b@) == Some((d as nat, m as nat)),
        },
        match res {
            None => clean_spec(a@).len() == 0 || clean_spec(b@).len() == 0,
            Some((d, m)) => {
                &&& clean_spec(a@).len() > 0
                &&& clean_spec(b@).len() > 0
                &&& d == edit_distance(clean_spec(a@), clean_spec(b@))
                &&& m == max_nat(clean_spec(a@).len(), clean_spec(b@).len())
            },
        },
{
    let ac = chars_of(a);
    let bc = chars_of(b);
    let ca = clean_chars(&ac);
    let cb = clean_chars(&bc);
    if ca.len() == 0 || cb.len() == 0 {
        return None;
    }
    let sa = string_of(&ca);
    let sb = string_of(&cb);
    let d = levenshtein(sa.as_str(), sb.as_str());
    let m = if ca.len() >= cb.len() {
        ca.len()
    } else {
        cb.len()
    };
    Some((d, m))
}

/// How many of `xs` occur in `ys`.
pub open spec fn shared_count(xs: Seq<Seq<char>>, ys: Seq<Seq<char>>) -> nat
    decreases xs.len(),
{
    if xs.len() == 0 {
        0
    } else {
        shared_count(xs.drop_last(), ys) + if ys.contains(xs.last()) {
            1nat
        } else {
            0nat
        }
    }
}

proof fn lemma_shared_count_bound(xs: Seq<Seq<char>>, ys: Seq<Seq<char>>)
    ensures
        shared_count(xs, ys) <= xs.len(),
    decreases xs.len(),
{
    if xs.len() > 0 {
        lemma_shared_count_bound(xs.drop_last(), ys);
    }
}

proof fn lemma_dedup_distinct(ws: Seq<Seq<char>>)
    ensures
        dedup(ws).no_duplicates(),
    decreases ws.len(),
{
    if ws.len() > 0 {
        lemma_dedup_distinct(ws.drop_last());
        let d = dedup(ws.drop_last());
        if !d.contains(ws.last()) {
            let r = d.push(ws.last());
            assert forall|i: int, j: int| 0 <= i < r.len() && 0 <= j < r.len() && i != j implies r[i] != r[j] by {
                if i == d.len() {
                    assert(r[j] == d[j]);
                } else if j == d.len() {
                    assert(r[i] == d[i]);
                }
            }
        }
    }
}

proof fn lemma_shared_count_set(xs: Seq<Seq<char>>, ys: Seq<Seq<char>>)
    requires
        xs.no_duplicates(),
    ensures
        shared_count(xs, ys) == xs.to_set().intersect(ys.to_set()).len(),
    decreases xs.len(),
{
    broadcast use {vstd::set::group_set_axioms, vstd::seq_lib::seq_to_set_is_finite};

    if xs.len() == 0 {
        assert(xs.to_set().intersect(ys.to_set()) =~= Set::<Seq<char>>::empty());
    } else {
        let p = xs.drop_last();
        let x = xs.last();
        assert(p.no_duplicates()) by {
            assert forall|i: int, j: int| 0 <= i < p.len() && 0 <= j < p.len() && i != j implies p[i] != p[j] by {
                assert(p[i] == xs[i] && p[j] == xs[j]);
            }
        }
        lemma_shared_count_set(p, ys);
        assert(!p.contains(x)) by {
            if p.contains(x) {
                let k = choose|k: int| 0 <= k < p.len() && p[k] == x;
                assert(xs[k] == xs[xs.len() - 1]);
            }
        }
        assert(xs.to_set() =~= p.to_set().insert(x)) by {
            assert forall|y: Seq<char>| xs.contains(y) <==> (p.contains(y) || y == x) by {
                if xs.contains(y) && y != x {
                    let k = choose|k: int| 0 <= k < xs.len() && xs[k] == y;
                    assert(p[k] == y);
                }
                if p.contains(y) {
                    let k = choose|k: int| 0 <= k < p.len() && p[k] == y;
                    assert(xs[k] == y);
                }
                if y == x {
                    assert(xs[xs.len() - 1] == x);
                }
            }
        }
        let before = p.to_set().intersect(ys.to_set());
        if ys.contains(x) {
            assert(xs.to_set().intersect(ys.to_set()) =~= before.insert(x));
            assert(!before.contains(x));
        } else {
            assert(xs.to_set().intersect(ys.to_set()) =~= before);
        }
    }
}

/// The shared-token count and the token count of either name are the sizes
/// of the intersection and of the union of the two token sets.
pub proof fn law_jaccard_set_sizes(a: Seq<char>, b: Seq<char>)
    ensures
        ({
            let xs = token_set_spec(a);
            let ys = token_set_spec(b);
            &&& shared_count(xs, ys) == xs.to_set().intersect(ys.to_set()).len()
            &&& xs.len() + ys.len() - shared_count(xs, ys) == (xs.to_set() + ys.to_set()).len()
        }),
{
    broadcast use vstd::seq_lib::seq_to_set_is_finite;

    let xs = token_set_spec(a);
    let ys = token_set_spec(b);
    lemma_dedup_distinct(crate::text::words(clean_spec(a)));
    lemma_dedup_distinct(crate::text::words(clean_spec(b)));
    xs.unique_seq_to_set();
    ys.unique_seq_to_set();
    lemma_shared_count_set(xs, ys);
    vstd::set_lib::lemma_set_intersect_union_lens(xs.to_set(), ys.to_set());
}

/// What the token-set similarity of two names is made of: `None` where a
/// token set is empty (the similarity is then nothing), else the number of
/// tokens the two share and the sizes of the two token sets. Each token set
/// holds every token once, so the first is the size of the intersection and
/// the sizes less it give the size of the union (`law_jaccard_set_sizes`).
pub fn jaccard_parts(a: &str, b: &str) -> (res: Option<(usize, usize, usize)>)
    ensures
        match res {
            None => token_set_spec(a@).len() == 0 || token_set_spec(b@).len() == 0,
            Some((i, na, nb)) => {
                let xs = token_set_spec(a@);
                let ys = token_set_spec(b@);
                &&& xs.len() > 0
                &&& ys.len() > 0
                &&& i == shared_count(xs, ys)
                &&& na == xs.len()
                &&& nb == ys.len()
            },
        },
{
    let xs = token_set(a);
    let ys = token_set(b);
    if xs.len() == 0 || ys.len() == 0 {
        return None;
    }
    let ghost xv = string_views(xs@);
    let ghost yv = string_views(ys@);
    let mut shared: usize = 0;
    let mut i: usize = 0;
    assert(xv.take(0) =~= Seq::<Seq<char>>::empty());
    while i < xs.len()
        invariant
            i <= xs.len(),
            xv == string_views(xs@),
            yv == string_views(ys@),
            shared == shared_count(xv.take(i as int), yv),
            shared <= i,
        decreases xs.len() - i,
    {
        assert(xv.take(i + 1).drop_last() =~= xv.take(i as int));
        assert(xv.take(i + 1).last() == xs@[i as int]@);
        if crate::text::contains_string(&ys, &xs[i]) {
            shared = shared + 1;
        }
        i = i + 1;
    }
    assert(xv.take(i as int) =~= xv);
    proof {
        lemma_shared_count_bound(xv, yv);
    }
    Some((shared, xs.len(), ys.len()))
}

/// How two compact names relate.
#[derive(PartialEq, Eq, Structural, Clone, Copy, Debug)]
pub enum Containment {
    /// One of them is empty.
    Empty,
    /// They are the same.
    Same,
    /// One holds the other.
    Contains,
    /// Neither holds the other.
    Unrelated,
}

pub open spec fn containment_spec(a: Seq<char>, b: Seq<char>) -> Containment {
    if a.len() == 0 || b.len() == 0 {
        Containment::Empty
    } else if a == b {
        Containment::Same
    } else if contains(a, b) || contains(b, a) {
        Containment::Contains
    } else {
        Containment::Unrelated
    }
}

/// How two texts relate does not depend on their order, and a text that
/// holds the other, different and non-empty one, is recognised whichever
/// side it stands on; texts that neither hold the other are unrelated.
pub proof fn law_containment_symmetric(a: Seq<char>, b: Seq<char>)
    ensures
        containment_spec(a, b) == containment_spec(b, a),
        a.len() > 0 && b.len() > 0 && a != b && contains(a, b) ==> containment_spec(a, b)
            == Containment::Contains && containment_spec(b, a) == Containment::Contains,
        a.len() > 0 && b.len() > 0 && !contains(a, b) && !contains(b, a) ==> containment_spec(a, b)
            == Containment::Unrelated,
        (containment_spec(a, b) == Containment::Empty) <==> (a.len() == 0 || b.len() == 0),
        (containment_spec(a, b) == Containment::Same) <==> (a.len() > 0 && a == b),
{
    if a == b {
        assert(a.subrange(0, a.len() as int) =~= a);
        assert(crate::text::matches_at(a, 0, a));
    }
}

/// Substring relations of two names, in either order, agree; a compact name
/// that holds the other, distinct and non-empty, counts as containing it
/// whichever argument it is.
pub proof fn law_substring_relation_symmetric(a: Seq<char>, b: Seq<char>)
    ensures
        containment_spec(compact_spec(a), compact_spec(b)) == containment_spec(compact_spec(b), compact_spec(a)),
        ({
            let x = compact_spec(a);
            let y = compact_spec(b);
            x.len() > 0 && y.len() > 0 && x != y && (contains(x, y) || contains(y, x))
                ==> containment_spec(x, y) == Containment::Contains
        }),
{
    law_containment_symmetric(compact_spec(a), compact_spec(b));
    law_containment_symmetric(compact_spec(b), compact_spec(a));
}

/// How the compact names of two names relate; the substring similarity is
/// full for the same names, high where one holds the other, and nothing
/// otherwise.
pub fn substring_relation(a: &str, b: &str) -> (res: Containment)
    ensures
        res == containment_spec(compact_spec(a@), compact_spec(b@)),
{
    let ac = chars_of(a);
    let bc = chars_of(b);
    let ca = compact_chars(&ac);
    let cb = compact_chars(&bc);
    if ca.len() == 0 || cb.len() == 0 {
        Containment::Empty
    } else if chars_eq(&ca, &cb) {
        Containment::Same
    } else if contains_exec(&ca, &cb) || contains_exec(&cb, &ca) {
        Containment::Contains
    } else {
        Containment::Unrelated
    }
}

/// The parts of the prefix similarity: none where a compact name is empty
/// or the shorter is under four characters long, else the common prefix
/// length and the shorter length.
pub open spec fn prefix_view(a: Seq<char>, b: Seq<char>) -> Option<(nat, nat)> {
    let x = compact_spec(a);
    let y = compact_spec(b);
    if x.len() == 0 || y.len() == 0 || min_nat(x.len(), y.len()) < 4 {
        None
    } else {
        Some((common_prefix_len(x, y), min_nat(x.len(), y.len())))
    }
}

/// The length of the longest common prefix.
pub open spec fn common_prefix_len(a: Seq<char>, b: Seq<char>) -> nat
    decreases a.len(),
{
    if a.len() == 0 || b.len() == 0 || a[0] != b[0] {
        0
    } else {
        1 + common_prefix_len(a.drop_first(), b.drop_first())
    }
}

proof fn lemma_common_prefix_step(a: Seq<char>, b: Seq<char>, i: int)
    requires
        0 <= i < a.len(),
        i < b.len(),
        forall|k: int| 0 <= k < i ==> a[k] == b[k],
        a[i] != b[i],
    ensures
        common_prefix_len(a, b) == i,
    decreases i,
{
    if i > 0 {
        lemma_common_prefix_step(a.drop_first(), b.drop_first(), i - 1);
    }
}

proof fn lemma_common_prefix_end(a: Seq<char>, b: Seq<char>, i: int)
    requires
        0 <= i <= a.len(),
        i <= b.len(),
        i == a.len() || i == b.len(),
        forall|k: int| 0 <= k < i ==> a[k] == b[k],
    ensures
        common_prefix_len(a, b) == i,
    decreases i,
{
    if i > 0 {
        lemma_common_prefix_end(a.drop_first(), b.drop_first(), i - 1);
    }
}

/// What the prefix similarity of two names is made of: `None` where a
/// compact name is empty or the shorter one has fewer than four characters
/// (the similarity is then nothing), else the length of their common prefix
/// and of the shorter name.
pub fn prefix_parts(a: &str, b: &str) -> (res: Option<(usize, usize)>)
    ensures
        match res {
            None => prefix_view(a@, b@) is None,
            Some((c, m)) => prefix_view(a@, b@) == Some((c as nat, m as nat)),
        },
        match res {
            None => {
                let x = compact_spec(a@);
                let y = compact_spec(b@);
                x.len() == 0 || y.len() == 0 || min_nat(x.len(), y.len()) < 4
            },
            Some((c, m)) => {
                let x = compact_spec(a@);
                let y = compact_spec(b@);
                &&& x.len() > 0 && y.len() > 0
                &&& m == min_nat(x.len(), y.len())
                &&& m >= 4
                &&& c == common_prefix_len(x, y)
            },
        },
{
    let ac = chars_of(a);
    let bc = chars_of(b);
    let x = compact_chars(&ac);
    let y = compact_chars(&bc);
    if x.len() == 0 || y.len() == 0 {
        return None;
    }
    let m = if x.len() <= y.len() {
        x.len()
    } else {
        y.len()
    };
    if m < 4 {
        return None;
    }
    let mut i: usize = 0;
    while i < m && x[i] == y[i]
        invariant
            i <= m,
            m <= x.len(),
            m <= y.len(),
            m == x.len() || m == y.len(),
            forall|k: int| 0 <= k < i ==> x@[k] == y@[k],
        decreases m - i,
    {
        i = i + 1;
    }
    proof {
        if i < m {
            lemma_common_prefix_step(x@, y@, i as int);
        } else {
            lemma_common_prefix_end(x@, y@, i as int);
        }
    }
    Some((i, m))
}

/// How two metadata values compare.
#[derive(PartialEq, Eq, Structural, Clone, Copy, Debug)]
pub enum MetaMatch {
    /// One of them is missing.
    Unknown,
    /// They agree, ignoring surrounding whitespace and ASCII case.
    Same,
    /// They differ.
    Different,
}

/// A string with its ASCII letters in lower case.
pub open spec fn ascii_fold(s: Seq<char>) -> Seq<char> {
    s.map_values(|c: char| ascii_lower(c))
}

pub open spec fn meta_match_spec(a: Option<Seq<char>>, b: Option<Seq<char>>) -> MetaMatch {
    match (a, b) {
        (Some(x), Some(y)) => if ascii_fold(trim(x)) == ascii_fold(trim(y)) {
            MetaMatch::Same
        } else {
            MetaMatch::Different
        },
        _ => MetaMatch::Unknown,
    }
}

fn eq_ignore_ascii_case(a: &Vec<char>, b: &Vec<char>) -> (r: bool)
    ensures
        r == (ascii_fold(a@) == ascii_fold(b@)),
{
    if a.len() != b.len() {
        assert(ascii_fold(a@).len() != ascii_fold(b@).len());
        return false;
    }
    let mut i: usize = 0;
    while i < a.len()
        invariant
            i <= a.len(),
            a.len() == b.len(),
            forall|k: int| 0 <= k < i ==> ascii_lower(a@[k]) == ascii_lower(b@[k]),
        decreases a.len() - i,
    {
        let x = crate::text::ascii_lower_char(a[i]);
        let y = crate::text::ascii_lower_char(b[i]);
        if x != y {
            assert(ascii_fold(a@)[i as int] != ascii_fold(b@)[i as int]);
            return false;
        }
        i = i + 1;
    }
    assert(ascii_fold(a@) =~= ascii_fold(b@));
    true
}

/// How a source and a target metadata value compare: unknown where either
/// is missing, else whether they agree after trimming, ignoring ASCII case.
pub fn metadata_relation(source: Option<&str>, target: Option<&str>) -> (res: MetaMatch)
    ensures
        res == meta_match_spec(
            match source {
                Some(s) => Some(s@),
                None => None,
            },
            match target {
                Some(t) => Some(t@),
                None => None,
            },
        ),
{
    match (source, target) {
        (Some(a), Some(b)) => {
            let ac = chars_of(a);
            let bc = chars_of(b);
            let ta = trim_chars(&ac);
            let tb = trim_chars(&bc);
            if eq_ignore_ascii_case(&ta, &tb) {
                MetaMatch::Same
            } else {
                MetaMatch::Different
            }
        },
        _ => MetaMatch::Unknown,
    }
}

/// The common prefix length counts the characters the two texts share from
/// the start: they agree on that many, and differ (or one ends) right after.
/// It does not depend on the order of the texts.
pub proof fn law_common_prefix(a: Seq<char>, b: Seq<char>)
    ensures
        common_prefix_len(a, b) <= a.len(),
        common_prefix_len(a, b) <= b.len(),
        a.take(common_prefix_len(a, b) as int) == b.take(common_prefix_len(a, b) as int),
        common_prefix_len(a, b) < a.len() && common_prefix_len(a, b) < b.len() ==> a[common_prefix_len(
            a,
            b,
        ) as int] != b[common_prefix_len(a, b) as int],
        common_prefix_len(a, b) == common_prefix_len(b, a),
    decreases a.len(),
{
    if a.len() == 0 || b.len() == 0 || a[0] != b[0] {
        assert(a.take(0) =~= b.take(0));
    } else {
        law_common_prefix(a.drop_first(), b.drop_first());
        let n = common_prefix_len(a, b);
        assert(a.take(n as int) =~= seq![a[0]] + a.drop_first().take(n - 1));
        assert(b.take(n as int) =~= seq![b[0]] + b.drop_first().take(n - 1));
        if n < a.len() && n < b.len() {
            assert(a[n as int] == a.drop_first()[n - 1]);
            assert(b[n as int] == b.drop_first()[n - 1]);
        }
    }
}

/// Comparing two metadata values does not depend on their order; a value
/// always agrees with itself, and a missing value gives no verdict.
pub proof fn law_meta_match_symmetric(a: Option<Seq<char>>, b: Option<Seq<char>>)
    ensures
        meta_match_spec(a, b) == meta_match_spec(b, a),
        a is Some ==> meta_match_spec(a, a) == MetaMatch::Same,
        (meta_match_spec(a, b) == MetaMatch::Unknown) <==> (a is None || b is None),
{
}

/// The prefix similarity is measured against the shorter compact name, of
/// at least four characters; the shared prefix never exceeds it, and
/// neither depends on the order of the names.
pub proof fn law_prefix_parts(a: Seq<char>, b: Seq<char>)
    ensures
        prefix_view(a, b) matches Some((c, m)) ==> {
            &&& m <= compact_spec(a).len() && m <= compact_spec(b).len()
            &&& (m == compact_spec(a).len() || m == compact_spec(b).len())
            &&& m >= 4
            &&& c <= m
            &&& compact_spec(a).take(c as int) == compact_spec(b).take(c as int)
        },
        prefix_view(a, b) == prefix_view(b, a),
{
    law_common_prefix(compact_spec(a), compact_spec(b));
}

} // verus!
