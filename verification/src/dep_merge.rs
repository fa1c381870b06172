//! Merging the entries of several manifests into one list.
//!
//! Entries with the same id become one, in the order in which they come. The
//! list is sorted by id, cut to a maximum with direct entries kept first, and
//! names no parent that is not in it.
use crate::dep_entry::{Dep, DepEntry, copy_entry, copy_opt, copy_strings, dep_ids, deps};
use crate::order::{
    ascending, char_seqs, find_rank, lemma_less_irreflexive, lemma_less_total,
    lemma_less_transitive, lemma_rank_is, lex_less, rank, same_chars,
};
use crate::text::{str_eq, strs, to_chars};
use vstd::prelude::*;
use vstd::string::*;

verus! {

/// Whether two entries of one id tell of the same source.
pub open spec fn same_origin(a: Option<Seq<char>>, b: Option<Seq<char>>) -> bool {
    match (a, b) {
        (Some(x), Some(y)) => x == y,
        (None, None) => true,
        _ => false,
    }
}

/// What becomes of an entry when another of the same id follows it.
///
/// A url that the first one lacks is taken together with the version it comes
/// with; without that, a missing version is filled in only from the same
/// source. A direct entry stays direct. The first parents found stay.
pub open spec fn absorb(prev: Dep, next: Dep) -> Dep {
    let adopts = prev.url is None && next.url is Some;
    Dep {
        url: if adopts {
            next.url
        } else {
            prev.url
        },
        version: if adopts {
            next.version
        } else if prev.version is None && same_origin(prev.url, next.url) {
            next.version
        } else {
            prev.version
        },
        direct: prev.direct || next.direct,
        parents: if prev.parents.len() == 0 {
            next.parents
        } else {
            prev.parents
        },
        ..prev
    }
}

/// A sorted list with one more entry: absorbed by the entry of its id, or put
/// at its place.
pub open spec fn with_entry(all: Seq<Dep>, e: Dep) -> Seq<Dep> {
    let p = rank(dep_ids(all), e.id) as int;
    if p < all.len() && all[p].id == e.id {
        all.update(p, absorb(all[p], e))
    } else {
        all.insert(p, e)
    }
}

pub open spec fn with_entries(all: Seq<Dep>, source: Seq<Dep>) -> Seq<Dep>
    decreases source.len(),
{
    if source.len() == 0 {
        all
    } else {
        with_entry(with_entries(all, source.drop_last()), source.last())
    }
}

/// The sources one after another, merged into one sorted list.
pub open spec fn merged(sources: Seq<Seq<Dep>>) -> Seq<Dep>
    decreases sources.len(),
{
    if sources.len() == 0 {
        Seq::empty()
    } else {
        with_entries(merged(sources.drop_last()), sources.last())
    }
}

/// How many of the entries have the given direct flag.
pub open spec fn tally(s: Seq<Dep>, direct: bool) -> nat
    decreases s.len(),
{
    if s.len() == 0 {
        0
    } else {
        tally(s.drop_last(), direct) + if s.last().direct == direct {
            1nat
        } else {
            0nat
        }
    }
}

/// The first `d` direct and the first `t` transitive entries, in their order.
pub open spec fn picked(s: Seq<Dep>, d: nat, t: nat) -> Seq<Dep>
    decreases s.len(),
{
    if s.len() == 0 {
        Seq::empty()
    } else {
        let r = picked(s.drop_last(), d, t);
        let e = s.last();
        if tally(s.drop_last(), e.direct) < (if e.direct {
            d
        } else {
            t
        }) {
            r.push(e)
        } else {
            r
        }
    }
}

/// At most `max` entries: as many direct ones as fit, then transitive ones, of
/// each kind those that come first.
pub open spec fn capped(s: Seq<Dep>, max: nat) -> Seq<Dep> {
    if s.len() <= max {
        s
    } else {
        let d = tally(s, true);
        if d >= max {
            picked(s, max, 0)
        } else {
            picked(s, d, (max - d) as nat)
        }
    }
}

/// The parents that are among the given ids.
pub open spec fn known_parents(parents: Seq<Seq<char>>, ids: Seq<Seq<char>>) -> Seq<Seq<char>>
    decreases parents.len(),
{
    if parents.len() == 0 {
        Seq::empty()
    } else {
        let r = known_parents(parents.drop_last(), ids);
        if ids.contains(parents.last()) {
            r.push(parents.last())
        } else {
            r
        }
    }
}

/// Every entry with only those parents that are in the list.
pub open spec fn closed_under_parents(s: Seq<Dep>) -> Seq<Dep> {
    s.map_values(|e: Dep| Dep { parents: known_parents(e.parents, dep_ids(s)), ..e })
}

pub open spec fn dep_sources(v: Seq<Vec<DepEntry>>) -> Seq<Seq<Dep>> {
    v.map_values(|s: Vec<DepEntry>| deps(s@))
}

proof fn lemma_with_entry_ascending(all: Seq<Dep>, e: Dep)
    requires
        ascending(dep_ids(all)),
    ensures
        ascending(dep_ids(with_entry(all, e))),
        rank(dep_ids(all), e.id) <= all.len(),
{
    let ids = dep_ids(all);
    lemma_rank_bound(ids, e.id);
    let p = rank(ids, e.id) as int;
    lemma_rank_splits(ids, e.id);
    let out = dep_ids(with_entry(all, e));
    if p < all.len() && all[p].id == e.id {
        assert(out =~= ids);
    } else {
        assert(out =~= ids.insert(p, e.id));
        assert forall|i: int, j: int| 0 <= i < j < out.len() implies lex_less(
            #[trigger] out[i],
            #[trigger] out[j],
        ) by {
            if i < p && j == p {
                assert(lex_less(ids[i], e.id));
            } else if i == p {
                let y = ids[j - 1];
                lemma_less_total(y, e.id);
                assert(!lex_less(y, e.id));
                if y == e.id {
                    if j - 1 > p {
                        assert(lex_less(ids[p], ids[j - 1]));
                        assert(lex_less(ids[p], e.id));
                    }
                    assert(ids[p] == all[p].id);
                }
            } else if j < p {
                assert(out[i] == ids[i] && out[j] == ids[j]);
            } else if i < p {
                assert(out[i] == ids[i] && out[j] == ids[j - 1]);
            } else {
                assert(out[i] == ids[i - 1] && out[j] == ids[j - 1]);
            }
        }
    }
}

proof fn lemma_rank_bound(s: Seq<Seq<char>>, x: Seq<char>)
    ensures
        rank(s, x) <= s.len(),
    decreases s.len(),
{
    if s.len() > 0 {
        lemma_rank_bound(s.drop_last(), x);
    }
}

/// Among ascending strings those before `x` are exactly the first `rank` ones.
proof fn lemma_rank_splits(s: Seq<Seq<char>>, x: Seq<char>)
    requires
        ascending(s),
    ensures
        forall|i: int| 0 <= i < rank(s, x) ==> lex_less(#[trigger] s[i], x),
        forall|i: int| rank(s, x) <= i < s.len() ==> !lex_less(#[trigger] s[i], x),
    decreases s.len(),
{
    lemma_rank_bound(s, x);
    if s.len() > 0 {
        let d = s.drop_last();
        assert(ascending(d)) by {
            assert forall|i: int, j: int| 0 <= i < j < d.len() implies lex_less(
                #[trigger] d[i],
                #[trigger] d[j],
            ) by {
                assert(d[i] == s[i] && d[j] == s[j]);
            }
        }
        lemma_rank_splits(d, x);
        lemma_rank_bound(d, x);
        if lex_less(s.last(), x) {
            assert forall|i: int| 0 <= i < s.len() implies lex_less(#[trigger] s[i], x) by {
                if i < s.len() - 1 {
                    lemma_less_transitive(s[i], s.last(), x);
                }
            }
            lemma_rank_is(s, x, s.len() as int);
        } else {
            assert forall|i: int| 0 <= i < rank(s, x) implies lex_less(#[trigger] s[i], x) by {
                assert(s[i] == d[i]);
            }
            assert forall|i: int| rank(s, x) <= i < s.len() implies !lex_less(#[trigger] s[i], x) by {
                if i < s.len() - 1 {
                    assert(s[i] == d[i]);
                }
            }
        }
    }
}

/// The entries and their ids as characters, side by side and ascending.
pub open spec fn keyed(entries: Seq<DepEntry>, keys: Seq<Vec<char>>) -> bool {
    char_seqs(keys) == dep_ids(deps(entries)) && ascending(char_seqs(keys))
}

fn absorb_entry(prev: &DepEntry, next: &DepEntry) -> (r: DepEntry)
    ensures
        r@ == absorb(prev@, next@),
{
    let adopts = prev.url.is_none() && next.url.is_some();
    let same = match (&prev.url, &next.url) {
        (Some(a), Some(b)) => str_eq(a.as_str(), b.as_str()),
        (None, None) => true,
        _ => false,
    };
    let url = if adopts {
        copy_opt(&next.url)
    } else {
        copy_opt(&prev.url)
    };
    let version = if adopts || (prev.version.is_none() && same) {
        copy_opt(&next.version)
    } else {
        copy_opt(&prev.version)
    };
    let parents = if prev.parents.len() == 0 {
        copy_strings(&next.parents)
    } else {
        copy_strings(&prev.parents)
    };
    DepEntry {
        id: prev.id.clone(),
        group: prev.group.clone(),
        name: prev.name.clone(),
        version,
        direct: prev.direct || next.direct,
        scope: copy_opt(&prev.scope),
        type_: prev.type_.clone(),
        parents,
        url,
    }
}

fn add_entry(entries: &mut Vec<DepEntry>, keys: &mut Vec<Vec<char>>, e: &DepEntry)
    requires
        keyed(old(entries)@, old(keys)@),
    ensures
        keyed(final(entries)@, final(keys)@),
        deps(final(entries)@) == with_entry(deps(old(entries)@), e@),
{
    let key = to_chars(e.id.as_str());
    let p = find_rank(keys, &key);
    let ghost all = deps(entries@);
    let ghost out = with_entry(all, e@);
    proof {
        lemma_with_entry_ascending(all, e@);
        assert(keys@.len() == char_seqs(keys@).len());
        assert(entries@.len() == dep_ids(all).len());
        if p < keys@.len() {
            assert(char_seqs(keys@)[p as int] == keys@[p as int]@);
            assert(dep_ids(all)[p as int] == entries@[p as int]@.id);
        }
    }
    if p < keys.len() && same_chars(&keys[p], &key) {
        let joined_entry = absorb_entry(&entries[p], e);
        proof {
            assert(deps(entries@.update(p as int, joined_entry)) =~= out);
            assert(dep_ids(out) =~= dep_ids(all));
        }
        entries.set(p, joined_entry);
    } else {
        let c = copy_entry(e);
        proof {
            assert(deps(entries@.insert(p as int, c)) =~= out);
            assert(dep_ids(out) =~= dep_ids(all).insert(p as int, e@.id));
            assert(char_seqs(keys@.insert(p as int, key)) =~= char_seqs(keys@).insert(
                p as int,
                key@,
            ));
        }
        entries.insert(p, c);
        keys.insert(p, key);
    }
}

fn filter_parents(parents: &Vec<String>, keys: &Vec<Vec<char>>) -> (r: Vec<String>)
    requires
        ascending(char_seqs(keys@)),
    ensures
        strs(r@) == known_parents(strs(parents@), char_seqs(keys@)),
{
    let ghost ids = char_seqs(keys@);
    let ghost all = strs(parents@);
    let mut r: Vec<String> = Vec::new();
    let mut i: usize = 0;
    proof {
        assert(strs(r@) =~= known_parents(all.take(0), ids));
    }
    while i < parents.len()
        invariant
            i <= parents@.len(),
            ids == char_seqs(keys@),
            ascending(ids),
            all == strs(parents@),
            strs(r@) == known_parents(all.take(i as int), ids),
        decreases parents@.len() - i,
    {
        let key = to_chars(parents[i].as_str());
        let p = find_rank(keys, &key);
        proof {
            assert(all.take(i + 1).drop_last() =~= all.take(i as int));
            assert(all.take(i + 1).last() == key@);
            if p < keys@.len() {
                assert(ids[p as int] == keys@[p as int]@);
            }
            if ids.contains(key@) {
                let k = choose|k: int| 0 <= k < ids.len() && ids[k] == key@;
                lemma_less_irreflexive(key@);
                assert(k >= p);
                if k > p {
                    assert(lex_less(ids[p as int], ids[k]));
                }
            }
        }
        if p < keys.len() && same_chars(&keys[p], &key) {
            let c = parents[i].clone();
            proof {
                assert(ids.contains(ids[p as int]));
                assert(strs(r@.push(c)) =~= strs(r@).push(c@));
            }
            r.push(c);
        }
        i += 1;
    }
    proof {
        assert(all.take(i as int) =~= all);
    }
    r
}

proof fn lemma_tally_bound(s: Seq<Dep>)
    ensures
        tally(s, true) + tally(s, false) == s.len(),
    decreases s.len(),
{
    if s.len() > 0 {
        lemma_tally_bound(s.drop_last());
    }
}

fn count_direct(entries: &Vec<DepEntry>) -> (r: usize)
    ensures
        r == tally(deps(entries@), true),
{
    let ghost all = deps(entries@);
    let mut n: usize = 0;
    let mut i: usize = 0;
    while i < entries.len()
        invariant
            i <= entries@.len(),
            n <= i,
            all == deps(entries@),
            n == tally(all.take(i as int), true),
        decreases entries@.len() - i,
    {
        proof {
            assert(all.take(i + 1).drop_last() =~= all.take(i as int));
            assert(all.take(i + 1).last() == entries@[i as int]@);
        }
        if entries[i].direct {
            n += 1;
        }
        i += 1;
    }
    proof {
        assert(all.take(i as int) =~= all);
    }
    n
}

/// The entries that stay under the cap, with their ids.
fn pick_entries(entries: Vec<DepEntry>, keys: Vec<Vec<char>>, d: usize, t: usize) -> (r: (
    Vec<DepEntry>,
    Vec<Vec<char>>,
))
    requires
        keyed(entries@, keys@),
    ensures
        deps(r.0@) == picked(deps(entries@), d as nat, t as nat),
        char_seqs(r.1@) == dep_ids(deps(r.0@)),
{
    let ghost all = deps(entries@);
    let mut out: Vec<DepEntry> = Vec::new();
    let mut out_keys: Vec<Vec<char>> = Vec::new();
    let mut nd: usize = 0;
    let mut nt: usize = 0;
    let mut i: usize = 0;
    proof {
        assert(deps(out@) =~= picked(all.take(0), d as nat, t as nat));
        assert(char_seqs(out_keys@) =~= dep_ids(deps(out@)));
    }
    while i < entries.len()
        invariant
            i <= entries@.len(),
            nd <= i,
            nt <= i,
            all == deps(entries@),
            nd == tally(all.take(i as int), true),
            nt == tally(all.take(i as int), false),
            deps(out@) == picked(all.take(i as int), d as nat, t as nat),
            char_seqs(out_keys@) == dep_ids(deps(out@)),
        decreases entries@.len() - i,
    {
        proof {
            assert(all.take(i + 1).drop_last() =~= all.take(i as int));
            assert(all.take(i + 1).last() == entries@[i as int]@);
        }
        let keep = if entries[i].direct {
            nd < d
        } else {
            nt < t
        };
        if keep {
            let c = copy_entry(&entries[i]);
            let k = to_chars(c.id.as_str());
            proof {
                assert(deps(out@.push(c)) =~= deps(out@).push(c@));
                assert(char_seqs(out_keys@.push(k)) =~= char_seqs(out_keys@).push(k@));
                assert(dep_ids(deps(out@).push(c@)) =~= dep_ids(deps(out@)).push(c@.id));
            }
            out.push(c);
            out_keys.push(k);
        }
        if entries[i].direct {
            nd += 1;
        } else {
            nt += 1;
        }
        i += 1;
    }
    proof {
        assert(all.take(i as int) =~= all);
    }
    (out, out_keys)
}

/// Everything kept stands in the full list, in its order.
proof fn lemma_picked_subsequence(s: Seq<Dep>, d: nat, t: nat)
    ensures
        forall|k: int| 0 <= k < picked(s, d, t).len() ==> s.contains(#[trigger] picked(s, d, t)[k]),
        ascending(dep_ids(s)) ==> ascending(dep_ids(picked(s, d, t))),
    decreases s.len(),
{
    if s.len() > 0 {
        let i = s.drop_last();
        let r = picked(i, d, t);
        let out = picked(s, d, t);
        lemma_picked_subsequence(i, d, t);
        assert forall|k: int| 0 <= k < out.len() implies s.contains(#[trigger] out[k]) by {
            if k < r.len() {
                assert(i.contains(r[k]));
                let m = choose|m: int| 0 <= m < i.len() && i[m] == r[k];
                assert(s[m] == out[k]);
            } else {
                assert(s[s.len() - 1] == out[k]);
            }
        }
        if ascending(dep_ids(s)) {
            let ids = dep_ids(s);
            assert(ascending(dep_ids(i))) by {
                assert forall|a: int, b: int| 0 <= a < b < dep_ids(i).len() implies lex_less(
                    #[trigger] dep_ids(i)[a],
                    #[trigger] dep_ids(i)[b],
                ) by {
                    assert(dep_ids(i)[a] == ids[a] && dep_ids(i)[b] == ids[b]);
                }
            }
            let oids = dep_ids(out);
            assert forall|a: int, b: int| 0 <= a < b < oids.len() implies lex_less(
                #[trigger] oids[a],
                #[trigger] oids[b],
            ) by {
                if b < r.len() {
                    assert(oids[a] == dep_ids(r)[a] && oids[b] == dep_ids(r)[b]);
                } else {
                    assert(i.contains(r[a]));
                    let m = choose|m: int| 0 <= m < i.len() && i[m] == r[a];
                    assert(oids[a] == ids[m]);
                    assert(oids[b] == ids[s.len() - 1]);
                }
            }
        }
    }
}

proof fn lemma_picked_len(s: Seq<Dep>, d: nat, t: nat)
    ensures
        tally(picked(s, d, t), true) == if tally(s, true) < d {
            tally(s, true)
        } else {
            d
        },
        tally(picked(s, d, t), false) == if tally(s, false) < t {
            tally(s, false)
        } else {
            t
        },
    decreases s.len(),
{
    if s.len() > 0 {
        lemma_picked_len(s.drop_last(), d, t);
        let r = picked(s.drop_last(), d, t);
        let out = picked(s, d, t);
        if out.len() != r.len() {
            assert(out.drop_last() =~= r);
        }
    }
}

/// Merges the entries of several manifests. The first result is the merged
/// list; the second says whether the cap made it shorter.
pub fn merge_dep_entries(sources: Vec<Vec<DepEntry>>, max_entries: usize) -> (r: (
    Vec<DepEntry>,
    bool,
))
    ensures
        deps(r.0@) == closed_under_parents(capped(merged(dep_sources(sources@)), max_entries as nat)),
        r.1 == (merged(dep_sources(sources@)).len() > max_entries),
{
    let ghost all = dep_sources(sources@);
    let mut entries: Vec<DepEntry> = Vec::new();
    let mut keys: Vec<Vec<char>> = Vec::new();
    let mut i: usize = 0;
    proof {
        assert(deps(entries@) =~= merged(all.take(0)));
        assert(char_seqs(keys@) =~= dep_ids(deps(entries@)));
    }
    while i < sources.len()
        invariant
            i <= sources@.len(),
            all == dep_sources(sources@),
            keyed(entries@, keys@),
            deps(entries@) == merged(all.take(i as int)),
        decreases sources@.len() - i,
    {
        let source = &sources[i];
        let ghost base = deps(entries@);
        let ghost src = deps(source@);
        let mut j: usize = 0;
        proof {
            assert(src.take(0) =~= Seq::empty());
        }
        while j < source.len()
            invariant
                j <= source@.len(),
                src == deps(source@),
                keyed(entries@, keys@),
                deps(entries@) == with_entries(base, src.take(j as int)),
            decreases source@.len() - j,
        {
            proof {
                assert(src.take(j + 1).drop_last() =~= src.take(j as int));
                assert(src.take(j + 1).last() == source@[j as int]@);
            }
            add_entry(&mut entries, &mut keys, &source[j]);
            j += 1;
        }
        proof {
            assert(src.take(j as int) =~= src);
            assert(all.take(i + 1).drop_last() =~= all.take(i as int));
            assert(all.take(i + 1).last() == src);
        }
        i += 1;
    }
    proof {
        assert(all.take(i as int) =~= all);
        lemma_tally_bound(deps(entries@));
    }
    let ghost full = merged(all);
    let truncated = entries.len() > max_entries;
    if truncated {
        let d = count_direct(&entries);
        let (qd, qt): (usize, usize) = if d >= max_entries {
            (max_entries, 0)
        } else {
            (d, max_entries - d)
        };
        proof {
            lemma_picked_subsequence(full, qd as nat, qt as nat);
        }
        let kept = pick_entries(entries, keys, qd, qt);
        entries = kept.0;
        keys = kept.1;
    }
    let ghost cut = capped(full, max_entries as nat);
    let ghost ids = dep_ids(cut);
    let mut out: Vec<DepEntry> = Vec::new();
    let mut k: usize = 0;
    proof {
        assert(deps(entries@) == cut);
    }
    while k < entries.len()
        invariant
            k <= entries@.len(),
            deps(entries@) == cut,
            ids == dep_ids(cut),
            ids == char_seqs(keys@),
            ascending(ids),
            out@.len() == k,
            forall|m: int| 0 <= m < k ==> (#[trigger] out@[m])@ == (Dep {
                parents: known_parents(cut[m].parents, ids),
                ..cut[m]
            }),
        decreases entries@.len() - k,
    {
        let mut e = copy_entry(&entries[k]);
        let ps = filter_parents(&e.parents, &keys);
        e.parents = ps;
        proof {
            assert(cut[k as int] == entries@[k as int]@);
        }
        out.push(e);
        k += 1;
    }
    proof {
        assert(deps(out@) =~= closed_under_parents(cut));
    }
    (out, truncated)
}

/// The merged list is in strictly ascending order of id, so no id occurs twice.
pub proof fn law_merged_is_sorted(sources: Seq<Seq<Dep>>)
    ensures
        ascending(dep_ids(merged(sources))),
    decreases sources.len(),
{
    if sources.len() > 0 {
        law_merged_is_sorted(sources.drop_last());
        lemma_with_entries_ascending(merged(sources.drop_last()), sources.last());
    }
}

proof fn lemma_with_entries_ascending(all: Seq<Dep>, source: Seq<Dep>)
    requires
        ascending(dep_ids(all)),
    ensures
        ascending(dep_ids(with_entries(all, source))),
    decreases source.len(),
{
    if source.len() > 0 {
        lemma_with_entries_ascending(all, source.drop_last());
        lemma_with_entry_ascending(with_entries(all, source.drop_last()), source.last());
    }
}

/// What a merge returns is in strictly ascending order of id, whatever was cut.
pub proof fn law_result_is_sorted(sources: Seq<Seq<Dep>>, max: nat)
    ensures
        ascending(dep_ids(closed_under_parents(capped(merged(sources), max)))),
{
    let s = merged(sources);
    law_merged_is_sorted(sources);
    let c = capped(s, max);
    if s.len() > max {
        let d = tally(s, true);
        if d >= max {
            lemma_picked_subsequence(s, max, 0);
        } else {
            lemma_picked_subsequence(s, d, (max - d) as nat);
        }
    }
    assert(dep_ids(closed_under_parents(c)) =~= dep_ids(c));
}

/// A cut list has exactly `max` entries, and every direct entry that fits: a
/// transitive entry is kept only where all direct ones are.
pub proof fn law_cut_prefers_direct(s: Seq<Dep>, max: nat)
    ensures
        capped(s, max).len() == if s.len() <= max {
            s.len()
        } else {
            max
        },
        tally(capped(s, max), true) == if tally(s, true) <= max {
            tally(s, true)
        } else {
            max
        },
        forall|k: int|
            0 <= k < capped(s, max).len() ==> s.contains(#[trigger] capped(s, max)[k]),
{
    lemma_tally_bound(s);
    if s.len() <= max {
        assert forall|k: int| 0 <= k < s.len() implies s.contains(#[trigger] s[k]) by {}
    } else {
        let d = tally(s, true);
        let (a, b) = if d >= max {
            (max, 0nat)
        } else {
            (d, (max - d) as nat)
        };
        lemma_picked_subsequence(s, a, b);
        lemma_picked_len(s, a, b);
        lemma_tally_bound(picked(s, a, b));
    }
}

proof fn lemma_known_parents(parents: Seq<Seq<char>>, ids: Seq<Seq<char>>)
    ensures
        forall|k: int|
            0 <= k < known_parents(parents, ids).len() ==> ids.contains(
                #[trigger] known_parents(parents, ids)[k],
            ),
    decreases parents.len(),
{
    if parents.len() > 0 {
        let r = known_parents(parents.drop_last(), ids);
        lemma_known_parents(parents.drop_last(), ids);
        assert forall|k: int| 0 <= k < known_parents(parents, ids).len() implies ids.contains(
            #[trigger] known_parents(parents, ids)[k],
        ) by {
            if k < r.len() {
                assert(known_parents(parents, ids)[k] == r[k]);
            }
        }
    }
}

/// No entry of a merged list names a parent that is not in the list.
pub proof fn law_no_dangling_parents(s: Seq<Dep>, i: int, k: int)
    requires
        0 <= i < s.len(),
        0 <= k < closed_under_parents(s)[i].parents.len(),
    ensures
        dep_ids(closed_under_parents(s)).contains(closed_under_parents(s)[i].parents[k]),
{
    lemma_known_parents(s[i].parents, dep_ids(s));
    assert(dep_ids(closed_under_parents(s)) =~= dep_ids(s));
}

/// An entry of id `x` is in the list.
pub open spec fn lists(s: Seq<Dep>, x: Seq<char>) -> bool {
    exists|k: int| 0 <= k < s.len() && (#[trigger] s[k]).id == x
}

/// A direct entry of id `x` is in the list.
pub open spec fn lists_direct(s: Seq<Dep>, x: Seq<char>) -> bool {
    exists|k: int| 0 <= k < s.len() && (#[trigger] s[k]).id == x && s[k].direct
}

/// An entry of id `x` with a url is in the list.
pub open spec fn lists_url(s: Seq<Dep>, x: Seq<char>) -> bool {
    exists|k: int| 0 <= k < s.len() && (#[trigger] s[k]).id == x && s[k].url is Some
}

proof fn lemma_with_entry_lists(all: Seq<Dep>, e: Dep, x: Seq<char>)
    requires
        ascending(dep_ids(all)),
    ensures
        lists(with_entry(all, e), x) <==> lists(all, x) || e.id == x,
        lists_direct(with_entry(all, e), x) <==> lists_direct(all, x) || (e.id == x && e.direct),
        lists_url(with_entry(all, e), x) <==> lists_url(all, x) || (e.id == x && e.url is Some),
{
    let out = with_entry(all, e);
    let p = rank(dep_ids(all), e.id) as int;
    lemma_rank_bound(dep_ids(all), e.id);
    if p < all.len() && all[p].id == e.id {
        assert(out[p].id == e.id);
        assert forall|k: int| 0 <= k < all.len() && k != p implies #[trigger] out[k] == all[k] by {}
        assert forall|k: int| 0 <= k < all.len() && k != p implies (#[trigger] all[k]).id != e.id by {
            lemma_less_irreflexive(e.id);
            assert(dep_ids(all)[k] == all[k].id);
            assert(dep_ids(all)[p] == all[p].id);
        }
        if lists(all, x) {
            let k = choose|k: int| 0 <= k < all.len() && (#[trigger] all[k]).id == x;
            assert(out[k].id == x);
        }
        if lists_direct(all, x) {
            let k = choose|k: int| 0 <= k < all.len() && (#[trigger] all[k]).id == x && all[k].direct;
            assert(out[k].id == x && out[k].direct);
        }
        if lists_url(all, x) {
            let k = choose|k: int|
                0 <= k < all.len() && (#[trigger] all[k]).id == x && all[k].url is Some;
            assert(out[k].id == x && out[k].url is Some);
        }
        if lists(out, x) && x != e.id {
            let k = choose|k: int| 0 <= k < out.len() && (#[trigger] out[k]).id == x;
            assert(all[k].id == x);
        }
        if lists_direct(out, x) {
            let k = choose|k: int| 0 <= k < out.len() && (#[trigger] out[k]).id == x && out[k].direct;
            assert(all[k].id == x);
        }
        if lists_url(out, x) {
            let k = choose|k: int|
                0 <= k < out.len() && (#[trigger] out[k]).id == x && out[k].url is Some;
            assert(all[k].id == x);
        }
    } else {
        assert(out[p] == e);
        assert forall|k: int| 0 <= k < all.len() implies out[if k < p {
            k
        } else {
            k + 1
        }] == #[trigger] all[k] by {}
        if lists(all, x) {
            let k = choose|k: int| 0 <= k < all.len() && (#[trigger] all[k]).id == x;
            assert(out[if k < p { k } else { k + 1 }].id == x);
        }
        if lists_direct(all, x) {
            let k = choose|k: int| 0 <= k < all.len() && (#[trigger] all[k]).id == x && all[k].direct;
            assert(out[if k < p { k } else { k + 1 }].id == x);
        }
        if lists_url(all, x) {
            let k = choose|k: int|
                0 <= k < all.len() && (#[trigger] all[k]).id == x && all[k].url is Some;
            assert(out[if k < p { k } else { k + 1 }].id == x);
        }
        if lists(out, x) {
            let k = choose|k: int| 0 <= k < out.len() && (#[trigger] out[k]).id == x;
            assert(k == p || out[k] == all[if k < p { k } else { k - 1 }]);
        }
        if lists_direct(out, x) {
            let k = choose|k: int| 0 <= k < out.len() && (#[trigger] out[k]).id == x && out[k].direct;
            assert(k == p || out[k] == all[if k < p { k } else { k - 1 }]);
        }
        if lists_url(out, x) {
            let k = choose|k: int|
                0 <= k < out.len() && (#[trigger] out[k]).id == x && out[k].url is Some;
            assert(k == p || out[k] == all[if k < p { k } else { k - 1 }]);
        }
    }
}

proof fn lemma_with_entries_lists(all: Seq<Dep>, source: Seq<Dep>, x: Seq<char>)
    requires
        ascending(dep_ids(all)),
    ensures
        lists(with_entries(all, source), x) <==> lists(all, x) || lists(source, x),
        lists_direct(with_entries(all, source), x) <==> lists_direct(all, x) || lists_direct(source, x),
        lists_url(with_entries(all, source), x) <==> lists_url(all, x) || lists_url(source, x),
    decreases source.len(),
{
    if source.len() > 0 {
        let i = source.drop_last();
        let e = source.last();
        lemma_with_entries_lists(all, i, x);
        lemma_with_entries_ascending(all, i);
        lemma_with_entry_lists(with_entries(all, i), e, x);
        assert(source[source.len() - 1] == e);
        assert forall|k: int| 0 <= k < i.len() implies #[trigger] i[k] == source[k] by {}
        if lists(i, x) {
            let k = choose|k: int| 0 <= k < i.len() && (#[trigger] i[k]).id == x;
            assert(source[k].id == x);
        }
        if lists_direct(i, x) {
            let k = choose|k: int| 0 <= k < i.len() && (#[trigger] i[k]).id == x && i[k].direct;
            assert(source[k].id == x);
        }
        if lists_url(i, x) {
            let k = choose|k: int| 0 <= k < i.len() && (#[trigger] i[k]).id == x && i[k].url is Some;
            assert(source[k].id == x);
        }
        if lists(source, x) && e.id != x {
            let k = choose|k: int| 0 <= k < source.len() && (#[trigger] source[k]).id == x;
            assert(i[k].id == x);
        }
        if lists_direct(source, x) && !(e.id == x && e.direct) {
            let k = choose|k: int|
                0 <= k < source.len() && (#[trigger] source[k]).id == x && source[k].direct;
            assert(i[k].id == x);
        }
        if lists_url(source, x) && !(e.id == x && e.url is Some) {
            let k = choose|k: int|
                0 <= k < source.len() && (#[trigger] source[k]).id == x && source[k].url is Some;
            assert(i[k].id == x);
        }
    }
}

/// Merging loses nothing: an id is in the merged list exactly where a source
/// has it, its entry is direct exactly where one of them is, and it carries a
/// url exactly where one of them does.
pub proof fn law_merge_loses_nothing(sources: Seq<Seq<Dep>>, x: Seq<char>)
    ensures
        lists(merged(sources), x) <==> exists|i: int|
            0 <= i < sources.len() && lists(#[trigger] sources[i], x),
        lists_direct(merged(sources), x) <==> exists|i: int|
            0 <= i < sources.len() && lists_direct(#[trigger] sources[i], x),
        lists_url(merged(sources), x) <==> exists|i: int|
            0 <= i < sources.len() && lists_url(#[trigger] sources[i], x),
    decreases sources.len(),
{
    if sources.len() > 0 {
        let d = sources.drop_last();
        law_merge_loses_nothing(d, x);
        law_merged_is_sorted(d);
        lemma_with_entries_lists(merged(d), sources.last(), x);
        assert(sources[sources.len() - 1] == sources.last());
        assert forall|i: int| 0 <= i < d.len() implies #[trigger] d[i] == sources[i] by {}
        if exists|i: int| 0 <= i < d.len() && lists(#[trigger] d[i], x) {
            let i = choose|i: int| 0 <= i < d.len() && lists(#[trigger] d[i], x);
            assert(lists(sources[i], x));
        }
        if exists|i: int| 0 <= i < d.len() && lists_direct(#[trigger] d[i], x) {
            let i = choose|i: int| 0 <= i < d.len() && lists_direct(#[trigger] d[i], x);
            assert(lists_direct(sources[i], x));
        }
        if exists|i: int| 0 <= i < d.len() && lists_url(#[trigger] d[i], x) {
            let i = choose|i: int| 0 <= i < d.len() && lists_url(#[trigger] d[i], x);
            assert(lists_url(sources[i], x));
        }
        if exists|i: int| 0 <= i < sources.len() && lists(#[trigger] sources[i], x) {
            let i = choose|i: int| 0 <= i < sources.len() && lists(#[trigger] sources[i], x);
            assert(i < d.len() ==> lists(d[i], x));
        }
        if exists|i: int| 0 <= i < sources.len() && lists_direct(#[trigger] sources[i], x) {
            let i = choose|i: int| 0 <= i < sources.len() && lists_direct(#[trigger] sources[i], x);
            assert(i < d.len() ==> lists_direct(d[i], x));
        }
        if exists|i: int| 0 <= i < sources.len() && lists_url(#[trigger] sources[i], x) {
            let i = choose|i: int| 0 <= i < sources.len() && lists_url(#[trigger] sources[i], x);
            assert(i < d.len() ==> lists_url(d[i], x));
        }
    }
}

/// An entry of id `x` with this url and this version is in the list.
pub open spec fn tells_pair(s: Seq<Dep>, x: Seq<char>, url: Seq<char>, version: Seq<char>) -> bool {
    exists|k: int|
        0 <= k < s.len() && (#[trigger] s[k]).id == x && s[k].url == Some(url) && s[k].version
            == Some(version)
}

proof fn lemma_with_entry_pairs(
    all: Seq<Dep>,
    e: Dep,
    x: Seq<char>,
    url: Seq<char>,
    version: Seq<char>,
)
    requires
        tells_pair(with_entry(all, e), x, url, version),
    ensures
        tells_pair(all, x, url, version) || (e.id == x && e.url == Some(url) && e.version == Some(
            version,
        )),
{
    let out = with_entry(all, e);
    let p = rank(dep_ids(all), e.id) as int;
    lemma_rank_bound(dep_ids(all), e.id);
    let k = choose|k: int|
        0 <= k < out.len() && (#[trigger] out[k]).id == x && out[k].url == Some(url)
            && out[k].version == Some(version);
    if p < all.len() && all[p].id == e.id {
        if k == p {
            assert(out[p] == absorb(all[p], e));
            if all[p].url == Some(url) && all[p].version == Some(version) {
                assert(tells_pair(all, x, url, version));
            }
        } else {
            assert(out[k] == all[k]);
        }
    } else if k < p {
        assert(out[k] == all[k]);
    } else if k > p {
        assert(out[k] == all[k - 1]);
    }
}

proof fn lemma_with_entries_pairs(
    all: Seq<Dep>,
    source: Seq<Dep>,
    x: Seq<char>,
    url: Seq<char>,
    version: Seq<char>,
)
    requires
        tells_pair(with_entries(all, source), x, url, version),
    ensures
        tells_pair(all, x, url, version) || tells_pair(source, x, url, version),
    decreases source.len(),
{
    if source.len() > 0 {
        let d = source.drop_last();
        lemma_with_entry_pairs(with_entries(all, d), source.last(), x, url, version);
        assert(source[source.len() - 1] == source.last());
        if tells_pair(with_entries(all, d), x, url, version) {
            lemma_with_entries_pairs(all, d, x, url, version);
            if tells_pair(d, x, url, version) {
                let k = choose|k: int|
                    0 <= k < d.len() && (#[trigger] d[k]).id == x && d[k].url == Some(url)
                        && d[k].version == Some(version);
                assert(source[k] == d[k]);
            }
        }
    }
}

/// A url and a version that stand together in a merged list stood together in one of
/// the sources: vulnerabilities are never looked up for a version of another source.
pub proof fn law_url_and_version_belong_together(
    sources: Seq<Seq<Dep>>,
    x: Seq<char>,
    url: Seq<char>,
    version: Seq<char>,
)
    requires
        tells_pair(merged(sources), x, url, version),
    ensures
        exists|i: int|
            0 <= i < sources.len() && tells_pair(#[trigger] sources[i], x, url, version),
    decreases sources.len(),
{
    if sources.len() > 0 {
        let d = sources.drop_last();
        lemma_with_entries_pairs(merged(d), sources.last(), x, url, version);
        assert(sources[sources.len() - 1] == sources.last());
        if tells_pair(merged(d), x, url, version) {
            law_url_and_version_belong_together(d, x, url, version);
            let i = choose|i: int|
                0 <= i < d.len() && tells_pair(#[trigger] d[i], x, url, version);
            assert(sources[i] == d[i]);
        }
    }
}

/// What is told first stays: an entry keeps its own id, name, type and scope, and its own
/// url, version and parents where it has them. What it lacks is taken from one that follows:
/// a url only together with its version, and a version only from the same source. An entry
/// that one of them calls direct is direct.
pub proof fn law_the_first_telling_stays(prev: Dep, next: Dep)
    ensures
        ({
            let r = absorb(prev, next);
            &&& r.id == prev.id && r.name == prev.name && r.group == prev.group && r.type_
                == prev.type_ && r.scope == prev.scope
            &&& r.direct <==> prev.direct || next.direct
            &&& prev.url is Some ==> r.url == prev.url
            &&& prev.url is None && next.url is Some ==> r.url == next.url && r.version
                == next.version
            &&& prev.url is None && next.url is None ==> r.url is None
            &&& prev.version is Some && (prev.url is Some || next.url is None) ==> r.version
                == prev.version
            &&& prev.version is None && prev.url == next.url ==> r.version == next.version
            &&& prev.version is None && prev.url is Some && next.url != prev.url ==> r.version
                is None
            &&& prev.parents.len() > 0 ==> r.parents == prev.parents
            &&& prev.parents.len() == 0 ==> r.parents == next.parents
        }),
{
}

proof fn lemma_picked_has(s: Seq<Dep>, d: nat, t: nat, i: int)
    requires
        0 <= i < s.len(),
        tally(s.take(i), s[i].direct) < (if s[i].direct {
            d
        } else {
            t
        }),
    ensures
        picked(s, d, t).contains(s[i]),
    decreases s.len(),
{
    let r = picked(s.drop_last(), d, t);
    let out = picked(s, d, t);
    if i == s.len() - 1 {
        assert(s.take(i) =~= s.drop_last());
        assert(out[r.len() as int] == s[i]);
    } else {
        let dl = s.drop_last();
        assert(dl.take(i) =~= s.take(i));
        assert(dl[i] == s[i]);
        lemma_picked_has(dl, d, t, i);
        let k = choose|k: int| 0 <= k < r.len() && r[k] == s[i];
        assert(out[k] == s[i]);
    }
}

proof fn lemma_tally_front(s: Seq<Dep>, i: int, direct: bool)
    requires
        0 <= i <= s.len(),
    ensures
        tally(s.take(i), direct) <= tally(s, direct),
        i < s.len() && s[i].direct == direct ==> tally(s.take(i), direct) < tally(s, direct),
    decreases s.len(),
{
    if i == s.len() {
        assert(s.take(i) =~= s);
    } else {
        let d = s.drop_last();
        assert(d.take(i) =~= s.take(i));
        lemma_tally_front(d, i, direct);
        if i < d.len() {
            assert(d[i] == s[i]);
        } else {
            assert(s.take(i) =~= d);
        }
    }
}

/// Of the direct entries the first ones are kept, as many as fit; of the others the first
/// ones that then fit still.
pub proof fn law_cut_keeps_the_first(s: Seq<Dep>, max: nat, i: int)
    requires
        0 <= i < s.len(),
    ensures
        s[i].direct && tally(s.take(i), true) < max ==> capped(s, max).contains(s[i]),
        !s[i].direct && tally(s, true) + tally(s.take(i), false) < max ==> capped(
            s,
            max,
        ).contains(s[i]),
        s.len() <= max ==> capped(s, max) == s,
{
    if s.len() <= max {
        assert(s.contains(s[i]));
    } else {
        let d = tally(s, true);
        lemma_tally_front(s, i, s[i].direct);
        if d >= max {
            if s[i].direct && tally(s.take(i), true) < max {
                lemma_picked_has(s, max, 0, i);
            }
        } else if s[i].direct || tally(s.take(i), false) < max - d {
            lemma_picked_has(s, d, (max - d) as nat, i);
        }
    }
}

/// A parent that is in the list stays a parent, and an entry keeps all else.
pub proof fn law_listed_parents_stay(s: Seq<Dep>, i: int, parent: Seq<char>)
    requires
        0 <= i < s.len(),
    ensures
        closed_under_parents(s).len() == s.len(),
        closed_under_parents(s)[i].parents.contains(parent) <==> s[i].parents.contains(parent)
            && dep_ids(s).contains(parent),
        closed_under_parents(s)[i].id == s[i].id,
        closed_under_parents(s)[i].name == s[i].name,
        closed_under_parents(s)[i].version == s[i].version,
        closed_under_parents(s)[i].direct == s[i].direct,
        closed_under_parents(s)[i].url == s[i].url,
        closed_under_parents(s)[i].type_ == s[i].type_,
{
    lemma_known_parent(s[i].parents, dep_ids(s), parent);
}

proof fn lemma_known_parent(parents: Seq<Seq<char>>, ids: Seq<Seq<char>>, x: Seq<char>)
    ensures
        known_parents(parents, ids).contains(x) <==> parents.contains(x) && ids.contains(x),
    decreases parents.len(),
{
    if parents.len() > 0 {
        let d = parents.drop_last();
        lemma_known_parent(d, ids, x);
        let r = known_parents(d, ids);
        let out = known_parents(parents, ids);
        assert(parents[parents.len() - 1] == parents.last());
        if d.contains(x) {
            let k = choose|k: int| 0 <= k < d.len() && d[k] == x;
            assert(parents[k] == x);
        }
        if parents.contains(x) && x != parents.last() {
            let k = choose|k: int| 0 <= k < parents.len() && parents[k] == x;
            assert(d[k] == x);
        }
        if ids.contains(parents.last()) {
            assert(out[r.len() as int] == parents.last());
            if r.contains(x) {
                let k = choose|k: int| 0 <= k < r.len() && r[k] == x;
                assert(out[k] == x);
            }
            if out.contains(x) && x != parents.last() {
                let k = choose|k: int| 0 <= k < out.len() && out[k] == x;
                assert(r[k] == x);
            }
        }
    }
}

} // verus!
