//! The index of archive folders that documents can be filed into.
use vstd::prelude::*;
use crate::paths::components;
use crate::paths::path_components;
use crate::paths::render;
use crate::paths::render_range;
use crate::paths::starts_with_components;
use crate::paths::strip_prefix;
use crate::paths::views;
use crate::text::byte_len;
use crate::text::chars_of;
use crate::text::string_of;

verus! {

/// Most results a query returns.
pub const MAX_RESULTS: usize = 50;

/// Longest match, in characters, that nucleo's 16-bit score of a pattern
/// atom can hold: the first matched character adds at most 34 to it and
/// each further one at most 25, so a match of 2621 characters scores at
/// most 65534.
pub const MAX_SCORED_CHARS: usize = 2621;

/// Longest query, in characters, whose summed score fits nucleo's 32-bit
/// total: each character of the pattern adds at most 34 to it.
pub const MAX_QUERY_CHARS: usize = 126322567;

/// An entry met while walking a directory tree.
#[derive(Debug, Clone)]
pub struct WalkEntry {
    /// Full path of the entry.
    pub path: String,
    /// Whether the entry is a directory.
    pub is_dir: bool,
}

/// Why the index of a tree could not be built.
#[derive(Debug, Clone)]
pub enum DestError {
    /// The walk of the tree failed at some entry.
    Walk,
    /// The walk yielded an entry that is not below the root.
    OutsideRoot(String),
    /// A folder path is too long to be searched (more than `u32::MAX`
    /// bytes).
    TooLong(String),
}

/// `DestError` in terms of path text.
pub enum DestFault {
    Walk,
    OutsideRoot(Seq<char>),
    TooLong(Seq<char>),
}

/// The fault an error stands for.
pub open spec fn fault_of(e: DestError) -> DestFault {
    match e {
        DestError::Walk => DestFault::Walk,
        DestError::OutsideRoot(p) => DestFault::OutsideRoot(p@),
        DestError::TooLong(p) => DestFault::TooLong(p@),
    }
}

/// The folders below `root` among the walked entries, as paths relative to
/// `root`, in walk order; the first failed entry, or the first directory
/// not below `root`, makes the whole walk fail.
pub open spec fn subdirs(root: Seq<char>, entries: Seq<Option<WalkEntry>>) -> Result<
    Seq<Seq<char>>,
    DestFault,
>
    decreases entries.len(),
{
    if entries.len() == 0 {
        Ok(seq![])
    } else {
        match subdirs(root, entries.drop_last()) {
            Err(f) => Err(f),
            Ok(dirs) => match entries.last() {
                None => Err(DestFault::Walk),
                Some(e) => if !e.is_dir {
                    Ok(dirs)
                } else {
                    match strip_prefix(e.path@, root) {
                        None => Err(DestFault::OutsideRoot(e.path@)),
                        Some(rest) => if byte_len(render(rest)) > u32::MAX {
                            Err(DestFault::TooLong(render(rest)))
                        } else {
                            Ok(dirs.push(render(rest)))
                        },
                    }
                },
            },
        }
    }
}

/// The text that reports a failed index build of the tree at `root`.
pub open spec fn fault_text(f: DestFault, root: Seq<char>) -> Seq<char> {
    match f {
        DestFault::Walk => "failed to walk directory: "@ + root,
        DestFault::OutsideRoot(p) => "entry "@ + p + " is not under root "@ + root,
        DestFault::TooLong(p) => "folder path too long to search: "@ + p,
    }
}

impl DestError {
    /// The text that reports this error for the tree at `root`.
    pub fn message(&self, root: &str) -> (r: String)
        ensures
            r@ == fault_text(fault_of(*self), root@),
    {
        match self {
            DestError::Walk => String::from_str("failed to walk directory: ").concat(root),
            DestError::OutsideRoot(p) => String::from_str("entry ").concat(p.as_str()).concat(
                " is not under root ",
            ).concat(root),
            DestError::TooLong(p) => String::from_str("folder path too long to search: ").concat(
                p.as_str(),
            ),
        }
    }
}

/// Score nucleo's matcher gives `item` for the query `pattern` (the pattern
/// parsed ignoring case with smart normalization, the matcher set up for
/// paths); `None` when the item does not match.
pub uninterp spec fn path_match_score(pattern: Seq<char>, item: Seq<char>) -> Option<u32>;

/// Whether nucleo can score `item` against the query `pattern` without
/// overflowing: the pattern's total stays within `MAX_QUERY_CHARS`, and
/// each atom's match is no longer than the pattern (in characters) nor
/// than the item (in bytes, at least as many as the characters matched).
pub open spec fn scorable(pattern: Seq<char>, item: Seq<char>) -> bool {
    pattern.len() <= MAX_QUERY_CHARS && (pattern.len() <= MAX_SCORED_CHARS || byte_len(item)
        <= MAX_SCORED_CHARS)
}

/// Whether every folder can be scored against the query `pattern`.
pub open spec fn query_fits(dirs: Seq<Seq<char>>, pattern: Seq<char>) -> bool {
    forall|i: int| 0 <= i < dirs.len() ==> scorable(pattern, #[trigger] dirs[i])
}

/// Scores every item against the query `pattern` with nucleo_matcher:
/// `Pattern::parse(pattern, CaseMatching::Ignore, Normalization::Smart)`
/// and `Pattern::score` with a `Matcher::new(Config::DEFAULT.match_paths())`.
///
/// Trusted: the contract claims one score per item, in order, each the
/// named result for that item; nothing is stated of what the scores are.
/// Items longer than `u32::MAX` bytes are left out: the matcher asserts on
/// them. So are items that are not `scorable` against the pattern: the
/// matcher adds to a 16-bit score per atom without saturating, which a
/// match longer than `MAX_SCORED_CHARS` characters can overflow, and sums
/// the atoms' scores in 32 bits.
#[verifier::external_body]
fn match_scores(pattern: &str, items: &Vec<String>) -> (r: Vec<Option<u32>>)
    requires
        forall|i: int|
            0 <= i < items.len() ==> byte_len(items[i]@) <= u32::MAX && scorable(
                pattern@,
                items[i]@,
            ),
    ensures
        r.len() == items.len(),
        forall|i: int| 0 <= i < items.len() ==> r[i] == path_match_score(pattern@, items[i]@),
{
    let mut matcher = nucleo_matcher::Matcher::new(nucleo_matcher::Config::DEFAULT.match_paths());
    let pat = nucleo_matcher::pattern::Pattern::parse(
        pattern,
        nucleo_matcher::pattern::CaseMatching::Ignore,
        nucleo_matcher::pattern::Normalization::Smart,
    );
    let mut buf = Vec::new();
    items.iter().map(|item| pat.score(nucleo_matcher::Utf32Str::new(item, &mut buf), &mut matcher)).collect()
}

/// The folders that have a score, each with it, in index order (`scores`
/// holds one entry per folder).
pub open spec fn matches_of(dirs: Seq<Seq<char>>, scores: Seq<Option<u32>>) -> Seq<
    (Seq<char>, u32),
>
    decreases dirs.len(),
{
    if dirs.len() == 0 || scores.len() == 0 {
        seq![]
    } else {
        let rest = matches_of(dirs.drop_last(), scores.drop_last());
        match scores.last() {
            Some(s) => rest.push((dirs.last(), s)),
            None => rest,
        }
    }
}

/// Each folder's score for the query `pattern`.
pub open spec fn pattern_scores(dirs: Seq<Seq<char>>, pattern: Seq<char>) -> Seq<Option<u32>> {
    Seq::new(dirs.len(), |i: int| path_match_score(pattern, dirs[i]))
}

/// Where `x` goes in the ranked list `s` when it came before all of `s` in
/// the input: ahead of the first entry that does not score higher.
pub open spec fn rank_slot(s: Seq<(Seq<char>, u32)>, x: (Seq<char>, u32)) -> nat
    decreases s.len(),
{
    if s.len() == 0 {
        0
    } else if s[0].1 > x.1 {
        1 + rank_slot(s.drop_first(), x)
    } else {
        0
    }
}

/// `s` ordered by descending score; equal scores keep their order.
pub open spec fn ranked(s: Seq<(Seq<char>, u32)>) -> Seq<(Seq<char>, u32)>
    decreases s.len(),
{
    if s.len() == 0 {
        seq![]
    } else {
        let rest = ranked(s.drop_first());
        rest.insert(rank_slot(rest, s[0]) as int, s[0])
    }
}

/// The first `MAX_RESULTS` of `s` (all of them when there are fewer).
pub open spec fn top<T>(s: Seq<T>) -> Seq<T> {
    if s.len() <= MAX_RESULTS {
        s
    } else {
        s.take(MAX_RESULTS as int)
    }
}

/// The best `MAX_RESULTS` of the folders that have a score, best first;
/// equal scores keep index order.
pub open spec fn best_matches(dirs: Seq<Seq<char>>, scores: Seq<Option<u32>>) -> Seq<Seq<char>> {
    top(ranked(matches_of(dirs, scores))).map_values(|p: (Seq<char>, u32)| p.0)
}

/// What a query for `pattern` returns: for an empty pattern the first
/// folders of the index; otherwise the best-scoring matches, best first.
pub open spec fn query_result(dirs: Seq<Seq<char>>, pattern: Seq<char>) -> Seq<Seq<char>> {
    if pattern.len() == 0 {
        top(dirs)
    } else {
        best_matches(dirs, pattern_scores(dirs, pattern))
    }
}

/// The text of each string.
pub open spec fn texts(s: Seq<String>) -> Seq<Seq<char>> {
    s.map_values(|x: String| x@)
}

/// The text and score of each pair.
pub open spec fn scored_texts(s: Seq<(String, u32)>) -> Seq<(Seq<char>, u32)> {
    s.map_values(|p: (String, u32)| (p.0@, p.1))
}

/// Whether every folder path can be searched.
pub open spec fn searchable(dirs: Seq<String>) -> bool {
    forall|i: int| 0 <= i < dirs.len() ==> byte_len((#[trigger] dirs[i])@) <= u32::MAX
}

/// Fuzzy-searchable index of the subdirectories of the archive root.
#[derive(Debug)]
pub struct DestIndex {
    dirs: Vec<String>,
}

proof fn lemma_rank_slot_is(s: Seq<(Seq<char>, u32)>, x: (Seq<char>, u32), j: int)
    requires
        0 <= j <= s.len(),
        forall|k: int| 0 <= k < j ==> (#[trigger] s[k]).1 > x.1,
        j < s.len() ==> !(s[j].1 > x.1),
    ensures
        rank_slot(s, x) == j,
    decreases j,
{
    if j > 0 {
        let t = s.drop_first();
        assert forall|k: int| 0 <= k < j - 1 implies (#[trigger] t[k]).1 > x.1 by {
            assert(t[k] == s[k + 1]);
        }
        if j - 1 < t.len() {
            assert(t[j - 1] == s[j]);
        }
        assert(s[0].1 > x.1);
        lemma_rank_slot_is(t, x, j - 1);
    }
}

proof fn lemma_subdirs_fail_stays(root: Seq<char>, entries: Seq<Option<WalkEntry>>, i: int)
    requires
        0 <= i <= entries.len(),
        subdirs(root, entries.take(i)) is Err,
    ensures
        subdirs(root, entries) == subdirs(root, entries.take(i)),
    decreases entries.len() - i,
{
    if i < entries.len() {
        assert(entries.take(i + 1).drop_last() =~= entries.take(i));
        lemma_subdirs_fail_stays(root, entries, i + 1);
    } else {
        assert(entries.take(i) =~= entries);
    }
}

proof fn lemma_rank_slot_props(s: Seq<(Seq<char>, u32)>, x: (Seq<char>, u32))
    ensures
        rank_slot(s, x) <= s.len(),
        forall|k: int| 0 <= k < rank_slot(s, x) ==> (#[trigger] s[k]).1 > x.1,
        rank_slot(s, x) < s.len() ==> s[rank_slot(s, x) as int].1 <= x.1,
    decreases s.len(),
{
    if s.len() > 0 && s[0].1 > x.1 {
        let t = s.drop_first();
        lemma_rank_slot_props(t, x);
        assert forall|k: int| 0 <= k < rank_slot(s, x) implies (#[trigger] s[k]).1 > x.1 by {
            if k > 0 {
                assert(s[k] == t[k - 1]);
            }
        }
        if rank_slot(s, x) < s.len() {
            assert(s[rank_slot(s, x) as int] == t[rank_slot(t, x) as int]);
        }
    }
}

/// Ranking reorders the matches, best score first.
pub proof fn lemma_ranked(s: Seq<(Seq<char>, u32)>)
    ensures
        ranked(s).to_multiset() == s.to_multiset(),
        ranked(s).len() == s.len(),
        forall|i: int, j: int|
            0 <= i < j < ranked(s).len() ==> (#[trigger] ranked(s)[i]).1 >= (#[trigger] ranked(
                s,
            )[j]).1,
    decreases s.len(),
{
    broadcast use vstd::seq_lib::group_to_multiset_ensures;

    if s.len() > 0 {
        let rest = ranked(s.drop_first());
        let x = s[0];
        lemma_ranked(s.drop_first());
        lemma_rank_slot_props(rest, x);
        let k = rank_slot(rest, x) as int;
        let r = rest.insert(k, x);
        rest.insert_ensures(k, x);
        assert forall|i: int, j: int| 0 <= i < j < r.len() implies (#[trigger] r[i]).1 >= (
        #[trigger] r[j]).1 by {
            if j < k {
                assert(r[i] == rest[i] && r[j] == rest[j]);
            } else if j == k {
                assert(r[i] == rest[i]);
            } else if i > k {
                assert(r[i] == rest[i - 1] && r[j] == rest[j - 1]);
            } else if i == k {
                assert(r[j] == rest[j - 1]);
                if j - 1 > k {
                    assert(rest[k].1 >= rest[j - 1].1);
                }
            } else {
                assert(r[i] == rest[i] && r[j] == rest[j - 1]);
            }
        }
        assert(s =~= seq![x] + s.drop_first());
        assert(s.drop_first().to_multiset().insert(x) =~= s.to_multiset()) by {
            assert(s =~= s.drop_first().insert(0, x));
        }
    }
}

/// Every match is a folder of the index together with that folder's score.
proof fn lemma_matches_of(dirs: Seq<Seq<char>>, scores: Seq<Option<u32>>)
    requires
        dirs.len() == scores.len(),
    ensures
        forall|k: int|
            0 <= k < matches_of(dirs, scores).len() ==> exists|i: int|
                0 <= i < dirs.len() && dirs[i] == (#[trigger] matches_of(dirs, scores)[k]).0
                    && scores[i] == Some(matches_of(dirs, scores)[k].1),
    decreases dirs.len(),
{
    if dirs.len() > 0 {
        let init = dirs.drop_last();
        let si = scores.drop_last();
        lemma_matches_of(init, si);
        let rest = matches_of(init, si);
        let m = matches_of(dirs, scores);
        assert forall|k: int| 0 <= k < m.len() implies exists|i: int|
            0 <= i < dirs.len() && dirs[i] == (#[trigger] m[k]).0 && scores[i] == Some(m[k].1) by {
            if k < rest.len() {
                assert(m[k] == rest[k]);
                let w = choose|w: int|
                    0 <= w < init.len() && init[w] == rest[k].0 && si[w] == Some(rest[k].1);
                assert(dirs[w] == init[w] && scores[w] == si[w]);
            } else {
                let last = dirs.len() - 1;
                assert(m[k].0 == dirs[last]);
                assert(scores[last] == Some(m[k].1));
            }
        }
    }
}

/// A query returns at most `MAX_RESULTS` folders, all of them folders of
/// the index.
pub proof fn lemma_query_within(dirs: Seq<Seq<char>>, pattern: Seq<char>)
    ensures
        query_result(dirs, pattern).len() <= MAX_RESULTS,
        forall|i: int|
            0 <= i < query_result(dirs, pattern).len() ==> dirs.contains(
                #[trigger] query_result(dirs, pattern)[i],
            ),
{
    broadcast use vstd::seq_lib::group_to_multiset_ensures;

    let r = query_result(dirs, pattern);
    if pattern.len() == 0 {
        assert forall|i: int| 0 <= i < r.len() implies dirs.contains(#[trigger] r[i]) by {
            assert(r[i] == dirs[i]);
        }
    } else {
        let sc = pattern_scores(dirs, pattern);
        let m = matches_of(dirs, sc);
        lemma_matches_of(dirs, sc);
        lemma_ranked(m);
        let t = top(ranked(m));
        assert forall|i: int| 0 <= i < r.len() implies dirs.contains(#[trigger] r[i]) by {
            assert(r[i] == t[i].0);
            assert(t[i] == ranked(m)[i]);
            assert(ranked(m).contains(t[i]));
            assert(ranked(m).to_multiset().count(t[i]) > 0);
            assert(m.to_multiset().count(t[i]) > 0);
            assert(m.contains(t[i]));
            let k = choose|k: int| 0 <= k < m.len() && m[k] == t[i];
            let w = choose|w: int|
                0 <= w < dirs.len() && dirs[w] == m[k].0 && sc[w] == Some(m[k].1);
            assert(dirs.contains(m[k].0));
        }
    }
}

proof fn lemma_matches_of_complete(dirs: Seq<Seq<char>>, scores: Seq<Option<u32>>, i: int)
    requires
        dirs.len() == scores.len(),
        0 <= i < dirs.len(),
        scores[i] is Some,
    ensures
        matches_of(dirs, scores).contains((dirs[i], scores[i]->0)),
    decreases dirs.len(),
{
    let m = matches_of(dirs, scores);
    let last = dirs.len() - 1;
    if i == last {
        assert(m[m.len() - 1] == (dirs[i], scores[i]->0));
    } else {
        let init = dirs.drop_last();
        let si = scores.drop_last();
        assert(init[i] == dirs[i] && si[i] == scores[i]);
        lemma_matches_of_complete(init, si, i);
        let rest = matches_of(init, si);
        let k = choose|k: int| 0 <= k < rest.len() && rest[k] == (dirs[i], scores[i]->0);
        assert(m[k] == rest[k]);
    }
}

/// A non-empty query leaves out no matching folder that scores higher
/// than its last result: a matching folder that is not among the results
/// means that `MAX_RESULTS` were returned, and it scores no higher than the
/// last of them.
pub proof fn lemma_query_leaves_out_only_worse(
    dirs: Seq<Seq<char>>,
    pattern: Seq<char>,
    d: Seq<char>,
)
    requires
        pattern.len() > 0,
        dirs.contains(d),
        path_match_score(pattern, d) is Some,
        !query_result(dirs, pattern).contains(d),
    ensures
        query_result(dirs, pattern).len() == MAX_RESULTS,
        path_match_score(pattern, d)->0 <= path_match_score(
            pattern,
            query_result(dirs, pattern).last(),
        )->0,
{
    broadcast use vstd::seq_lib::group_to_multiset_ensures;

    let r = query_result(dirs, pattern);
    let sc = pattern_scores(dirs, pattern);
    let m = matches_of(dirs, sc);
    let rk = ranked(m);
    lemma_matches_of(dirs, sc);
    lemma_ranked(m);
    let w = choose|w: int| 0 <= w < dirs.len() && dirs[w] == d;
    assert(sc[w] == path_match_score(pattern, d));
    let pair = (d, path_match_score(pattern, d)->0);
    lemma_matches_of_complete(dirs, sc, w);
    assert(m.to_multiset().count(pair) > 0);
    assert(rk.contains(pair));
    let p = choose|p: int| 0 <= p < rk.len() && rk[p] == pair;
    let t = top(rk);
    if p < MAX_RESULTS {
        if rk.len() <= MAX_RESULTS {
            assert(t == rk);
        }
        assert(t[p] == pair);
        assert(r[p] == d);
        assert(false);
    }
    assert(t =~= rk.take(MAX_RESULTS as int));
    assert(r.len() == MAX_RESULTS);
    let l = MAX_RESULTS - 1;
    assert(r.last() == rk[l].0);
    assert(rk[l].1 >= rk[p].1);
    assert(rk.contains(rk[l]));
    assert(m.to_multiset().count(rk[l]) > 0);
    let k = choose|k: int| 0 <= k < m.len() && m[k] == rk[l];
    let v = choose|v: int| 0 <= v < dirs.len() && dirs[v] == m[k].0 && sc[v] == Some(m[k].1);
    assert(path_match_score(pattern, r.last()) == Some(rk[l].1));
}

/// How often `x` occurs in `s`.
pub open spec fn occurrences(s: Seq<Seq<char>>, x: Seq<char>) -> nat
    decreases s.len(),
{
    if s.len() == 0 {
        0
    } else {
        occurrences(s.drop_last(), x) + if s.last() == x {
            1nat
        } else {
            0nat
        }
    }
}

/// How often `x` occurs as the folder of a scored pair in `s`.
pub open spec fn pair_occurrences(s: Seq<(Seq<char>, u32)>, x: Seq<char>) -> nat
    decreases s.len(),
{
    if s.len() == 0 {
        0
    } else {
        pair_occurrences(s.drop_last(), x) + if s.last().0 == x {
            1nat
        } else {
            0nat
        }
    }
}

pub(crate) proof fn lemma_occurrences_append(a: Seq<Seq<char>>, b: Seq<Seq<char>>, x: Seq<char>)
    ensures
        occurrences(a + b, x) == occurrences(a, x) + occurrences(b, x),
    decreases b.len(),
{
    if b.len() == 0 {
        assert(a + b =~= a);
    } else {
        assert((a + b).drop_last() =~= a + b.drop_last());
        lemma_occurrences_append(a, b.drop_last(), x);
    }
}

proof fn lemma_pair_occurrences_append(
    a: Seq<(Seq<char>, u32)>,
    b: Seq<(Seq<char>, u32)>,
    x: Seq<char>,
)
    ensures
        pair_occurrences(a + b, x) == pair_occurrences(a, x) + pair_occurrences(b, x),
    decreases b.len(),
{
    if b.len() == 0 {
        assert(a + b =~= a);
    } else {
        assert((a + b).drop_last() =~= a + b.drop_last());
        lemma_pair_occurrences_append(a, b.drop_last(), x);
    }
}

proof fn lemma_pair_occurrences_first(y: (Seq<char>, u32), x: Seq<char>)
    ensures
        pair_occurrences(seq![y], x) == if y.0 == x {
            1nat
        } else {
            0nat
        },
{
    assert(seq![y].drop_last() =~= Seq::<(Seq<char>, u32)>::empty());
    assert(seq![y].last() == y);
    assert(pair_occurrences(Seq::<(Seq<char>, u32)>::empty(), x) == 0);
}

proof fn lemma_ranked_occurrences(s: Seq<(Seq<char>, u32)>, x: Seq<char>)
    ensures
        pair_occurrences(ranked(s), x) == pair_occurrences(s, x),
    decreases s.len(),
{
    if s.len() > 0 {
        let y = s[0];
        let rest = ranked(s.drop_first());
        lemma_ranked_occurrences(s.drop_first(), x);
        lemma_rank_slot_props(rest, y);
        let k = rank_slot(rest, y) as int;
        assert(rest.insert(k, y) =~= rest.take(k) + (seq![y] + rest.skip(k)));
        assert(rest =~= rest.take(k) + rest.skip(k));
        assert(s =~= seq![y] + s.drop_first());
        lemma_pair_occurrences_append(rest.take(k), seq![y] + rest.skip(k), x);
        lemma_pair_occurrences_append(seq![y], rest.skip(k), x);
        lemma_pair_occurrences_append(rest.take(k), rest.skip(k), x);
        lemma_pair_occurrences_append(seq![y], s.drop_first(), x);
        lemma_pair_occurrences_first(y, x);
    }
}

proof fn lemma_names_occurrences(s: Seq<(Seq<char>, u32)>, x: Seq<char>)
    ensures
        occurrences(s.map_values(|p: (Seq<char>, u32)| p.0), x) == pair_occurrences(s, x),
    decreases s.len(),
{
    if s.len() > 0 {
        lemma_names_occurrences(s.drop_last(), x);
        assert(s.map_values(|p: (Seq<char>, u32)| p.0).drop_last() =~= s.drop_last().map_values(
            |p: (Seq<char>, u32)| p.0,
        ));
    }
}

proof fn lemma_matches_occurrences(dirs: Seq<Seq<char>>, scores: Seq<Option<u32>>, x: Seq<char>)
    requires
        dirs.len() == scores.len(),
    ensures
        pair_occurrences(matches_of(dirs, scores), x) <= occurrences(dirs, x),
    decreases dirs.len(),
{
    if dirs.len() > 0 {
        lemma_matches_occurrences(dirs.drop_last(), scores.drop_last(), x);
        let rest = matches_of(dirs.drop_last(), scores.drop_last());
        match scores.last() {
            Some(v) => {
                let p = (dirs.last(), v);
                assert(rest.push(p).drop_last() =~= rest);
                assert(rest.push(p).last() == p);
            },
            None => {},
        }
    }
}

proof fn lemma_top_occurrences(s: Seq<Seq<char>>, x: Seq<char>)
    ensures
        occurrences(top(s), x) <= occurrences(s, x),
{
    if s.len() > MAX_RESULTS {
        let k = MAX_RESULTS as int;
        assert(s =~= s.take(k) + s.skip(k));
        lemma_occurrences_append(s.take(k), s.skip(k), x);
    }
}

/// A query returns no folder more often than the index holds it.
pub proof fn lemma_query_from_index(dirs: Seq<Seq<char>>, pattern: Seq<char>, x: Seq<char>)
    ensures
        occurrences(query_result(dirs, pattern), x) <= occurrences(dirs, x),
{
    if pattern.len() == 0 {
        lemma_top_occurrences(dirs, x);
    } else {
        let sc = pattern_scores(dirs, pattern);
        let m = matches_of(dirs, sc);
        let rk = ranked(m);
        let names = rk.map_values(|p: (Seq<char>, u32)| p.0);
        assert(top(rk).map_values(|p: (Seq<char>, u32)| p.0) =~= top(names));
        lemma_top_occurrences(names, x);
        lemma_names_occurrences(rk, x);
        lemma_ranked_occurrences(m, x);
        lemma_matches_occurrences(dirs, sc, x);
    }
}

/// A non-empty query returns only folders that match it, best match first.
pub proof fn lemma_query_best_first(dirs: Seq<Seq<char>>, pattern: Seq<char>)
    requires
        pattern.len() > 0,
    ensures
        forall|i: int|
            0 <= i < query_result(dirs, pattern).len() ==> path_match_score(
                pattern,
                #[trigger] query_result(dirs, pattern)[i],
            ) is Some,
        forall|i: int, j: int|
            0 <= i < j < query_result(dirs, pattern).len() ==> path_match_score(
                pattern,
                #[trigger] query_result(dirs, pattern)[i],
            )->0 >= path_match_score(pattern, #[trigger] query_result(dirs, pattern)[j])->0,
{
    broadcast use vstd::seq_lib::group_to_multiset_ensures;

    let r = query_result(dirs, pattern);
    let sc = pattern_scores(dirs, pattern);
    let m = matches_of(dirs, sc);
    lemma_matches_of(dirs, sc);
    lemma_ranked(m);
    let t = top(ranked(m));
    assert forall|i: int| 0 <= i < r.len() implies path_match_score(pattern, #[trigger] r[i])
        == Some(t[i].1) by {
        assert(r[i] == t[i].0);
        assert(t[i] == ranked(m)[i]);
        assert(ranked(m).contains(t[i]));
        assert(ranked(m).to_multiset().count(t[i]) > 0);
        assert(m.to_multiset().count(t[i]) > 0);
        assert(m.contains(t[i]));
        let k = choose|k: int| 0 <= k < m.len() && m[k] == t[i];
        let w = choose|w: int|
            0 <= w < dirs.len() && dirs[w] == m[k].0 && sc[w] == Some(m[k].1);
        assert(path_match_score(pattern, m[k].0) == Some(m[k].1));
    }
    assert forall|i: int, j: int| 0 <= i < j < r.len() implies path_match_score(
        pattern,
        #[trigger] r[i],
    )->0 >= path_match_score(pattern, #[trigger] r[j])->0 by {
        assert(path_match_score(pattern, r[i]) == Some(t[i].1));
        assert(path_match_score(pattern, r[j]) == Some(t[j].1));
        assert(t[i] == ranked(m)[i] && t[j] == ranked(m)[j]);
    }
}

fn walk_subdirs(root: &str, entries: &Vec<Option<WalkEntry>>) -> (r: Result<Vec<String>, DestError>)
    ensures
        r matches Ok(d) ==> subdirs(root@, entries@) == Ok::<Seq<Seq<char>>, DestFault>(
            d@.map_values(|s: String| s@),
        ) && searchable(d@),
        r matches Err(e) ==> subdirs(root@, entries@) == Err::<Seq<Seq<char>>, DestFault>(
            fault_of(e),
        ),
{
    let rc = path_components(root);
    let mut dirs: Vec<String> = Vec::new();
    let mut i: usize = 0;
    assert(entries@.take(0) =~= seq![]);
    assert(texts(dirs@) =~= seq![]);
    while i < entries.len()
        invariant
            i <= entries.len(),
            views(rc@) == components(root@),
            subdirs(root@, entries@.take(i as int)) == Ok::<Seq<Seq<char>>, DestFault>(
                texts(dirs@),
            ),
            searchable(dirs@),
        decreases entries.len() - i,
    {
        assert(entries@.take(i + 1).drop_last() =~= entries@.take(i as int));
        assert(entries@.take(i + 1).last() == entries@[i as int]);
        match &entries[i] {
            None => {
                proof {
                    lemma_subdirs_fail_stays(root@, entries@, i + 1);
                }
                return Err(DestError::Walk);
            },
            Some(e) => {
                if e.is_dir {
                    let pc = path_components(e.path.as_str());
                    if !starts_with_components(&pc, &rc) {
                        proof {
                            lemma_subdirs_fail_stays(root@, entries@, i + 1);
                        }
                        return Err(DestError::OutsideRoot(e.path.clone()));
                    }
                    let rel = render_range(&pc, rc.len(), pc.len());
                    assert(views(pc@).subrange(rc.len() as int, pc.len() as int) =~= views(
                        pc@,
                    ).skip(rc.len() as int));
                    let rel_s = string_of(rel.as_slice());
                    if rel_s.as_str().len() > 0xffff_ffff {
                        proof {
                            lemma_subdirs_fail_stays(root@, entries@, i + 1);
                        }
                        return Err(DestError::TooLong(rel_s));
                    }
                    let ghost before = dirs@;
                    dirs.push(rel_s);
                    assert(texts(dirs@) =~= texts(before).push(rel@));
                }
            },
        }
        i += 1;
    }
    assert(entries@.take(entries.len() as int) =~= entries@);
    Ok(dirs)
}

impl DestIndex {
    /// Every indexed path can be searched.
    #[verifier::type_invariant]
    spec fn inv(self) -> bool {
        searchable(self.dirs@)
    }

    /// The relative folder paths in the index, in walk order.
    pub closed spec fn folders(self) -> Seq<Seq<char>> {
        texts(self.dirs@)
    }

    /// Builds the index of the subdirectories of `root` from the entries a
    /// walk of the tree below `root` yielded (the root itself excluded);
    /// `None` stands for an entry the walk failed on.
    pub fn new(root: &str, entries: Vec<Option<WalkEntry>>) -> (r: Result<Self, DestError>)
        ensures
            r matches Ok(idx) ==> subdirs(root@, entries@) == Ok::<Seq<Seq<char>>, DestFault>(
                idx.folders(),
            ),
            r matches Err(e) ==> subdirs(root@, entries@) == Err::<Seq<Seq<char>>, DestFault>(
                fault_of(e),
            ),
    {
        let dirs = walk_subdirs(root, &entries)?;
        Ok(DestIndex { dirs })
    }

    /// Rebuilds the index in place from a new walk of `root`; on failure the
    /// index is left as it was.
    pub fn rebuild(&mut self, root: &str, entries: Vec<Option<WalkEntry>>) -> (r: Result<
        (),
        DestError,
    >)
        ensures
            r is Ok ==> subdirs(root@, entries@) == Ok::<Seq<Seq<char>>, DestFault>(
                final(self).folders(),
            ),
            r matches Err(e) ==> subdirs(root@, entries@) == Err::<Seq<Seq<char>>, DestFault>(
                fault_of(e),
            ) && final(self).folders() == old(self).folders(),
    {
        let dirs = walk_subdirs(root, &entries)?;
        self.dirs = dirs;
        Ok(())
    }

    /// The relative folder paths in the index.
    pub fn dirs(&self) -> (r: &Vec<String>)
        ensures
            texts(r@) == self.folders(),
    {
        &self.dirs
    }

    /// Whether every folder can be scored against `pattern` (see
    /// `scorable`), as `query` requires.
    pub fn can_query(&self, pattern: &str) -> (r: bool)
        ensures
            r == query_fits(self.folders(), pattern@),
    {
        let ghost dirs = self.folders();
        let n = chars_of(pattern).len();
        if n > MAX_QUERY_CHARS {
            if self.dirs.len() > 0 {
                assert(!scorable(pattern@, dirs[0]));
            }
            return self.dirs.len() == 0;
        }
        if n <= MAX_SCORED_CHARS {
            return true;
        }
        let mut i: usize = 0;
        while i < self.dirs.len()
            invariant
                i <= self.dirs.len(),
                dirs == self.folders(),
                MAX_SCORED_CHARS < pattern@.len() <= MAX_QUERY_CHARS,
                forall|k: int| 0 <= k < i ==> scorable(pattern@, #[trigger] dirs[k]),
            decreases self.dirs.len() - i,
        {
            assert(dirs[i as int] == self.dirs@[i as int]@);
            if self.dirs[i].as_str().len() > MAX_SCORED_CHARS {
                assert(!scorable(pattern@, dirs[i as int]));
                return false;
            }
            i += 1;
        }
        true
    }

    /// Returns up to `MAX_RESULTS` folder paths ranked by fuzzy match score
    /// against `pattern`, best match first; an empty pattern gives the first
    /// folders of the index in index order.
    pub fn query(&self, pattern: &str) -> (r: Vec<String>)
        requires
            query_fits(self.folders(), pattern@),
        ensures
            texts(r@) == query_result(self.folders(), pattern@),
    {
        proof {
            use_type_invariant(self);
        }
        if pattern.is_empty() {
            let n = if self.dirs.len() <= MAX_RESULTS {
                self.dirs.len()
            } else {
                MAX_RESULTS
            };
            let mut out: Vec<String> = Vec::new();
            let mut i: usize = 0;
            while i < n
                invariant
                    i <= n <= self.dirs.len(),
                    out@ == self.dirs@.take(i as int),
                decreases n - i,
            {
                out.push(self.dirs[i].clone());
                i += 1;
                assert(out@ =~= self.dirs@.take(i as int));
            }
            assert(texts(self.dirs@.take(n as int)) =~= top(texts(self.dirs@)));
            return out;
        }
        assert forall|i: int| 0 <= i < self.dirs.len() implies byte_len(self.dirs@[i]@)
            <= u32::MAX && scorable(pattern@, self.dirs@[i]@) by {
            assert(self.folders()[i] == self.dirs@[i]@);
        }
        let scores = match_scores(pattern, &self.dirs);
        assert(scores@ =~= pattern_scores(texts(self.dirs@), pattern@));
        rank_matches(&self.dirs, &scores)
    }
}

/// Ranks folders by their match scores (`scores` holds one entry per
/// folder, `None` for a folder that does not match): the best
/// `MAX_RESULTS` of those that match, best first; equal scores keep index
/// order.
pub fn rank_matches(dirs: &Vec<String>, scores: &Vec<Option<u32>>) -> (r: Vec<String>)
    requires
        scores.len() == dirs.len(),
    ensures
        texts(r@) == best_matches(texts(dirs@), scores@),
{
    let mut matched: Vec<(String, u32)> = Vec::new();
    let mut i: usize = 0;
    let ghost names = texts(dirs@);
    assert(names.take(0) =~= seq![]);
    assert(scored_texts(matched@) =~= seq![]);
    while i < dirs.len()
        invariant
            i <= dirs.len(),
            names == texts(dirs@),
            scores.len() == dirs.len(),
            scored_texts(matched@) == matches_of(
                names.take(i as int),
                scores@.take(i as int),
            ),
        decreases dirs.len() - i,
    {
        assert(names.take(i + 1).drop_last() =~= names.take(i as int));
        assert(scores@.take(i + 1).drop_last() =~= scores@.take(i as int));
        assert(names.take(i + 1).last() == dirs@[i as int]@);
        assert(scores@.take(i + 1).last() == scores@[i as int]);
        let ghost before = matched@;
        match scores[i] {
            Some(s) => {
                matched.push((dirs[i].clone(), s));
                assert(scored_texts(matched@) =~= scored_texts(before).push(
                    (dirs@[i as int]@, s),
                ));
            },
            None => {},
        }
        i += 1;
    }
    assert(names.take(dirs.len() as int) =~= names);
    assert(scores@.take(dirs.len() as int) =~= scores@);
    let ghost input = matched@;
    let mut ordered: Vec<(String, u32)> = Vec::new();
    assert(scored_texts(input.skip(input.len() as int)) =~= seq![]);
    assert(scored_texts(ordered@) =~= seq![]);
    while matched.len() > 0
        invariant
            matched@ == input.take(matched@.len() as int),
            matched@.len() <= input.len(),
            scored_texts(ordered@) == ranked(scored_texts(input.skip(matched@.len() as int))),
        decreases matched@.len(),
    {
        let ghost n = matched@.len();
        let x = matched.pop().unwrap();
        let ghost xv = (x.0@, x.1);
        assert(scored_texts(input.skip(n - 1)).drop_first() =~= scored_texts(
            input.skip(n as int),
        ));
        assert(scored_texts(input.skip(n - 1))[0] == xv);
        assert(matched@ =~= input.take(n - 1));
        let mut j: usize = 0;
        while j < ordered.len() && ordered[j].1 > x.1
            invariant
                j <= ordered@.len(),
                forall|k: int| 0 <= k < j ==> (#[trigger] ordered@[k]).1 > x.1,
            decreases ordered@.len() - j,
        {
            j += 1;
        }
        let ghost before = ordered@;
        proof {
            assert forall|k: int| 0 <= k < j implies (#[trigger] scored_texts(before)[k]).1
                > xv.1 by {
                assert(scored_texts(before)[k].1 == before[k].1);
            }
            if j < before.len() {
                assert(scored_texts(before)[j as int].1 == before[j as int].1);
            }
            lemma_rank_slot_is(scored_texts(before), xv, j as int);
        }
        ordered.insert(j, x);
        assert(scored_texts(ordered@) =~= scored_texts(before).insert(j as int, xv));
    }
    assert(input.skip(0) =~= input);
    let ghost all = ordered@;
    ordered.truncate(MAX_RESULTS);
    let ghost kept = ordered@;
    assert(scored_texts(kept) =~= top(scored_texts(all)));
    let mut out: Vec<String> = Vec::new();
    assert(kept.skip(kept.len() as int) =~= seq![]);
    assert(texts(out@) =~= seq![]);
    while ordered.len() > 0
        invariant
            ordered@ == kept.take(ordered@.len() as int),
            ordered@.len() <= kept.len(),
            texts(out@) == scored_texts(kept.skip(ordered@.len() as int)).map_values(
                |p: (Seq<char>, u32)| p.0,
            ),
        decreases ordered@.len(),
    {
        let ghost n = ordered@.len();
        let ghost before = out@;
        assert(ordered@[n - 1] == kept[n - 1]);
        let (name, _) = ordered.pop().unwrap();
        assert(name == kept[n - 1].0);
        out.insert(0, name);
        assert(ordered@ =~= kept.take(n - 1));
        assert(out@ =~= seq![name] + before);
        assert(kept.skip(n - 1) =~= seq![kept[n - 1]] + kept.skip(n as int));
        assert(texts(out@) =~= seq![name@] + texts(before));
        assert(texts(out@) =~= scored_texts(kept.skip(n - 1)).map_values(
            |p: (Seq<char>, u32)| p.0,
        ));
    }
    assert(kept.skip(0) =~= kept);
    out
}

/// An entry of a directory listing.
#[derive(Debug, Clone)]
pub struct DirEntry {
    /// Name of the entry.
    pub name: String,
    /// Whether the entry is a regular file.
    pub is_file: bool,
}

/// Whether `a` sorts before `b`: compared character by character by code
/// point, a proper prefix first (the order of `str`'s `Ord`).
pub open spec fn text_lt(a: Seq<char>, b: Seq<char>) -> bool
    decreases a.len(),
{
    if a.len() == 0 {
        b.len() > 0
    } else if b.len() == 0 {
        false
    } else if a[0] != b[0] {
        (a[0] as u32) < (b[0] as u32)
    } else {
        text_lt(a.drop_first(), b.drop_first())
    }
}

/// Where the name `x` goes in the sorted list `s`: ahead of the first name
/// that does not sort before it.
pub open spec fn name_slot(s: Seq<String>, x: String) -> nat
    decreases s.len(),
{
    if s.len() == 0 {
        0
    } else if text_lt(s[0]@, x@) {
        1 + name_slot(s.drop_first(), x)
    } else {
        0
    }
}

/// `s` in ascending order.
pub open spec fn sorted_names(s: Seq<String>) -> Seq<String>
    decreases s.len(),
{
    if s.len() == 0 {
        seq![]
    } else {
        let rest = sorted_names(s.drop_first());
        rest.insert(name_slot(rest, s[0]) as int, s[0])
    }
}

/// The names of the regular files among `entries`, in listing order.
pub open spec fn file_names(entries: Seq<DirEntry>) -> Seq<String>
    decreases entries.len(),
{
    if entries.len() == 0 {
        seq![]
    } else if entries.last().is_file {
        file_names(entries.drop_last()).push(entries.last().name)
    } else {
        file_names(entries.drop_last())
    }
}

fn chars_lt(a: &Vec<char>, b: &Vec<char>) -> (r: bool)
    ensures
        r == text_lt(a@, b@),
{
    let mut i: usize = 0;
    assert(a@.skip(0) =~= a@);
    assert(b@.skip(0) =~= b@);
    while i < a.len() && i < b.len() && a[i] == b[i]
        invariant
            i <= a.len(),
            i <= b.len(),
            text_lt(a@, b@) == text_lt(a@.skip(i as int), b@.skip(i as int)),
        decreases a.len() - i,
    {
        assert(a@.skip(i as int).drop_first() =~= a@.skip(i + 1));
        assert(b@.skip(i as int).drop_first() =~= b@.skip(i + 1));
        i += 1;
    }
    if i == a.len() {
        i < b.len()
    } else if i == b.len() {
        false
    } else {
        (a[i] as u32) < (b[i] as u32)
    }
}

proof fn lemma_name_slot_is(s: Seq<String>, x: String, j: int)
    requires
        0 <= j <= s.len(),
        forall|k: int| 0 <= k < j ==> text_lt((#[trigger] s[k])@, x@),
        j < s.len() ==> !text_lt(s[j]@, x@),
    ensures
        name_slot(s, x) == j,
    decreases j,
{
    if j > 0 {
        let t = s.drop_first();
        assert forall|k: int| 0 <= k < j - 1 implies text_lt((#[trigger] t[k])@, x@) by {
            assert(t[k] == s[k + 1]);
        }
        if j - 1 < t.len() {
            assert(t[j - 1] == s[j]);
        }
        assert(text_lt(s[0]@, x@));
        lemma_name_slot_is(t, x, j - 1);
    }
}

proof fn lemma_text_lt_irreflexive(a: Seq<char>)
    ensures
        !text_lt(a, a),
    decreases a.len(),
{
    if a.len() > 0 {
        lemma_text_lt_irreflexive(a.drop_first());
    }
}

proof fn lemma_text_lt_trans(a: Seq<char>, b: Seq<char>, c: Seq<char>)
    requires
        text_lt(a, b),
        text_lt(b, c),
    ensures
        text_lt(a, c),
    decreases a.len(),
{
    if a.len() > 0 && a[0] == b[0] && b[0] == c[0] {
        lemma_text_lt_trans(a.drop_first(), b.drop_first(), c.drop_first());
    }
}

proof fn lemma_text_lt_total(a: Seq<char>, b: Seq<char>)
    ensures
        a == b || text_lt(a, b) || text_lt(b, a),
    decreases a.len(),
{
    if a.len() == 0 && b.len() == 0 {
        assert(a =~= b);
    } else if a.len() > 0 && b.len() > 0 && a[0] == b[0] {
        lemma_text_lt_total(a.drop_first(), b.drop_first());
        if a.drop_first() == b.drop_first() {
            assert(a =~= seq![a[0]] + a.drop_first());
            assert(b =~= seq![b[0]] + b.drop_first());
        }
    } else if a.len() > 0 && b.len() > 0 {
        let x = a[0];
        let y = b[0];
        vstd::utf8::char_u32_cast(x, x as u32);
        vstd::utf8::char_u32_cast(y, y as u32);
        assert((x as u32) != (y as u32));
    }
}

proof fn lemma_text_lt_asym(a: Seq<char>, b: Seq<char>)
    ensures
        !(text_lt(a, b) && text_lt(b, a)),
{
    if text_lt(a, b) && text_lt(b, a) {
        lemma_text_lt_trans(a, b, a);
        lemma_text_lt_irreflexive(a);
    }
}

/// "Not before" is transitive.
proof fn lemma_not_lt_trans(a: Seq<char>, b: Seq<char>, c: Seq<char>)
    requires
        !text_lt(b, a),
        !text_lt(c, b),
    ensures
        !text_lt(c, a),
{
    lemma_text_lt_total(a, b);
    if text_lt(c, a) && text_lt(a, b) {
        lemma_text_lt_trans(c, a, b);
    }
}

proof fn lemma_name_slot_props(s: Seq<String>, x: String)
    ensures
        name_slot(s, x) <= s.len(),
        forall|k: int| 0 <= k < name_slot(s, x) ==> text_lt((#[trigger] s[k])@, x@),
        name_slot(s, x) < s.len() ==> !text_lt(s[name_slot(s, x) as int]@, x@),
    decreases s.len(),
{
    if s.len() > 0 && text_lt(s[0]@, x@) {
        let t = s.drop_first();
        lemma_name_slot_props(t, x);
        assert forall|k: int| 0 <= k < name_slot(s, x) implies text_lt((#[trigger] s[k])@, x@) by {
            if k > 0 {
                assert(s[k] == t[k - 1]);
            }
        }
        if name_slot(s, x) < s.len() {
            assert(s[name_slot(s, x) as int] == t[name_slot(t, x) as int]);
        }
    }
}

/// Sorting reorders the names so that none sorts before a name listed
/// ahead of it.
pub proof fn lemma_sorted_names(s: Seq<String>)
    ensures
        sorted_names(s).to_multiset() == s.to_multiset(),
        sorted_names(s).len() == s.len(),
        forall|i: int, j: int|
            0 <= i < j < sorted_names(s).len() ==> !text_lt(
                (#[trigger] sorted_names(s)[j])@,
                (#[trigger] sorted_names(s)[i])@,
            ),
    decreases s.len(),
{
    broadcast use vstd::seq_lib::group_to_multiset_ensures;

    if s.len() > 0 {
        let rest = sorted_names(s.drop_first());
        let x = s[0];
        lemma_sorted_names(s.drop_first());
        lemma_name_slot_props(rest, x);
        let k = name_slot(rest, x) as int;
        let r = rest.insert(k, x);
        rest.insert_ensures(k, x);
        assert forall|i: int, j: int| 0 <= i < j < r.len() implies !text_lt(
            (#[trigger] r[j])@,
            (#[trigger] r[i])@,
        ) by {
            if j < k {
                assert(r[i] == rest[i] && r[j] == rest[j]);
            } else if j == k {
                assert(r[i] == rest[i]);
                lemma_text_lt_asym(rest[i]@, x@);
            } else if i > k {
                assert(r[i] == rest[i - 1] && r[j] == rest[j - 1]);
            } else if i == k {
                assert(r[j] == rest[j - 1]);
                if j - 1 > k {
                    lemma_not_lt_trans(x@, rest[k]@, rest[j - 1]@);
                }
            } else {
                assert(r[i] == rest[i] && r[j] == rest[j - 1]);
            }
        }
        assert(s =~= seq![x] + s.drop_first());
        assert(s.drop_first().to_multiset().insert(x) =~= s.to_multiset()) by {
            assert(s =~= s.drop_first().insert(0, x));
        }
    }
}

impl DestIndex {
    /// The directory whose files `list_files` lists: `root` joined with
    /// `rel_path`.
    pub fn listing_dir(root: &str, rel_path: &str) -> (r: String)
        ensures
            r@ == crate::paths::joined(root@, rel_path@),
    {
        crate::paths::join_path(root, rel_path)
    }

    /// Returns the names of the regular files among the entries of a
    /// directory, sorted alphabetically; directories are skipped.
    pub fn list_files(entries: Vec<DirEntry>) -> (r: Vec<String>)
        ensures
            r@ == sorted_names(file_names(entries@)),
    {
        let mut names: Vec<String> = Vec::new();
        let mut i: usize = 0;
        assert(entries@.take(0) =~= seq![]);
        while i < entries.len()
            invariant
                i <= entries.len(),
                names@ == file_names(entries@.take(i as int)),
            decreases entries.len() - i,
        {
            assert(entries@.take(i + 1).drop_last() =~= entries@.take(i as int));
            assert(entries@.take(i + 1).last() == entries@[i as int]);
            if entries[i].is_file {
                names.push(entries[i].name.clone());
            }
            i += 1;
        }
        assert(entries@.take(entries.len() as int) =~= entries@);
        let ghost input = names@;
        let mut sorted: Vec<String> = Vec::new();
        assert(input.skip(input.len() as int) =~= seq![]);
        while names.len() > 0
            invariant
                names@ == input.take(names@.len() as int),
                names@.len() <= input.len(),
                sorted@ == sorted_names(input.skip(names@.len() as int)),
            decreases names@.len(),
        {
            let ghost n = names@.len();
            let x = names.pop().unwrap();
            assert(input.skip(n - 1).drop_first() =~= input.skip(n as int));
            assert(input.skip(n - 1)[0] == x);
            assert(names@ =~= input.take(n - 1));
            let xc = chars_of(x.as_str());
            let mut j: usize = 0;
            while j < sorted.len() && chars_lt(&chars_of(sorted[j].as_str()), &xc)
                invariant
                    j <= sorted@.len(),
                    xc@ == x@,
                    forall|k: int| 0 <= k < j ==> text_lt((#[trigger] sorted@[k])@, x@),
                decreases sorted@.len() - j,
            {
                j += 1;
            }
            proof {
                lemma_name_slot_is(sorted@, x, j as int);
            }
            sorted.insert(j, x);
        }
        assert(input.skip(0) =~= input);
        sorted
    }
}

} // verus!
