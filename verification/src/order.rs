//! The order in which matches are reported: by where they start and
//! then by where they end, and otherwise as they were found.

use vstd::prelude::*;

use crate::lint::match_views;
use crate::lint::LintMatch;
use crate::lint::MatchView;
use crate::Range;

verus! {

/// What a range is ordered by: the row and column at which it starts,
/// then the row and column at which it ends.
pub open spec fn sort_key(range: Range) -> (int, int, int, int) {
    (
        range.start_point.row as int,
        range.start_point.col as int,
        range.end_point.row as int,
        range.end_point.col as int,
    )
}

/// Whether key `a` comes before key `b` or equals it, entry by entry.
pub open spec fn key_le(a: (int, int, int, int), b: (int, int, int, int)) -> bool {
    a.0 < b.0 || (a.0 == b.0 && (a.1 < b.1 || (a.1 == b.1 && (a.2 < b.2 || (a.2 == b.2 && a.3
        <= b.3)))))
}

/// Whether match `a` may stand before match `b` in a report.
pub open spec fn precedes(a: MatchView, b: MatchView) -> bool {
    key_le(sort_key(a.range), sort_key(b.range))
}

/// Whether every match may stand before all those behind it.
pub open spec fn ordered(matches: Seq<MatchView>) -> bool {
    forall|i: int, j: int| 0 <= i < j < matches.len() ==> precedes(matches[i], matches[j])
}

/// Where `m` goes in `sorted`: in front of the first match that it may
/// stand before, and so in front of all that tie with it.
pub open spec fn place_of(sorted: Seq<MatchView>, m: MatchView) -> int
    decreases sorted.len(),
{
    if sorted.len() == 0 || precedes(m, sorted[0]) {
        0
    } else {
        1 + place_of(sorted.drop_first(), m)
    }
}

/// The matches in the order of a report: each one in turn, from the
/// last to the first, is put into the ordered rest at its place.
pub open spec fn arranged(matches: Seq<MatchView>) -> Seq<MatchView>
    decreases matches.len(),
{
    if matches.len() == 0 {
        matches
    } else {
        let rest = arranged(matches.drop_first());
        rest.insert(place_of(rest, matches[0]), matches[0])
    }
}

/// The matches of `matches` whose key is `key`, in their order.
pub open spec fn with_key(matches: Seq<MatchView>, key: (int, int, int, int)) -> Seq<
    MatchView,
> {
    matches.filter(|m: MatchView| sort_key(m.range) == key)
}

/// The place of a match is the one index that has only later matches
/// before it and an earlier or equal one at it.
pub proof fn lemma_place_of(sorted: Seq<MatchView>, m: MatchView)
    ensures
        0 <= place_of(sorted, m) <= sorted.len(),
        forall|j: int| 0 <= j < place_of(sorted, m) ==> !precedes(m, #[trigger] sorted[j]),
        place_of(sorted, m) < sorted.len() ==> precedes(m, sorted[place_of(sorted, m)]),
    decreases sorted.len(),
{
    if sorted.len() > 0 && !precedes(m, sorted[0]) {
        let rest = sorted.drop_first();
        lemma_place_of(rest, m);
        assert forall|j: int| 0 <= j < place_of(sorted, m) implies !precedes(
            m,
            #[trigger] sorted[j],
        ) by {
            if j > 0 {
                assert(sorted[j] == rest[j - 1]);
            }
        }
    }
}

/// An index with only later matches before it and an earlier or equal
/// one at it is the place of the match.
pub proof fn lemma_place_is(sorted: Seq<MatchView>, m: MatchView, at: int)
    requires
        0 <= at <= sorted.len(),
        forall|j: int| 0 <= j < at ==> !precedes(m, #[trigger] sorted[j]),
        at < sorted.len() ==> precedes(m, sorted[at]),
    ensures
        place_of(sorted, m) == at,
    decreases sorted.len(),
{
    if sorted.len() > 0 && !precedes(m, sorted[0]) {
        let rest = sorted.drop_first();
        assert forall|j: int| 0 <= j < at - 1 implies !precedes(m, #[trigger] rest[j]) by {
            assert(rest[j] == sorted[j + 1]);
        }
        lemma_place_is(rest, m, at - 1);
    }
}

/// Putting a match at its place keeps an ordered sequence ordered.
pub proof fn lemma_insert_keeps_order(sorted: Seq<MatchView>, m: MatchView)
    requires
        ordered(sorted),
    ensures
        ordered(sorted.insert(place_of(sorted, m), m)),
{
    lemma_place_of(sorted, m);
    let at = place_of(sorted, m);
    let next = sorted.insert(at, m);
    assert forall|i: int, j: int| 0 <= i < j < next.len() implies precedes(next[i], next[j]) by {
        if i == at && j - 1 > at {
            assert(precedes(sorted[at], sorted[j - 1]));
        }
    }
}

/// The report order is non-decreasing: no match stands behind one that
/// starts later, or that starts with it and ends later.
pub proof fn law_arranged_is_ordered(matches: Seq<MatchView>)
    ensures
        ordered(arranged(matches)),
        arranged(matches).len() == matches.len(),
    decreases matches.len(),
{
    if matches.len() > 0 {
        let rest = arranged(matches.drop_first());
        law_arranged_is_ordered(matches.drop_first());
        lemma_place_of(rest, matches[0]);
        lemma_insert_keeps_order(rest, matches[0]);
    }
}

/// The report order holds every match as often as it was found.
pub proof fn law_arranged_is_permutation(matches: Seq<MatchView>)
    ensures
        arranged(matches).to_multiset() == matches.to_multiset(),
    decreases matches.len(),
{
    broadcast use vstd::seq_lib::to_multiset_insert;

    if matches.len() > 0 {
        let rest = arranged(matches.drop_first());
        law_arranged_is_permutation(matches.drop_first());
        lemma_place_of(rest, matches[0]);
        vstd::seq_lib::to_multiset_insert(matches.drop_first(), 0, matches[0]);
        assert(matches.drop_first().insert(0, matches[0]) =~= matches);
    }
}

/// The report order is stable: the matches that tie, having one and the
/// same key, stand in the order in which they were found.
pub proof fn law_arranged_is_stable(matches: Seq<MatchView>, key: (int, int, int, int))
    ensures
        with_key(arranged(matches), key) == with_key(matches, key),
    decreases matches.len(),
{
    if matches.len() > 0 {
        let tied = |m: MatchView| sort_key(m.range) == key;
        let first = matches[0];
        let tail = matches.drop_first();
        let rest = arranged(tail);
        let at = place_of(rest, first);
        law_arranged_is_stable(tail, key);
        lemma_place_of(rest, first);

        let before = rest.subrange(0, at);
        let behind = rest.subrange(at, rest.len() as int);
        assert(rest =~= before + behind);
        assert(rest.insert(at, first) =~= (before + seq![first]) + behind);
        assert(matches =~= seq![first] + tail);
        Seq::filter_distributes_over_add(before, behind, tied);
        Seq::filter_distributes_over_add(before, seq![first], tied);
        Seq::filter_distributes_over_add(before + seq![first], behind, tied);
        Seq::filter_distributes_over_add(seq![first], tail, tied);
        if tied(first) {
            assert forall|j: int| 0 <= j < before.len() implies !tied(#[trigger] before[j]) by {
                assert(!precedes(first, rest[j]));
            }
            lemma_filter_none(before, tied);
        } else {
            lemma_filter_none(seq![first], tied);
        }
    }
}

/// The report order is the only one that is non-decreasing and stable:
/// matches that are in order, and whose ties stand as they were found,
/// stand in the report order.
pub proof fn law_report_order_is_unique(matches: Seq<MatchView>, reported: Seq<MatchView>)
    requires
        ordered(reported),
        forall|key: (int, int, int, int)| #[trigger]
            with_key(reported, key) == with_key(matches, key),
    ensures
        reported == arranged(matches),
{
    law_arranged_is_ordered(matches);
    assert forall|key: (int, int, int, int)| #[trigger]
        with_key(reported, key) == with_key(arranged(matches), key) by {
        law_arranged_is_stable(matches, key);
    }
    lemma_ordered_by_keys(reported, arranged(matches));
}

/// Two sequences in order that hold the same matches for every key, in
/// the same order, are the same.
pub proof fn lemma_ordered_by_keys(a: Seq<MatchView>, b: Seq<MatchView>)
    requires
        ordered(a),
        ordered(b),
        forall|key: (int, int, int, int)| #[trigger] with_key(a, key) == with_key(b, key),
    ensures
        a == b,
    decreases a.len() + b.len(),
{
    reveal(Seq::filter);
    if a.len() == 0 && b.len() == 0 {
        assert(a =~= b);
    } else if a.len() == 0 {
        assert(with_key(a, sort_key(b.last().range)) == with_key(b, sort_key(b.last().range)));
    } else if b.len() == 0 {
        assert(with_key(a, sort_key(a.last().range)) == with_key(b, sort_key(a.last().range)));
    } else {
        let x = a.last();
        let y = b.last();
        lemma_last_key_is_known(a, b);
        lemma_last_key_is_known(b, a);
        let last_key = sort_key(x.range);
        let tied = |m: MatchView| sort_key(m.range) == last_key;
        assert(sort_key(y.range) == last_key);
        assert(with_key(a, last_key) == with_key(b, last_key));
        assert(a.filter(tied) == a.drop_last().filter(tied).push(x));
        assert(b.filter(tied) == b.drop_last().filter(tied).push(y));
        assert(x == a.filter(tied).last());
        assert forall|key: (int, int, int, int)| #[trigger]
            with_key(a.drop_last(), key) == with_key(b.drop_last(), key) by {
            assert(with_key(a, key) == with_key(b, key));
            if key == sort_key(x.range) {
                assert(with_key(a.drop_last(), key) =~= with_key(a, key).drop_last());
                assert(with_key(b.drop_last(), key) =~= with_key(b, key).drop_last());
            }
        }
        assert forall|i: int, j: int| 0 <= i < j < a.drop_last().len() implies precedes(
            a.drop_last()[i],
            a.drop_last()[j],
        ) by {
            assert(precedes(a[i], a[j]));
        }
        assert forall|i: int, j: int| 0 <= i < j < b.drop_last().len() implies precedes(
            b.drop_last()[i],
            b.drop_last()[j],
        ) by {
            assert(precedes(b[i], b[j]));
        }
        lemma_ordered_by_keys(a.drop_last(), b.drop_last());
        assert(a =~= a.drop_last().push(x));
        assert(b =~= b.drop_last().push(y));
    }
}

/// The key of the last match of a sequence is met in any sequence in
/// order that holds the same matches for that key, and so does not
/// come behind the key of that sequence's last match.
pub proof fn lemma_last_key_is_known(a: Seq<MatchView>, b: Seq<MatchView>)
    requires
        a.len() > 0,
        b.len() > 0,
        ordered(b),
        with_key(a, sort_key(a.last().range)) == with_key(b, sort_key(a.last().range)),
    ensures
        key_le(sort_key(a.last().range), sort_key(b.last().range)),
{
    reveal(Seq::filter);
    let key = sort_key(a.last().range);
    let tied = |m: MatchView| sort_key(m.range) == key;
    assert(with_key(a, key).len() > 0);
    if forall|j: int| 0 <= j < b.len() ==> !tied(#[trigger] b[j]) {
        lemma_filter_none(b, tied);
    }
    let j = choose|j: int| 0 <= j < b.len() && tied(#[trigger] b[j]);
    if j < b.len() - 1 {
        assert(precedes(b[j], b[b.len() - 1]));
    }
}

/// Nothing is left of a sequence by a filter that none of it passes.
pub proof fn lemma_filter_none<A>(s: Seq<A>, pred: spec_fn(A) -> bool)
    requires
        forall|j: int| 0 <= j < s.len() ==> !pred(#[trigger] s[j]),
    ensures
        s.filter(pred) == Seq::<A>::empty(),
    decreases s.len(),
{
    reveal(Seq::filter);
    if s.len() > 0 {
        assert forall|j: int| 0 <= j < s.drop_last().len() implies !pred(
            #[trigger] s.drop_last()[j],
        ) by {
            assert(s.drop_last()[j] == s[j]);
        }
        lemma_filter_none(s.drop_last(), pred);
    }
}

/// Check whether range `a` may stand before range `b` in a report.
pub fn comes_first(a: &Range, b: &Range) -> (first: bool)
    ensures
        first == key_le(sort_key(*a), sort_key(*b)),
{
    if a.start_point.row != b.start_point.row {
        a.start_point.row < b.start_point.row
    } else if a.start_point.col != b.start_point.col {
        a.start_point.col < b.start_point.col
    } else if a.end_point.row != b.end_point.row {
        a.end_point.row < b.end_point.row
    } else {
        a.end_point.col <= b.end_point.col
    }
}

/// Sort matches to ensure more consistent reporting with ascending
/// lines. Matches that tie keep their order.
pub fn sort_matches(matches: Vec<LintMatch>) -> (sorted: Vec<LintMatch>)
    ensures
        match_views(sorted@) == arranged(match_views(matches@)),
{
    let ghost found = match_views(matches@);
    let mut rest = matches;
    let mut sorted: Vec<LintMatch> = Vec::new();
    while rest.len() > 0
        invariant
            rest@.len() <= found.len(),
            match_views(rest@) == found.take(rest@.len() as int),
            match_views(sorted@) == arranged(found.skip(rest@.len() as int)),
        decreases rest@.len(),
    {
        let ghost before = match_views(sorted@);
        let ghost left = rest@.len() as int;
        let ghost waiting = rest@;
        let m = rest.pop().unwrap();
        assert(m@ == found[left - 1]) by {
            assert(match_views(waiting)[left - 1] == found.take(left)[left - 1]);
        }
        let mut at: usize = 0;
        while at < sorted.len() && !comes_first(&m.range, &sorted[at].range)
            invariant
                at <= sorted@.len(),
                match_views(sorted@) == before,
                forall|j: int| 0 <= j < at ==> !precedes(m@, #[trigger] before[j]),
            decreases sorted@.len() - at,
        {
            at = at + 1;
        }
        sorted.insert(at, m);
        proof {
            lemma_place_is(before, m@, at as int);
            assert(found.skip(left - 1).drop_first() =~= found.skip(left));
        }
    }
    assert(found.skip(0) =~= found);
    sorted
}

} // verus!
