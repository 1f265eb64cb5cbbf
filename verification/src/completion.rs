//! The candidate set: what is offered, what was typed, and what of it is
//! shown in which order.

use crate::fuzzy::{fits_matcher, match_score, new_matcher, score_text};
use crate::item::Candidate;
use crate::ranking::{
    as_match, hits, in_order, is_ranking, lemma_neighbours_in_order, precedes, rank, shown_before,
    Match, Scored,
};
use crate::text::{fragment_before, word_before};
use nucleo::Matcher;
use vstd::prelude::*;
use vstd::std_specs::cmp::PartialEqSpec;

verus! {

/// The candidates asked to come first, then the others, each group in the
/// order in which it arrived.
pub open spec fn preselected_first(items: Seq<Candidate>) -> Seq<Candidate> {
    items.filter(|c: Candidate| c.is_preselected()) + items.filter(|c: Candidate| !c.is_preselected())
}

/// The candidates in `pool`, each with its score for `filter`.
pub open spec fn scores_of(items: Seq<Candidate>, filter: Seq<char>, pool: Seq<usize>) -> Seq<Scored> {
    pool.map_values(
        |i: usize| Scored { index: i, score: match_score(filter, items[i as int].match_text()) },
    )
}

/// The indices `0..n`.
pub open spec fn all_indices(n: nat) -> Seq<usize> {
    Seq::new(n, |k: int| k as usize)
}

/// The candidates that `matches` shows.
pub open spec fn indices_of(matches: Seq<Match>) -> Seq<usize> {
    matches.map_values(|m: Match| m.index)
}

/// What a filter keeps was there before, and passes the filter.
pub proof fn lemma_filter_members<A>(s: Seq<A>, pred: spec_fn(A) -> bool)
    ensures
        forall|i: int|
            0 <= i < s.filter(pred).len() ==> s.contains(#[trigger] s.filter(pred)[i]) && pred(
                s.filter(pred)[i],
            ),
    decreases s.len(),
{
    reveal(Seq::filter);
    if s.len() > 0 {
        lemma_filter_members(s.drop_last(), pred);
        assert forall|i: int| 0 <= i < s.filter(pred).len() implies s.contains(
            #[trigger] s.filter(pred)[i],
        ) && pred(s.filter(pred)[i]) by {
            let kept = s.drop_last().filter(pred);
            if i < kept.len() {
                assert(s.drop_last().contains(kept[i]));
                let k = choose|k: int| 0 <= k < s.drop_last().len() && s.drop_last()[k] == kept[i];
                assert(s[k] == kept[i]);
            } else {
                assert(s[s.len() - 1] == s.last());
            }
        }
    }
}

/// After the candidates asked to come first were put in front, none of
/// them stands behind one that was not, and every candidate shown comes
/// from the set as it arrived.
pub proof fn lemma_preselected_first(items: Seq<Candidate>)
    ensures
        forall|i: int, j: int|
            0 <= i < j < preselected_first(items).len() && (#[trigger] preselected_first(
                items,
            )[j]).is_preselected() ==> (#[trigger] preselected_first(items)[i]).is_preselected(),
        forall|i: int|
            0 <= i < preselected_first(items).len() ==> items.contains(
                #[trigger] preselected_first(items)[i],
            ),
        forall|i: int| 0 <= i < items.len() ==> preselected_first(items).contains(#[trigger] items[i]),
{
    let first_of = |c: Candidate| c.is_preselected();
    let rest_of = |c: Candidate| !c.is_preselected();
    let first = items.filter(first_of);
    let rest = items.filter(rest_of);
    let all = preselected_first(items);
    lemma_filter_members(items, first_of);
    lemma_filter_members(items, rest_of);
    assert forall|i: int, j: int|
        0 <= i < j < all.len() && (#[trigger] all[j]).is_preselected() implies (
    #[trigger] all[i]).is_preselected() by {
        if j >= first.len() {
            assert(rest_of(rest[j - first.len()]));
        }
        assert(first_of(first[i]));
    }
    assert forall|i: int| 0 <= i < all.len() implies items.contains(#[trigger] all[i]) by {
        if i < first.len() {
            assert(items.contains(first[i]));
        } else {
            assert(items.contains(rest[i - first.len()]));
        }
    }
    assert forall|i: int| 0 <= i < items.len() implies all.contains(#[trigger] items[i]) by {
        if first_of(items[i]) {
            items.lemma_filter_contains(first_of, i);
            let k = choose|k: int| 0 <= k < first.len() && first[k] == items[i];
            assert(all[k] == items[i]);
        } else {
            assert(rest_of(items[i]));
            items.lemma_filter_contains(rest_of, i);
            let k = choose|k: int| 0 <= k < rest.len() && rest[k] == items[i];
            assert(all[first.len() + k] == items[i]);
        }
    }
}

/// What is shown before anything was typed: the candidates that the
/// matcher takes, each once, in the order of the set and with score 0.
pub open spec fn shown_unfiltered(model: CompletionModel) -> bool {
    &&& forall|k: int|
        0 <= k < model.matches.len() ==> (#[trigger] model.matches[k]).score == 0 && fits_matcher(
            model.filter,
            model.items[model.matches[k].index as int].match_text(),
        )
    &&& forall|a: int, b: int|
        0 <= a < b < model.matches.len() ==> (#[trigger] model.matches[a]).index < (
        #[trigger] model.matches[b]).index
    &&& forall|i: int|
        0 <= i < model.items.len() && fits_matcher(model.filter, (#[trigger] model.items[i]).match_text())
            ==> indices_of(model.matches).contains(i as usize)
}

/// Among what is shown, no candidate asked to come first stands below
/// one that was not.
pub open spec fn preselected_on_top(model: CompletionModel) -> bool {
    forall|a: int, b: int|
        0 <= a < b < model.matches.len() && model.items[(#[trigger] model.matches[b]).index as int].is_preselected()
            ==> model.items[(#[trigger] model.matches[a]).index as int].is_preselected()
}

/// Which way the highlight moves.
#[derive(Debug, Clone, Copy, PartialEq, Eq)]
pub enum Direction {
    Next,
    Prev,
}

/// The highlighted row after a move among `len` rows: from no row to the
/// first or the last, from the last on to the first and from the first
/// back to the last; no row where there is none.
pub open spec fn step_cursor(cursor: Option<usize>, len: nat, direction: Direction) -> Option<usize> {
    if len == 0 {
        None
    } else {
        match (cursor, direction) {
            (None, Direction::Next) => Some(0),
            (None, Direction::Prev) => Some((len - 1) as usize),
            (Some(row), Direction::Next) => if row + 1 >= len {
                Some(0)
            } else {
                Some((row + 1) as usize)
            },
            (Some(row), Direction::Prev) => if row == 0 {
                Some((len - 1) as usize)
            } else {
                Some((row - 1) as usize)
            },
        }
    }
}

/// What a [`Completion`] stands for.
pub ghost struct CompletionModel {
    /// The candidates, those asked to come first in front.
    pub items: Seq<Candidate>,
    /// What was typed of the word under the cursor.
    pub filter: Seq<char>,
    /// The candidates shown, best first.
    pub matches: Seq<Match>,
    /// The highlighted row of `matches`.
    pub cursor: Option<usize>,
    /// Where in the buffer completion was triggered.
    pub trigger_offset: usize,
    /// For each candidate, the place at which it arrived.
    pub order: Seq<usize>,
}

impl CompletionModel {
    pub open spec fn wf(self) -> bool {
        &&& in_order(self.matches)
        &&& forall|k: int| 0 <= k < self.matches.len() ==> (#[trigger] self.matches[k]).index < self.items.len()
        &&& self.cursor matches Some(c) ==> c < self.matches.len()
    }

    /// The highlighted candidate.
    pub open spec fn selection(self) -> Option<Candidate> {
        match self.cursor {
            Some(c) => Some(self.items[self.matches[c as int].index as int]),
            None => None,
        }
    }
}

/// What taking `c` into the filter, or the last character out of it,
/// makes of a candidate set.
///
/// A typed character narrows what is shown: only candidates shown before
/// are ranked. Taking a character out ranks all candidates again, unless
/// the filter is then empty: an empty filter shows nothing.
pub open spec fn filter_updated(before: CompletionModel, after: CompletionModel, c: Option<char>) -> bool {
    &&& after.items == before.items
    &&& after.order == before.order
    &&& after.trigger_offset == before.trigger_offset
    &&& after.cursor is None
    &&& after.filter == match c {
        Some(ch) => before.filter.push(ch),
        None => if before.filter.len() > 0 {
            before.filter.drop_last()
        } else {
            before.filter
        },
    }
    &&& match c {
        Some(_) => is_ranking(
            after.matches,
            scores_of(after.items, after.filter, indices_of(before.matches)),
        ),
        None => if after.filter.len() == 0 {
            after.matches.len() == 0
        } else {
            is_ranking(after.matches, scores_of(after.items, after.filter, all_indices(after.items.len())))
        },
    }
}

/// Whether what is shown is the ranking of all candidates for the filter.
pub open spec fn shows_full_ranking(model: CompletionModel) -> bool {
    is_ranking(model.matches, scores_of(model.items, model.filter, all_indices(model.items.len())))
}

/// The same keystroke on two sets with the same candidates, the same
/// filter and the same candidates shown leaves both with the same filter
/// and the same order; for a deletion the order before does not matter.
pub proof fn lemma_same_keystroke_same_order(
    one: CompletionModel,
    other: CompletionModel,
    c: Option<char>,
    one_after: CompletionModel,
    other_after: CompletionModel,
)
    requires
        one.items == other.items,
        one.filter == other.filter,
        c is Some ==> one.matches == other.matches,
        filter_updated(one, one_after, c),
        filter_updated(other, other_after, c),
    ensures
        one_after.filter == other_after.filter,
        one_after.matches == other_after.matches,
{
    match c {
        Some(_) => {
            crate::ranking::lemma_ranking_unique(
                one_after.matches,
                other_after.matches,
                scores_of(one_after.items, one_after.filter, indices_of(one.matches)),
            );
        },
        None => {
            if one_after.filter.len() == 0 {
                assert(one_after.matches =~= other_after.matches);
            } else {
                crate::ranking::lemma_ranking_unique(
                    one_after.matches,
                    other_after.matches,
                    scores_of(
                        one_after.items,
                        one_after.filter,
                        all_indices(one_after.items.len()),
                    ),
                );
            }
        },
    }
}

/// Typing a character and taking it out again gives back the filter, and
/// the order too where that was the ranking of all candidates.
pub proof fn lemma_delete_undoes_typing(
    before: CompletionModel,
    ch: char,
    typed: CompletionModel,
    after: CompletionModel,
)
    requires
        before.filter.len() > 0,
        shows_full_ranking(before),
        filter_updated(before, typed, Some(ch)),
        filter_updated(typed, after, None),
    ensures
        after.filter == before.filter,
        after.matches == before.matches,
        shows_full_ranking(after),
{
    assert(before.filter.push(ch).drop_last() =~= before.filter);
    crate::ranking::lemma_ranking_unique(
        after.matches,
        before.matches,
        scores_of(before.items, before.filter, all_indices(before.items.len())),
    );
}

/// The candidates on offer, the running filter and the ranking.
pub struct Completion {
    items: Vec<Candidate>,
    matches: Vec<Match>,
    cursor: Option<usize>,
    trigger_offset: usize,
    filter: Vec<char>,
    matcher: Matcher,
    order: Vec<usize>,
}

impl View for Completion {
    type V = CompletionModel;

    closed spec fn view(&self) -> CompletionModel {
        CompletionModel {
            items: self.items@,
            filter: self.filter@,
            matches: self.matches@,
            cursor: self.cursor,
            trigger_offset: self.trigger_offset,
            order: self.order@,
        }
    }
}

/// Whether `order` tells for each of `sorted` the place at which it stood
/// in `arrived`.
pub open spec fn tells_arrival(order: Seq<usize>, sorted: Seq<Candidate>, arrived: Seq<Candidate>) -> bool {
    &&& order.len() == sorted.len()
    &&& forall|k: int|
        0 <= k < order.len() ==> (#[trigger] order[k]) < arrived.len() && sorted[k]
            == arrived[order[k] as int]
}

/// Splits `items` into those asked to come first and the others, and puts
/// the first group in front; with them goes, for each, the place at which
/// it arrived.
pub fn sort_preselected(items: Vec<Candidate>) -> (out: (Vec<Candidate>, Vec<usize>))
    ensures
        out.0@ == preselected_first(items@),
        tells_arrival(out.1@, out.0@, items@),
{
    let ghost first_of = |c: Candidate| c.is_preselected();
    let ghost rest_of = |c: Candidate| !c.is_preselected();
    let ghost all = items@;
    let total = items.len();
    let mut first: Vec<Candidate> = Vec::new();
    let mut rest: Vec<Candidate> = Vec::new();
    let mut first_from: Vec<usize> = Vec::new();
    let mut rest_from: Vec<usize> = Vec::new();
    let mut at: usize = 0;
    proof {
        reveal(Seq::filter);
        assert(all.take(0).filter(first_of) =~= Seq::<Candidate>::empty());
        assert(all.take(0).filter(rest_of) =~= Seq::<Candidate>::empty());
    }
    for item in it: items
        invariant
            it.seq() == all,
            at == it.index(),
            all.len() == total,
            first_of == |c: Candidate| c.is_preselected(),
            rest_of == |c: Candidate| !c.is_preselected(),
            first@ == all.take(it.index()).filter(first_of),
            rest@ == all.take(it.index()).filter(rest_of),
            tells_arrival(first_from@, first@, all),
            tells_arrival(rest_from@, rest@, all),
    {
        proof {
            reveal(Seq::filter);
            assert(all.take(it.index() + 1).drop_last() =~= all.take(it.index()));
            assert(all.take(it.index() + 1).last() == item);
        }
        if item.preselect() {
            first.push(item);
            first_from.push(at);
        } else {
            rest.push(item);
            rest_from.push(at);
        }
        at += 1;
    }
    assert(all.take(all.len() as int) =~= all);
    first.append(&mut rest);
    first_from.append(&mut rest_from);
    (first, first_from)
}

/// The score of each candidate in `pool` for `filter`.
pub fn collect_scores(
    matcher: &mut Matcher,
    items: &Vec<Candidate>,
    filter: &Vec<char>,
    pool: &Vec<usize>,
) -> (out: Vec<Scored>)
    requires
        forall|k: int| 0 <= k < pool@.len() ==> (#[trigger] pool@[k]) < items@.len(),
    ensures
        out@ == scores_of(items@, filter@, pool@),
        filter@.len() == 0 ==> forall|k: int|
            0 <= k < out@.len() && fits_matcher(filter@, items@[pool@[k] as int].match_text()) ==> (
            #[trigger] out@[k]).score == Some(0u16),
{
    let mut out: Vec<Scored> = Vec::new();
    let mut k: usize = 0;
    while k < pool.len()
        invariant
            k <= pool.len(),
            forall|j: int| 0 <= j < pool@.len() ==> (#[trigger] pool@[j]) < items@.len(),
            out@ == scores_of(items@, filter@, pool@).take(k as int),
            filter@.len() == 0 ==> forall|j: int|
                0 <= j < out@.len() && fits_matcher(filter@, items@[pool@[j] as int].match_text()) ==> (
                #[trigger] out@[j]).score == Some(0u16),
        decreases pool.len() - k,
    {
        let index = pool[k];
        let score = score_text(matcher, filter, items[index].filter_text());
        out.push(Scored { index, score });
        k += 1;
        assert(out@ =~= scores_of(items@, filter@, pool@).take(k as int));
    }
    assert(scores_of(items@, filter@, pool@).take(k as int) =~= scores_of(items@, filter@, pool@));
    out
}

/// The indices `0..n`.
pub fn index_range(n: usize) -> (out: Vec<usize>)
    ensures
        out@ == all_indices(n as nat),
{
    let mut out: Vec<usize> = Vec::new();
    let mut k: usize = 0;
    while k < n
        invariant
            k <= n,
            out@ == all_indices(k as nat),
        decreases n - k,
    {
        out.push(k);
        k += 1;
        assert(out@ =~= all_indices(k as nat));
    }
    out
}

/// The candidates that `matches` shows.
pub fn match_indices(matches: &Vec<Match>) -> (out: Vec<usize>)
    ensures
        out@ == indices_of(matches@),
{
    let mut out: Vec<usize> = Vec::new();
    let mut k: usize = 0;
    while k < matches.len()
        invariant
            k <= matches.len(),
            out@ == indices_of(matches@).take(k as int),
        decreases matches.len() - k,
    {
        out.push(matches[k].index);
        k += 1;
        assert(out@ =~= indices_of(matches@).take(k as int));
    }
    assert(indices_of(matches@).take(k as int) =~= indices_of(matches@));
    out
}

/// A ranking shows only candidates of the pool it was made from.
pub proof fn lemma_ranking_in_pool(
    matches: Seq<Match>,
    items: Seq<Candidate>,
    filter: Seq<char>,
    pool: Seq<usize>,
)
    requires
        is_ranking(matches, scores_of(items, filter, pool)),
    ensures
        forall|k: int|
            0 <= k < matches.len() ==> pool.contains((#[trigger] matches[k]).index)
                && matches[k].score <= u16::MAX && match_score(
                filter,
                items[matches[k].index as int].match_text(),
            ) == Some(matches[k].score as u16),
{
    let scored = scores_of(items, filter, pool);
    assert forall|k: int| 0 <= k < matches.len() implies pool.contains((#[trigger] matches[k]).index)
        && matches[k].score <= u16::MAX && match_score(
        filter,
        items[matches[k].index as int].match_text(),
    ) == Some(matches[k].score as u16) by {
        assert(matches.contains(matches[k]));
        assert(hits(scored, matches[k]));
        let j = choose|j: int|
            0 <= j < scored.len() && (#[trigger] scored[j]).score is Some && as_match(scored[j])
                == matches[k];
        assert(pool[j] == matches[k].index);
    }
}

/// Ranking again with the filter unchanged changes nothing: where
/// `shown` is the ranking of some candidates for `filter`, any ranking of
/// the candidates it shows for the same filter is `shown` itself.
pub proof fn lemma_reranking_is_stable(
    items: Seq<Candidate>,
    filter: Seq<char>,
    pool: Seq<usize>,
    shown: Seq<Match>,
    again: Seq<Match>,
)
    requires
        is_ranking(shown, scores_of(items, filter, pool)),
        is_ranking(again, scores_of(items, filter, indices_of(shown))),
    ensures
        again == shown,
{
    let narrowed = scores_of(items, filter, indices_of(shown));
    lemma_ranking_in_pool(shown, items, filter, pool);
    assert forall|m: Match| #[trigger] shown.contains(m) <==> hits(narrowed, m) by {
        if shown.contains(m) {
            let k = choose|k: int| 0 <= k < shown.len() && shown[k] == m;
            assert(narrowed[k].index == shown[k].index);
            assert(narrowed[k].score == Some(shown[k].score as u16));
            assert(as_match(narrowed[k]) == m);
        }
        if hits(narrowed, m) {
            let k = choose|k: int|
                0 <= k < narrowed.len() && (#[trigger] narrowed[k]).score is Some && as_match(
                    narrowed[k],
                ) == m;
            assert(narrowed[k].index == shown[k].index);
            assert(narrowed[k].score == Some(shown[k].score as u16));
            assert(shown[k] == m);
        }
    }
    crate::ranking::lemma_ranking_unique(again, shown, narrowed);
}

/// Where the candidates asked to come first were put in front and what
/// is shown follows the order of the set, none of them is shown below one
/// that was not.
pub proof fn lemma_initial_order(arrived: Seq<Candidate>, model: CompletionModel)
    requires
        model.wf(),
        model.items == preselected_first(arrived),
        forall|a: int, b: int|
            0 <= a < b < model.matches.len() ==> (#[trigger] model.matches[a]).index < (
            #[trigger] model.matches[b]).index,
    ensures
        preselected_on_top(model),
{
    lemma_preselected_first(arrived);
    assert forall|a: int, b: int|
        0 <= a < b < model.matches.len() && model.items[(#[trigger] model.matches[b]).index as int].is_preselected() implies model.items[(
    #[trigger] model.matches[a]).index as int].is_preselected() by {
        let i = model.matches[a].index as int;
        let j = model.matches[b].index as int;
        assert(i < j < model.items.len());
        assert(preselected_first(arrived)[j].is_preselected());
        assert(preselected_first(arrived)[i].is_preselected());
    }
}

/// Where every score is the same, what is shown follows the order of the
/// set.
pub proof fn lemma_equal_scores_keep_order(matches: Seq<Match>)
    requires
        in_order(matches),
        forall|k: int| 0 <= k < matches.len() ==> (#[trigger] matches[k]).score == 0,
    ensures
        forall|a: int, b: int|
            0 <= a < b < matches.len() ==> (#[trigger] matches[a]).index < (#[trigger] matches[b]).index,
{
    assert forall|a: int, b: int| 0 <= a < b < matches.len() implies (#[trigger] matches[a]).index < (
    #[trigger] matches[b]).index by {
        assert(crate::ranking::precedes(matches[a], matches[b]));
    }
}

impl Completion {
    /// The ranking is in order and shows candidates of the set, and the
    /// highlight is on a row of it.
    pub open spec fn wf(&self) -> bool {
        self@.wf()
    }

    /// Whether the set is well-formed, for callers that cannot know.
    pub fn is_well_formed(&self) -> (out: bool)
        ensures
            out == self.wf(),
    {
        match self.cursor {
            Some(row) => {
                if row >= self.matches.len() {
                    return false;
                }
            },
            None => {},
        }
        let mut k: usize = 0;
        while k < self.matches.len()
            invariant
                k <= self.matches.len(),
                forall|j: int| 0 <= j < k ==> (#[trigger] self.matches@[j]).index < self.items@.len(),
                forall|j: int|
                    0 < j < k ==> precedes(self.matches@[j - 1], #[trigger] self.matches@[j]),
            decreases self.matches.len() - k,
        {
            if self.matches[k].index >= self.items.len() {
                return false;
            }
            if k > 0 && !shown_before(self.matches[k - 1], self.matches[k]) {
                proof {
                    if in_order(self.matches@) {
                        assert(precedes(self.matches@[k as int - 1], self.matches@[k as int]));
                    }
                }
                return false;
            }
            k += 1;
        }
        proof {
            lemma_neighbours_in_order(self.matches@);
        }
        true
    }

    /// The candidate set for `items`, offered at `trigger_offset` in
    /// `text` with the cursor at `cursor`.
    ///
    /// Candidates asked to come first are put in front, the filter is the
    /// part of a word that stands before the cursor, and the ranking is
    /// that of all candidates for this filter. With an empty filter the
    /// candidates that the matcher takes are shown in the order of the
    /// set, so that those asked to come first are on top.
    pub fn new(items: Vec<Candidate>, text: &Vec<char>, cursor: usize, trigger_offset: usize) -> (out:
        Self)
        ensures
            out.wf(),
            out@.items == preselected_first(items@),
            tells_arrival(out@.order, out@.items, items@),
            out@.filter == word_before(text@, cursor as int),
            out@.trigger_offset == trigger_offset,
            out@.cursor is None,
            is_ranking(
                out@.matches,
                scores_of(out@.items, out@.filter, all_indices(out@.items.len())),
            ),
            out@.filter.len() == 0 ==> shown_unfiltered(out@) && preselected_on_top(out@),
    {
        let ghost arrived = items@;
        let (items, order) = sort_preselected(items);
        let filter = fragment_before(text, cursor);
        let mut matcher = new_matcher();
        let pool = index_range(items.len());
        let scored = collect_scores(&mut matcher, &items, &filter, &pool);
        let matches = rank(&scored);
        proof {
            lemma_ranking_in_pool(matches@, items@, filter@, pool@);
            assert forall|k: int| 0 <= k < matches@.len() implies (#[trigger] matches@[k]).index
                < items@.len() by {
                let j = choose|j: int| 0 <= j < pool@.len() && pool@[j] == matches@[k].index;
            }
        }
        let out = Completion { items, matches, cursor: None, trigger_offset, filter, matcher, order };
        proof {
            if out.filter@.len() == 0 {
                let model = out@;
                assert forall|k: int| 0 <= k < model.matches.len() implies (
                #[trigger] model.matches[k]).score == 0 && fits_matcher(
                    model.filter,
                    model.items[model.matches[k].index as int].match_text(),
                ) by {
                    let i = model.matches[k].index as int;
                    assert(pool@[i] == i);
                    assert(scored@[i].score == match_score(model.filter, model.items[i].match_text()));
                }
                lemma_equal_scores_keep_order(model.matches);
                assert forall|i: int|
                    0 <= i < model.items.len() && fits_matcher(
                        model.filter,
                        (#[trigger] model.items[i]).match_text(),
                    ) implies indices_of(model.matches).contains(i as usize) by {
                    assert(pool@[i] == i);
                    assert(scored@[i].score == Some(0u16));
                    assert(hits(scored@, as_match(scored@[i])));
                    assert(model.matches.contains(as_match(scored@[i])));
                    let k = choose|k: int|
                        0 <= k < model.matches.len() && model.matches[k] == as_match(scored@[i]);
                    assert(indices_of(model.matches)[k] == i as usize);
                }
                lemma_initial_order(arrived, model);
            }
        }
        out
    }

    /// Ranks anew for the filter as it stands: among the candidates shown
    /// where `incremental`, among all of them otherwise. The highlight is
    /// taken away. Ranking again what was ranked for the same filter
    /// changes nothing.
    pub fn score(&mut self, incremental: bool)
        requires
            old(self).wf(),
        ensures
            final(self).wf(),
            final(self)@.items == old(self)@.items,
            final(self)@.order == old(self)@.order,
            final(self)@.filter == old(self)@.filter,
            final(self)@.trigger_offset == old(self)@.trigger_offset,
            final(self)@.cursor is None,
            is_ranking(
                final(self)@.matches,
                scores_of(
                    old(self)@.items,
                    old(self)@.filter,
                    if incremental {
                        indices_of(old(self)@.matches)
                    } else {
                        all_indices(old(self)@.items.len())
                    },
                ),
            ),
            // a ranking made for this filter stays as it is
            incremental ==> forall|pool: Seq<usize>|
                is_ranking(
                    old(self)@.matches,
                    #[trigger] scores_of(old(self)@.items, old(self)@.filter, pool),
                ) ==> final(self)@.matches == old(self)@.matches,
            !incremental && is_ranking(
                old(self)@.matches,
                scores_of(old(self)@.items, old(self)@.filter, all_indices(old(self)@.items.len())),
            ) ==> final(self)@.matches == old(self)@.matches,
    {
        let ghost before = self.matches@;
        let pool = if incremental {
            match_indices(&self.matches)
        } else {
            index_range(self.items.len())
        };
        let scored = collect_scores(&mut self.matcher, &self.items, &self.filter, &pool);
        let matches = rank(&scored);
        proof {
            lemma_ranking_in_pool(matches@, self.items@, self.filter@, pool@);
            assert forall|k: int| 0 <= k < matches@.len() implies (#[trigger] matches@[k]).index
                < self.items@.len() by {
                let j = choose|j: int| 0 <= j < pool@.len() && pool@[j] == matches@[k].index;
            }
        }
        proof {
            if incremental {
                assert forall|known: Seq<usize>|
                    is_ranking(
                        before,
                        #[trigger] scores_of(self.items@, self.filter@, known),
                    ) implies matches@ == before by {
                    lemma_reranking_is_stable(self.items@, self.filter@, known, before, matches@);
                }
            } else if is_ranking(before, scores_of(self.items@, self.filter@, pool@)) {
                crate::ranking::lemma_ranking_unique(
                    matches@,
                    before,
                    scores_of(self.items@, self.filter@, pool@),
                );
            }
        }
        self.cursor = None;
        self.matches = matches;
    }

    /// Shows no candidate any more.
    pub fn clear(&mut self)
        requires
            old(self).wf(),
        ensures
            final(self).wf(),
            final(self)@ == (CompletionModel { matches: Seq::empty(), cursor: None, ..old(self)@ }),
    {
        self.cursor = None;
        self.matches = Vec::new();
    }

    /// Takes a typed character into the filter (`Some`), or the last one
    /// out of it (`None`), and ranks anew; see [`filter_updated`].
    pub fn update_filter(&mut self, c: Option<char>)
        requires
            old(self).wf(),
        ensures
            final(self).wf(),
            filter_updated(old(self)@, final(self)@, c),
    {
        match c {
            Some(ch) => {
                self.filter.push(ch);
            },
            None => {
                self.filter.pop();
                if self.filter.len() == 0 {
                    self.clear();
                    return ;
                }
            },
        }
        self.score(c.is_some());
    }

    /// Whether no candidate is shown.
    pub fn is_empty(&self) -> (out: bool)
        ensures
            out == (self@.matches.len() == 0),
    {
        self.matches.len() == 0
    }

    /// Puts `new_item` in the place of the first candidate that
    /// `old_item` equals; without such a candidate nothing changes. The
    /// ranking stays as it is.
    pub fn replace_item<T: PartialEq<Candidate>>(&mut self, old_item: &T, new_item: Candidate)
        requires
            old(self).wf(),
        ensures
            final(self).wf(),
            final(self)@.filter == old(self)@.filter,
            final(self)@.matches == old(self)@.matches,
            final(self)@.cursor == old(self)@.cursor,
            final(self)@.trigger_offset == old(self)@.trigger_offset,
            final(self)@.order == old(self)@.order,
            final(self)@.items == old(self)@.items || exists|i: int|
                0 <= i < old(self)@.items.len() && final(self)@.items == old(self)@.items.update(
                    i,
                    new_item,
                ),
            T::obeys_eq_spec() ==> forall|i: int|
                0 <= i < old(self)@.items.len() && old_item.eq_spec(&old(self)@.items[i]) && (forall|
                    j: int,
                | 0 <= j < i ==> !old_item.eq_spec(&old(self)@.items[j])) ==> final(self)@.items
                    == old(self)@.items.update(i, new_item),
            T::obeys_eq_spec() && (forall|i: int|
                0 <= i < old(self)@.items.len() ==> !old_item.eq_spec(&old(self)@.items[i]))
                ==> final(self)@.items == old(self)@.items,
    {
        let mut i: usize = 0;
        while i < self.items.len()
            invariant
                i <= self.items.len(),
                *self == *old(self),
                self.wf(),
                T::obeys_eq_spec() ==> forall|j: int| 0 <= j < i ==> !old_item.eq_spec(&self.items@[j]),
            decreases self.items.len() - i,
        {
            if old_item.eq(&self.items[i]) {
                self.items.set(i, new_item);
                return ;
            }
            i += 1;
        }
    }

    /// Moves the highlight one row on or back, around the ends.
    pub fn move_cursor(&mut self, direction: Direction)
        requires
            old(self).wf(),
        ensures
            final(self).wf(),
            final(self)@ == (CompletionModel {
                cursor: step_cursor(old(self)@.cursor, old(self)@.matches.len(), direction),
                ..old(self)@
            }),
    {
        let len = self.matches.len();
        if len == 0 {
            self.cursor = None;
            return ;
        }
        let row = match (self.cursor, direction) {
            (None, Direction::Next) => 0,
            (None, Direction::Prev) => len - 1,
            (Some(row), Direction::Next) => if row + 1 == len {
                0
            } else {
                row + 1
            },
            (Some(row), Direction::Prev) => if row == 0 {
                len - 1
            } else {
                row - 1
            },
        };
        self.cursor = Some(row);
    }

    /// The index of the highlighted candidate in the set.
    pub fn selected_index(&self) -> (out: Option<usize>)
        requires
            self.wf(),
        ensures
            out == match self@.cursor {
                Some(row) => Some(self@.matches[row as int].index),
                None => None,
            },
            out matches Some(i) ==> i < self@.items.len(),
    {
        match self.cursor {
            Some(row) => Some(self.matches[row].index),
            None => None,
        }
    }

    /// The highlighted candidate.
    pub fn selection(&self) -> (out: Option<&Candidate>)
        requires
            self.wf(),
        ensures
            match (out, self@.selection()) {
                (Some(c), Some(m)) => *c == m,
                (None, None) => true,
                _ => false,
            },
    {
        match self.cursor {
            Some(row) => Some(&self.items[self.matches[row].index]),
            None => None,
        }
    }

    /// Puts `item` in the place of the candidate at `index`; nothing
    /// changes where the set has no such place. The ranking stays as it
    /// is.
    pub fn set_item(&mut self, index: usize, item: Candidate)
        requires
            old(self).wf(),
        ensures
            final(self).wf(),
            final(self)@ == (CompletionModel {
                items: if index < old(self)@.items.len() {
                    old(self)@.items.update(index as int, item)
                } else {
                    old(self)@.items
                },
                ..old(self)@
            }),
    {
        if index < self.items.len() {
            self.items.set(index, item);
        }
    }

    /// The candidates, those asked to come first in front.
    pub fn items(&self) -> (out: &Vec<Candidate>)
        ensures
            out@ == self@.items,
    {
        &self.items
    }

    /// The candidates shown, best first.
    pub fn matches(&self) -> (out: &Vec<Match>)
        ensures
            out@ == self@.matches,
    {
        &self.matches
    }

    /// What was typed of the word under the cursor.
    pub fn filter(&self) -> (out: &Vec<char>)
        ensures
            out@ == self@.filter,
    {
        &self.filter
    }

    /// For each candidate, the place at which it arrived.
    pub fn order(&self) -> (out: &Vec<usize>)
        ensures
            out@ == self@.order,
    {
        &self.order
    }

    /// Where in the buffer completion was triggered.
    pub fn trigger_offset(&self) -> (out: usize)
        ensures
            out == self@.trigger_offset,
    {
        self.trigger_offset
    }
}

} // verus!
