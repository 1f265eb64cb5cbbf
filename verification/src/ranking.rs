//! Ranking: which candidates match, and in what order they are shown.

use vstd::prelude::*;

verus! {

/// A candidate with the score it got, or `None` where it did not match.
#[derive(Debug, Clone, Copy, PartialEq, Eq)]
pub struct Scored {
    pub index: usize,
    pub score: Option<u16>,
}

/// A candidate that matched, with its score.
#[derive(Debug, Clone, Copy, PartialEq, Eq)]
pub struct Match {
    pub index: usize,
    pub score: u32,
}

/// `a` is shown before `b`: by the higher score, and among equal scores
/// by the lower index.
pub open spec fn precedes(a: Match, b: Match) -> bool {
    a.score > b.score || (a.score == b.score && a.index < b.index)
}

/// Each match is shown before all those behind it.
pub open spec fn in_order(matches: Seq<Match>) -> bool {
    forall|a: int, b: int| 0 <= a < b < matches.len() ==> precedes(#[trigger] matches[a], #[trigger] matches[b])
}

/// The match that an entry with a score stands for.
pub open spec fn as_match(entry: Scored) -> Match {
    Match { index: entry.index, score: entry.score->0 as u32 }
}

/// Whether `m` stands for one of the entries that have a score.
pub open spec fn hits(scored: Seq<Scored>, m: Match) -> bool {
    exists|k: int| 0 <= k < scored.len() && (#[trigger] scored[k]).score is Some && as_match(scored[k]) == m
}

/// `matches` is the ranking of `scored`: the entries that have a score,
/// each once, best first.
pub open spec fn is_ranking(matches: Seq<Match>, scored: Seq<Scored>) -> bool {
    &&& in_order(matches)
    &&& forall|m: Match| #[trigger] matches.contains(m) <==> hits(scored, m)
}

/// Whether `a` is shown before `b`.
pub fn shown_before(a: Match, b: Match) -> (out: bool)
    ensures
        out == precedes(a, b),
{
    a.score > b.score || (a.score == b.score && a.index < b.index)
}

/// Where each match is shown before the next one, each is shown before
/// all behind it.
pub proof fn lemma_neighbours_in_order(matches: Seq<Match>)
    requires
        forall|k: int| 0 < k < matches.len() ==> precedes(matches[k - 1], #[trigger] matches[k]),
    ensures
        in_order(matches),
    decreases matches.len(),
{
    if matches.len() > 1 {
        let shorter = matches.drop_last();
        assert forall|k: int| 0 < k < shorter.len() implies precedes(
            shorter[k - 1],
            #[trigger] shorter[k],
        ) by {
            assert(precedes(matches[k - 1], matches[k]));
        }
        lemma_neighbours_in_order(shorter);
        assert forall|a: int, b: int| 0 <= a < b < matches.len() implies precedes(
            #[trigger] matches[a],
            #[trigger] matches[b],
        ) by {
            let last = matches.len() - 1;
            if b < last {
                assert(precedes(shorter[a], shorter[b]));
            } else {
                assert(precedes(matches[last - 1], matches[last]));
                if a < last - 1 {
                    assert(precedes(shorter[a], shorter[last - 1]));
                }
            }
        }
    }
}

/// A ranking is determined by what it ranks: two rankings of the same
/// entries are the same sequence.
pub proof fn lemma_ranking_unique(a: Seq<Match>, b: Seq<Match>, scored: Seq<Scored>)
    requires
        is_ranking(a, scored),
        is_ranking(b, scored),
    ensures
        a == b,
{
    lemma_same_members_same_order(a, b);
}

/// Two sequences in order with the same members are equal.
pub proof fn lemma_same_members_same_order(a: Seq<Match>, b: Seq<Match>)
    requires
        in_order(a),
        in_order(b),
        forall|m: Match| a.contains(m) <==> b.contains(m),
    ensures
        a == b,
    decreases a.len(),
{
    if a.len() == 0 {
        if b.len() > 0 {
            assert(b.contains(b[0]));
            assert(a.contains(b[0]));
        }
        assert(a =~= b);
    } else {
        assert(a.contains(a[0]));
        assert(b.contains(a[0]));
        let j = choose|j: int| 0 <= j < b.len() && b[j] == a[0];
        assert(b.contains(b[0]));
        assert(a.contains(b[0]));
        let i = choose|i: int| 0 <= i < a.len() && a[i] == b[0];
        if i > 0 {
            assert(precedes(a[0], a[i]));
        }
        if j > 0 {
            assert(precedes(b[0], b[j]));
        }
        assert(a[0] == b[0]);
        let ra = a.skip(1);
        let rb = b.skip(1);
        assert forall|m: Match| ra.contains(m) <==> rb.contains(m) by {
            if ra.contains(m) {
                let k = choose|k: int| 0 <= k < ra.len() && ra[k] == m;
                assert(a[k + 1] == m);
                assert(precedes(a[0], a[k + 1]));
                assert(a.contains(m));
                assert(b.contains(m));
                let l = choose|l: int| 0 <= l < b.len() && b[l] == m;
                assert(l > 0);
                assert(rb[l - 1] == m);
            }
            if rb.contains(m) {
                let k = choose|k: int| 0 <= k < rb.len() && rb[k] == m;
                assert(b[k + 1] == m);
                assert(precedes(b[0], b[k + 1]));
                assert(b.contains(m));
                assert(a.contains(m));
                let l = choose|l: int| 0 <= l < a.len() && a[l] == m;
                assert(l > 0);
                assert(ra[l - 1] == m);
            }
        }
        assert forall|x: int, y: int| 0 <= x < y < ra.len() implies precedes(
            #[trigger] ra[x],
            #[trigger] ra[y],
        ) by {
            assert(precedes(a[x + 1], a[y + 1]));
        }
        assert forall|x: int, y: int| 0 <= x < y < rb.len() implies precedes(
            #[trigger] rb[x],
            #[trigger] rb[y],
        ) by {
            assert(precedes(b[x + 1], b[y + 1]));
        }
        lemma_same_members_same_order(ra, rb);
        assert(a =~= seq![a[0]] + ra);
        assert(b =~= seq![b[0]] + rb);
    }
}

/// Putting `m` where it belongs keeps the order and adds `m` alone.
proof fn lemma_insert(matches: Seq<Match>, at: int, m: Match)
    requires
        in_order(matches),
        0 <= at <= matches.len(),
        forall|a: int| 0 <= a < at ==> precedes(#[trigger] matches[a], m),
        at < matches.len() ==> precedes(m, matches[at]),
    ensures
        in_order(matches.insert(at, m)),
        forall|x: Match| #[trigger] matches.insert(at, m).contains(x) <==> (matches.contains(x) || x == m),
{
    let r = matches.insert(at, m);
    assert forall|a: int, b: int| 0 <= a < b < r.len() implies precedes(
        #[trigger] r[a],
        #[trigger] r[b],
    ) by {
        if b < at {
            assert(precedes(matches[a], matches[b]));
        } else if b == at {
            assert(precedes(matches[a], m));
        } else if a == at {
            if b - 1 > at {
                assert(precedes(matches[at], matches[b - 1]));
            }
        } else if a < at {
            assert(precedes(matches[a], m));
            if b - 1 > at {
                assert(precedes(matches[at], matches[b - 1]));
            }
        } else {
            assert(precedes(matches[a - 1], matches[b - 1]));
        }
    }
    assert forall|x: Match| #[trigger] r.contains(x) <==> (matches.contains(x) || x == m) by {
        if r.contains(x) {
            let k = choose|k: int| 0 <= k < r.len() && r[k] == x;
            if k < at {
                assert(matches[k] == x);
            } else if k > at {
                assert(matches[k - 1] == x);
            }
        }
        if matches.contains(x) {
            let k = choose|k: int| 0 <= k < matches.len() && matches[k] == x;
            if k < at {
                assert(r[k] == x);
            } else {
                assert(r[k + 1] == x);
            }
        }
        if x == m {
            assert(r[at] == x);
        }
    }
}

/// What one more entry adds to the matches.
proof fn lemma_hits_step(scored: Seq<Scored>, i: int)
    requires
        0 <= i < scored.len(),
    ensures
        forall|m: Match| #[trigger]
            hits(scored.take(i + 1), m) <==> (hits(scored.take(i), m) || (scored[i].score is Some
                && as_match(scored[i]) == m)),
{
    let shorter = scored.take(i);
    let longer = scored.take(i + 1);
    assert forall|m: Match| #[trigger]
        hits(longer, m) <==> (hits(shorter, m) || (scored[i].score is Some && as_match(scored[i])
            == m)) by {
        if hits(longer, m) {
            let k = choose|k: int|
                0 <= k < longer.len() && (#[trigger] longer[k]).score is Some && as_match(longer[k])
                    == m;
            if k < i {
                assert(shorter[k] == longer[k]);
            }
        }
        if hits(shorter, m) {
            let k = choose|k: int|
                0 <= k < shorter.len() && (#[trigger] shorter[k]).score is Some && as_match(
                    shorter[k],
                ) == m;
            assert(longer[k] == shorter[k]);
        }
        if scored[i].score is Some && as_match(scored[i]) == m {
            assert(longer[i] == scored[i]);
        }
    }
}

/// The ranking of `scored`: the entries that matched, best first.
pub fn rank(scored: &Vec<Scored>) -> (out: Vec<Match>)
    ensures
        is_ranking(out@, scored@),
{
    let mut out: Vec<Match> = Vec::new();
    let mut i: usize = 0;
    assert forall|m: Match| #[trigger] out@.contains(m) <==> hits(scored@.take(0), m) by {
        if hits(scored@.take(0), m) {
        }
    }
    while i < scored.len()
        invariant
            i <= scored.len(),
            in_order(out@),
            forall|m: Match| #[trigger] out@.contains(m) <==> hits(scored@.take(i as int), m),
        decreases scored.len() - i,
    {
        let entry = scored[i];
        proof {
            lemma_hits_step(scored@, i as int);
        }
        match entry.score {
            None => {},
            Some(score) => {
                let m = Match { index: entry.index, score: score as u32 };
                assert(m == as_match(scored@[i as int]));
                let mut at: usize = 0;
                while at < out.len() && shown_before(out[at], m)
                    invariant
                        at <= out.len(),
                        forall|a: int| 0 <= a < at ==> precedes(#[trigger] out@[a], m),
                    decreases out.len() - at,
                {
                    at += 1;
                }
                if at < out.len() && out[at].index == m.index && out[at].score == m.score {
                    assert(out@[at as int] == m);
                    assert(out@.contains(m));
                } else {
                    proof {
                        lemma_insert(out@, at as int, m);
                    }
                    out.insert(at, m);
                }
            },
        }
        i += 1;
    }
    assert(scored@.take(i as int) =~= scored@);
    out
}

} // verus!
