//! Fetching a candidate's missing details while it is merely highlighted.

use crate::item::{Candidate, ProtocolItem, RawItem};
use crate::session::ProviderCaps;
use vstd::prelude::*;

verus! {

/// What to do about the details of a highlighted candidate.
#[derive(Debug, Clone, Copy, PartialEq, Eq)]
pub enum Lookup {
    /// Nothing: the details are there, cannot be had, or are on their way.
    Skip,
    /// Ask the provider, and do not wait for the answer.
    Request { candidate: usize },
    /// The provider is gone: the completions are out of date.
    Stale,
}

/// What is to be done for `candidate` while requests for `outstanding`
/// are under way.
pub open spec fn lookup_for(
    outstanding: Seq<usize>,
    candidate: usize,
    item: Candidate,
    provider: Option<ProviderCaps>,
) -> Lookup {
    match item {
        Candidate::Local(_) => Lookup::Skip,
        Candidate::Protocol(p) => if p.resolved {
            Lookup::Skip
        } else {
            match provider {
                None => Lookup::Stale,
                Some(caps) => if !caps.resolve || outstanding.contains(candidate) {
                    Lookup::Skip
                } else {
                    Lookup::Request { candidate }
                },
            }
        },
    }
}

/// The requests under way after the lookup for `candidate`.
pub open spec fn after_lookup(
    outstanding: Seq<usize>,
    candidate: usize,
    item: Candidate,
    provider: Option<ProviderCaps>,
) -> Seq<usize> {
    if lookup_for(outstanding, candidate, item, provider) is Request {
        outstanding.push(candidate)
    } else {
        outstanding
    }
}

/// Holds of every candidate but `candidate`.
pub open spec fn other_than(candidate: usize) -> spec_fn(usize) -> bool {
    |c: usize| c != candidate
}

/// The requests under way once the answer for `candidate` is in.
pub open spec fn after_answer(outstanding: Seq<usize>, candidate: usize) -> Seq<usize> {
    outstanding.filter(other_than(candidate))
}

/// What an answer makes of the candidate it is for: an answer that was
/// asked for and brought details fills them in; any other changes
/// nothing.
pub open spec fn answered(
    outstanding: Seq<usize>,
    candidate: usize,
    item: Candidate,
    answer: Option<RawItem>,
) -> Candidate {
    match (answer, item) {
        (Some(fresh), Candidate::Protocol(p)) if outstanding.contains(candidate) => Candidate::Protocol(
            ProtocolItem { provider: p.provider, item: fresh, resolved: true },
        ),
        _ => item,
    }
}

/// No candidate is asked about twice at a time.
pub open spec fn distinct(outstanding: Seq<usize>) -> bool {
    forall|i: int, j: int| 0 <= i < j < outstanding.len() ==> outstanding[i] != outstanding[j]
}

/// Keeps track of the requests under way.
#[derive(Debug)]
pub struct DetailResolver {
    outstanding: Vec<usize>,
}

impl View for DetailResolver {
    type V = Seq<usize>;

    closed spec fn view(&self) -> Seq<usize> {
        self.outstanding@
    }
}

impl DetailResolver {
    /// No candidate is asked about twice at a time.
    pub open spec fn wf(&self) -> bool {
        distinct(self@)
    }

    /// With no request under way.
    pub fn new() -> (out: Self)
        ensures
            out.wf(),
            out@ == Seq::<usize>::empty(),
    {
        DetailResolver { outstanding: Vec::new() }
    }

    /// Whether no candidate is asked about twice, for callers that cannot
    /// know.
    pub fn is_well_formed(&self) -> (out: bool)
        ensures
            out == self.wf(),
    {
        let n = self.outstanding.len();
        let mut j: usize = 0;
        while j < n
            invariant
                j <= n == self.outstanding.len(),
                forall|a: int, b: int|
                    0 <= a < b < j ==> self.outstanding@[a] != self.outstanding@[b],
            decreases n - j,
        {
            let mut i: usize = 0;
            while i < j
                invariant
                    i <= j < n == self.outstanding.len(),
                    forall|a: int| 0 <= a < i ==> self.outstanding@[a] != self.outstanding@[j as int],
                decreases j - i,
            {
                if self.outstanding[i] == self.outstanding[j] {
                    return false;
                }
                i += 1;
            }
            j += 1;
        }
        true
    }

    /// Whether a request for `candidate` is under way.
    pub fn is_pending(&self, candidate: usize) -> (out: bool)
        ensures
            out == self@.contains(candidate),
    {
        let mut i: usize = 0;
        while i < self.outstanding.len()
            invariant
                i <= self.outstanding.len(),
                forall|k: int| 0 <= k < i ==> self.outstanding@[k] != candidate,
            decreases self.outstanding.len() - i,
        {
            if self.outstanding[i] == candidate {
                return true;
            }
            i += 1;
        }
        false
    }

    /// What to do about the details of `item`, the candidate at
    /// `candidate`, whose provider can do `provider` or is gone; a request
    /// that this asks for counts as under way from now on.
    pub fn ensure_item_resolved(
        &mut self,
        candidate: usize,
        item: &Candidate,
        provider: Option<ProviderCaps>,
    ) -> (out: Lookup)
        requires
            old(self).wf(),
        ensures
            final(self).wf(),
            out == lookup_for(old(self)@, candidate, *item, provider),
            final(self)@ == after_lookup(old(self)@, candidate, *item, provider),
    {
        match item {
            Candidate::Local(_) => Lookup::Skip,
            Candidate::Protocol(p) => {
                if p.resolved {
                    return Lookup::Skip;
                }
                match provider {
                    None => Lookup::Stale,
                    Some(caps) => {
                        if !caps.resolve || self.is_pending(candidate) {
                            Lookup::Skip
                        } else {
                            self.outstanding.push(candidate);
                            Lookup::Request { candidate }
                        }
                    },
                }
            },
        }
    }

    /// Takes the answer for `candidate`: the request is no longer under
    /// way, and the result says whether one was.
    pub fn answer(&mut self, candidate: usize) -> (out: bool)
        requires
            old(self).wf(),
        ensures
            final(self).wf(),
            out == old(self)@.contains(candidate),
            final(self)@ == after_answer(old(self)@, candidate),
            !final(self)@.contains(candidate),
    {
        let ghost keep = other_than(candidate);
        let ghost all = self.outstanding@;
        let mut rest: Vec<usize> = Vec::new();
        let mut found = false;
        let mut i: usize = 0;
        proof {
            reveal(Seq::filter);
            assert(all.take(0).filter(keep) =~= Seq::<usize>::empty());
        }
        while i < self.outstanding.len()
            invariant
                i <= self.outstanding.len(),
                all == self.outstanding@,
                keep == other_than(candidate),
                rest@ == all.take(i as int).filter(keep),
                found == all.take(i as int).contains(candidate),
            decreases self.outstanding.len() - i,
        {
            let c = self.outstanding[i];
            proof {
                reveal(Seq::filter);
                let shorter = all.take(i as int);
                let longer = all.take(i as int + 1);
                assert(longer.drop_last() =~= shorter);
                assert(longer.last() == c);
                if shorter.contains(candidate) {
                    let k = choose|k: int| 0 <= k < shorter.len() && shorter[k] == candidate;
                    assert(longer[k] == candidate);
                }
                if longer.contains(candidate) && c != candidate {
                    let k = choose|k: int| 0 <= k < longer.len() && longer[k] == candidate;
                    assert(shorter[k] == candidate);
                }
                if c == candidate {
                    assert(longer[i as int] == candidate);
                }
            }
            if c == candidate {
                found = true;
            } else {
                rest.push(c);
            }
            i += 1;
        }
        proof {
            assert(all.take(i as int) =~= all);
            lemma_filter_keeps_distinct(all, keep);
            crate::completion::lemma_filter_members(all, keep);
            if rest@.contains(candidate) {
                let k = choose|k: int| 0 <= k < rest@.len() && rest@[k] == candidate;
                assert(keep(rest@[k]));
            }
        }
        self.outstanding = rest;
        found
    }
}

/// What a filter keeps of distinct things is distinct.
pub proof fn lemma_filter_keeps_distinct(s: Seq<usize>, pred: spec_fn(usize) -> bool)
    requires
        distinct(s),
    ensures
        distinct(s.filter(pred)),
    decreases s.len(),
{
    reveal(Seq::filter);
    if s.len() > 0 {
        let shorter = s.drop_last();
        assert(distinct(shorter)) by {
            assert forall|i: int, j: int| 0 <= i < j < shorter.len() implies shorter[i]
                != shorter[j] by {
                assert(s[i] != s[j]);
            }
        }
        lemma_filter_keeps_distinct(shorter, pred);
        crate::completion::lemma_filter_members(shorter, pred);
        let kept = shorter.filter(pred);
        if pred(s.last()) {
            assert forall|i: int, j: int| 0 <= i < j < kept.push(s.last()).len() implies kept.push(
                s.last(),
            )[i] != kept.push(s.last())[j] by {
                if j == kept.len() {
                    assert(shorter.contains(kept[i]));
                    let k = choose|k: int| 0 <= k < shorter.len() && shorter[k] == kept[i];
                    assert(s[k] != s[s.len() - 1]);
                } else {
                    assert(kept[i] != kept[j]);
                }
            }
        }
    }
}

} // verus!
