//! Transactions: ordered, disjoint replacements over a text of known length.

use vstd::prelude::*;

verus! {

/// One replacement: the characters in `[start, end)` give way to `text`.
#[derive(Debug, PartialEq, Eq)]
pub struct Change {
    pub start: usize,
    pub end: usize,
    pub text: Vec<char>,
}

/// What a [`Change`] stands for.
pub ghost struct ChangeModel {
    pub start: nat,
    pub end: nat,
    pub text: Seq<char>,
}

impl View for Change {
    type V = ChangeModel;

    open spec fn view(&self) -> ChangeModel {
        ChangeModel { start: self.start as nat, end: self.end as nat, text: self.text@ }
    }
}

impl Clone for Change {
    fn clone(&self) -> (out: Self)
        ensures
            out@ == self@,
    {
        Change { start: self.start, end: self.end, text: clone_chars(&self.text) }
    }
}

/// A copy of `text`.
pub fn clone_chars(text: &Vec<char>) -> (out: Vec<char>)
    ensures
        out@ == text@,
{
    let mut out: Vec<char> = Vec::new();
    let mut i: usize = 0;
    while i < text.len()
        invariant
            i <= text.len(),
            out@ == text@.take(i as int),
        decreases text.len() - i,
    {
        out.push(text[i]);
        i += 1;
    }
    out
}

/// The views of a vector of changes, in order.
pub open spec fn models(changes: Seq<Change>) -> Seq<ChangeModel> {
    changes.map_values(|c: Change| c@)
}

/// Each change lies inside a text of `len` characters, and each ends
/// before the next one starts.
pub open spec fn changes_fit(changes: Seq<ChangeModel>, len: nat) -> bool {
    &&& forall|i: int| 0 <= i < changes.len() ==> #[trigger] changes[i].start <= changes[i].end
    &&& forall|i: int| 0 <= i < changes.len() ==> #[trigger] changes[i].end <= len
    &&& forall|i: int, j: int|
        0 <= i < j < changes.len() ==> #[trigger] changes[i].end <= #[trigger] changes[j].start
}

/// The text that results from `changes[i..]` once everything before `pos`
/// has been written out: untouched stretches are copied, replaced ones
/// give way to the replacement.
pub open spec fn apply_from(changes: Seq<ChangeModel>, text: Seq<char>, i: int, pos: int) -> Seq<char>
    decreases changes.len() - i,
{
    if i < 0 || i >= changes.len() {
        text.subrange(pos, text.len() as int)
    } else {
        text.subrange(pos, changes[i].start as int) + changes[i].text + apply_from(
            changes,
            text,
            i + 1,
            changes[i].end as int,
        )
    }
}

/// The text after all of `changes` have been carried out on `text`.
pub open spec fn apply_changes(changes: Seq<ChangeModel>, text: Seq<char>) -> Seq<char> {
    apply_from(changes, text, 0, 0)
}

/// What a [`Transaction`] stands for.
pub ghost struct TransactionModel {
    /// Length of the text the transaction is meant for.
    pub len: nat,
    pub changes: Seq<ChangeModel>,
}

impl TransactionModel {
    pub open spec fn wf(self) -> bool {
        changes_fit(self.changes, self.len)
    }

    /// The text after the transaction; meaningful where `text` has the
    /// length the transaction was built for.
    pub open spec fn apply(self, text: Seq<char>) -> Seq<char> {
        apply_changes(self.changes, text)
    }

    pub open spec fn is_noop(self) -> bool {
        self.changes.len() == 0
    }
}

/// An ordered set of disjoint replacements over a text of a fixed length.
#[derive(Debug, PartialEq, Eq)]
pub struct Transaction {
    len: usize,
    changes: Vec<Change>,
}

impl View for Transaction {
    type V = TransactionModel;

    closed spec fn view(&self) -> TransactionModel {
        TransactionModel { len: self.len as nat, changes: models(self.changes@) }
    }
}

impl Transaction {
    #[verifier::type_invariant]
    pub closed spec fn wf(self) -> bool {
        self@.wf()
    }

    /// The transaction that leaves a text of `len` characters as it is.
    pub fn new(len: usize) -> (out: Self)
        ensures
            out@ == (TransactionModel { len: len as nat, changes: Seq::empty() }),
            out.wf(),
    {
        let out = Transaction { len, changes: Vec::new() };
        assert(models(out.changes@) =~= Seq::empty());
        out
    }

    /// The transaction that replaces `[start, end)` by `text`, or `None`
    /// where that span does not lie inside a text of `len` characters.
    pub fn replace(len: usize, start: usize, end: usize, text: Vec<char>) -> (out: Option<Self>)
        ensures
            out is Some <==> start <= end <= len,
            out matches Some(t) ==> t.wf() && t@ == (TransactionModel {
                len: len as nat,
                changes: seq![ChangeModel { start: start as nat, end: end as nat, text: text@ }],
            }),
    {
        if start <= end && end <= len {
            let mut changes: Vec<Change> = Vec::new();
            changes.push(Change { start, end, text });
            let out = Transaction { len, changes };
            assert(models(out.changes@) =~= seq![
                ChangeModel { start: start as nat, end: end as nat, text: text@ },
            ]);
            Some(out)
        } else {
            None
        }
    }

    /// The transaction made of `changes`, or `None` where they are out of
    /// order, overlap, or reach beyond a text of `len` characters.
    pub fn from_changes(len: usize, changes: Vec<Change>) -> (out: Option<Self>)
        ensures
            out is Some <==> changes_fit(models(changes@), len as nat),
            out matches Some(t) ==> t.wf() && t@ == (TransactionModel {
                len: len as nat,
                changes: models(changes@),
            }),
    {
        let ghost ms = models(changes@);
        let mut i: usize = 0;
        let mut floor: usize = 0;
        while i < changes.len()
            invariant
                i <= changes.len(),
                ms == models(changes@),
                changes_fit(ms.take(i as int), len as nat),
                i == 0 ==> floor == 0,
                i > 0 ==> floor == ms[i as int - 1].end,
            decreases changes.len() - i,
        {
            let c = &changes[i];
            assert(ms[i as int] == c@);
            if !(floor <= c.start && c.start <= c.end && c.end <= len) {
                proof {
                    if changes_fit(ms, len as nat) {
                        assert(ms[i as int].start <= ms[i as int].end);
                        assert(ms[i as int].end <= len);
                        if i > 0 {
                            assert(ms[i as int - 1].end <= ms[i as int].start);
                        }
                    }
                }
                return None;
            }
            proof {
                let before = ms.take(i as int);
                let after = ms.take(i as int + 1);
                assert forall|a: int, b: int| 0 <= a < b < after.len() implies #[trigger] after[a].end
                    <= #[trigger] after[b].start by {
                    if b < i {
                        assert(before[a].end <= before[b].start);
                    } else if a < i - 1 {
                        assert(before[a].end <= before[i as int - 1].start);
                        assert(before[i as int - 1].start <= before[i as int - 1].end);
                    }
                }
                assert forall|a: int| 0 <= a < after.len() implies #[trigger] after[a].start
                    <= after[a].end by {
                    if a < i {
                        assert(before[a].start <= before[a].end);
                    }
                }
                assert forall|a: int| 0 <= a < after.len() implies #[trigger] after[a].end <= len by {
                    if a < i {
                        assert(before[a].end <= len);
                    }
                }
            }
            floor = c.end;
            i += 1;
        }
        assert(ms.take(i as int) =~= ms);
        Some(Transaction { len, changes })
    }

    /// The text after the transaction, or `None` where `text` has not the
    /// length the transaction was built for.
    pub fn apply(&self, text: &Vec<char>) -> (out: Option<Vec<char>>)
        ensures
            out is Some <==> text@.len() == self@.len,
            out matches Some(t) ==> t@ == self@.apply(text@),
    {
        proof {
            use_type_invariant(self);
        }
        if text.len() != self.len {
            return None;
        }
        let ghost ms = self@.changes;
        let mut out: Vec<char> = Vec::new();
        let mut pos: usize = 0;
        let mut i: usize = 0;
        while i < self.changes.len()
            invariant
                i <= self.changes.len(),
                ms == models(self.changes@),
                changes_fit(ms, text@.len()),
                i == 0 ==> pos == 0,
                i > 0 ==> pos == ms[i as int - 1].end,
                out@ + apply_from(ms, text@, i as int, pos as int) == apply_changes(ms, text@),
            decreases self.changes.len() - i,
        {
            let c = &self.changes[i];
            assert(ms[i as int] == c@);
            proof {
                assert(ms[i as int].start <= ms[i as int].end);
                assert(ms[i as int].end <= text@.len());
                if i > 0 {
                    assert(ms[i as int - 1].end <= ms[i as int].start);
                }
            }
            let ghost before = out@;
            let ghost rest = apply_from(ms, text@, i as int + 1, c.end as int);
            extend_range(&mut out, text, pos, c.start);
            extend_range(&mut out, &c.text, 0, c.text.len());
            proof {
                assert(c.text@.subrange(0, c.text@.len() as int) =~= c.text@);
                assert(out@ + rest =~= before + (text@.subrange(pos as int, c.start as int) + c.text@
                    + rest));
            }
            pos = c.end;
            i += 1;
        }
        proof {
            if i > 0 {
                assert(ms[i as int - 1].end <= text@.len());
            }
        }
        extend_range(&mut out, text, pos, text.len());
        Some(out)
    }

    /// Length of the text the transaction is meant for.
    pub fn len(&self) -> (out: usize)
        ensures
            out == self@.len,
    {
        self.len
    }

    /// Whether the transaction changes nothing.
    pub fn is_empty(&self) -> (out: bool)
        ensures
            out == self@.is_noop(),
    {
        self.changes.len() == 0
    }

    /// The changes, in order.
    pub fn changes(&self) -> (out: &Vec<Change>)
        ensures
            models(out@) == self@.changes,
    {
        &self.changes
    }
}


impl Clone for Transaction {
    fn clone(&self) -> (out: Self)
        ensures
            out@ == self@,
            out.wf(),
    {
        proof {
            use_type_invariant(self);
        }
        let changes = clone_changes(&self.changes);
        Transaction { len: self.len, changes }
    }
}

/// A copy of `changes`.
pub fn clone_changes(changes: &Vec<Change>) -> (out: Vec<Change>)
    ensures
        models(out@) == models(changes@),
{
    let mut out: Vec<Change> = Vec::new();
    let mut i: usize = 0;
    while i < changes.len()
        invariant
            i <= changes.len(),
            models(out@) == models(changes@).take(i as int),
        decreases changes.len() - i,
    {
        let ghost before = models(out@);
        let c = changes[i].clone();
        out.push(c);
        i += 1;
        assert(models(out@) =~= before.push(c@));
        assert(models(out@) =~= models(changes@).take(i as int));
    }
    assert(models(changes@).take(i as int) =~= models(changes@));
    out
}

/// Whether two texts hold the same characters.
pub fn same_chars(a: &Vec<char>, b: &Vec<char>) -> (out: bool)
    ensures
        out == (a@ == b@),
{
    if a.len() != b.len() {
        return false;
    }
    let mut i: usize = 0;
    while i < a.len()
        invariant
            i <= a.len() == b.len(),
            a@.take(i as int) == b@.take(i as int),
        decreases a.len() - i,
    {
        if a[i] != b[i] {
            return false;
        }
        i += 1;
        assert(a@.take(i as int) =~= a@.take(i as int - 1).push(a@[i as int - 1]));
        assert(b@.take(i as int) =~= b@.take(i as int - 1).push(b@[i as int - 1]));
    }
    assert(a@.take(i as int) =~= a@);
    assert(b@.take(i as int) =~= b@);
    true
}

impl Transaction {
    /// Whether two transactions are for texts of the same length and
    /// make the same changes.
    pub fn is_same(&self, other: &Transaction) -> (out: bool)
        ensures
            out == (self@ == other@),
    {
        let ghost a = models(self.changes@);
        let ghost b = models(other.changes@);
        if self.len != other.len || self.changes.len() != other.changes.len() {
            assert(a.len() != b.len() || self@.len != other@.len);
            return false;
        }
        let mut i: usize = 0;
        while i < self.changes.len()
            invariant
                i <= self.changes.len() == other.changes.len(),
                a == models(self.changes@),
                b == models(other.changes@),
                a.take(i as int) == b.take(i as int),
            decreases self.changes.len() - i,
        {
            let x = &self.changes[i];
            let y = &other.changes[i];
            assert(a[i as int] == x@ && b[i as int] == y@);
            if x.start != y.start || x.end != y.end || !same_chars(&x.text, &y.text) {
                return false;
            }
            i += 1;
            assert(a.take(i as int) =~= a.take(i as int - 1).push(a[i as int - 1]));
            assert(b.take(i as int) =~= b.take(i as int - 1).push(b[i as int - 1]));
        }
        assert(a.take(i as int) =~= a);
        assert(b.take(i as int) =~= b);
        true
    }
}

/// Appends `src[from..to]` to `out`.
pub fn extend_range(out: &mut Vec<char>, src: &Vec<char>, from: usize, to: usize)
    requires
        from <= to <= src.len(),
    ensures
        final(out)@ == old(out)@ + src@.subrange(from as int, to as int),
{
    let mut i: usize = from;
    while i < to
        invariant
            from <= i <= to <= src.len(),
            out@ == old(out)@ + src@.subrange(from as int, i as int),
        decreases to - i,
    {
        out.push(src[i]);
        i += 1;
        assert(out@ =~= old(out)@ + src@.subrange(from as int, i as int));
    }
}

/// Whether a change touches the offset at which completion was triggered.
pub open spec fn touches(c: ChangeModel, trigger_offset: nat) -> bool {
    c.start <= trigger_offset <= c.end
}

/// The changes of `transaction` whose span holds `trigger_offset`, ends
/// included, in their order.
pub fn completion_changes(transaction: &Transaction, trigger_offset: usize) -> (out: Vec<Change>)
    ensures
        models(out@) == transaction@.changes.filter(
            |c: ChangeModel| touches(c, trigger_offset as nat),
        ),
{
    let changes = transaction.changes();
    let ghost ms = models(changes@);
    let ghost keep = |c: ChangeModel| touches(c, trigger_offset as nat);
    let mut out: Vec<Change> = Vec::new();
    let mut i: usize = 0;
    proof {
        reveal(Seq::filter);
        assert(ms.take(0).filter(keep) =~= Seq::<ChangeModel>::empty());
    }
    while i < changes.len()
        invariant
            i <= changes.len(),
            ms == models(changes@),
            keep == |c: ChangeModel| touches(c, trigger_offset as nat),
            models(out@) == ms.take(i as int).filter(keep),
        decreases changes.len() - i,
    {
        let c = &changes[i];
        proof {
            reveal(Seq::filter);
            assert(ms.take(i as int + 1).drop_last() =~= ms.take(i as int));
            assert(ms.take(i as int + 1).last() == c@);
        }
        if c.start <= trigger_offset && trigger_offset <= c.end {
            let ghost before = models(out@);
            out.push(c.clone());
            assert(models(out@) =~= before.push(c@));
        }
        i += 1;
    }
    assert(ms.take(i as int) =~= ms);
    out
}

} // verus!
