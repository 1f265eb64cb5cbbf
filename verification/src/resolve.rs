//! From a provider's item to the transaction that puts it into the buffer.

use crate::item::{EditDescription, RawItem, Span};
use crate::snippet::{parse, parse_spec, RenderedModel, RenderedSnippet};
use crate::text::chars_of;
use crate::transaction::{
    changes_fit, clone_chars, models, Change, ChangeModel, Transaction, TransactionModel,
};
use vstd::prelude::*;

verus! {

/// The span an item asks to replace: of a structured edit the replace
/// span in replace mode and the insert span otherwise, `None` where that
/// one did not map onto the buffer; of plain text the stretch typed since
/// completion was triggered.
pub open spec fn edit_span(
    item: &RawItem,
    cursor: usize,
    trigger_offset: usize,
    replace_mode: bool,
) -> Option<Span> {
    match item.edit {
        EditDescription::Structured { insert, replace, .. } => if replace_mode {
            replace
        } else {
            insert
        },
        EditDescription::PlainText { .. } => Some(Span { start: trigger_offset, end: cursor }),
    }
}

/// Whether `span` is a stretch of a text of `len` characters.
pub open spec fn maps_onto(span: Span, len: nat) -> bool {
    span.start <= span.end <= len
}

/// A span as signed distances from a cursor.
#[derive(Debug, Clone, Copy, PartialEq, Eq)]
pub struct EditOffsets {
    pub start: i128,
    pub end: i128,
}

/// The span `offsets` denotes for a cursor at `cursor`, where it is a
/// stretch of a text of `len` characters.
pub open spec fn span_at(offsets: EditOffsets, cursor: usize, len: nat) -> Option<Span> {
    if 0 <= cursor + offsets.start <= cursor + offsets.end <= len && len <= usize::MAX {
        Some(Span { start: (cursor + offsets.start) as usize, end: (cursor + offsets.end) as usize })
    } else {
        None
    }
}

/// `span` as distances from `cursor`.
pub open spec fn offsets_of(span: Span, cursor: usize) -> EditOffsets {
    EditOffsets { start: (span.start - cursor) as i128, end: (span.end - cursor) as i128 }
}

/// `span` as distances from `cursor`.
pub fn relative_offsets(span: Span, cursor: usize) -> (out: EditOffsets)
    ensures
        out == offsets_of(span, cursor),
        out.start == span.start - cursor,
        out.end == span.end - cursor,
{
    EditOffsets { start: span.start as i128 - cursor as i128, end: span.end as i128 - cursor as i128 }
}

/// The span that `offsets` denotes for a cursor at `cursor` in a text of
/// `len` characters, or `None` where it reaches outside the text or ends
/// before it starts.
pub fn absolute_span(offsets: EditOffsets, cursor: usize, len: usize) -> (out: Option<Span>)
    ensures
        out == span_at(offsets, cursor, len as nat),
{
    let start = match (cursor as i128).checked_add(offsets.start) {
        Some(start) => start,
        None => {
            return None;
        },
    };
    let end = match (cursor as i128).checked_add(offsets.end) {
        Some(end) => end,
        None => {
            return None;
        },
    };
    if 0 <= start && start <= end && end <= len as i128 {
        Some(Span { start: start as usize, end: end as usize })
    } else {
        None
    }
}

/// The cursors of a buffer, one of them the primary one.
#[derive(Debug, PartialEq, Eq)]
pub struct Selection {
    pub cursors: Vec<usize>,
    /// The place of the primary cursor among `cursors`.
    pub primary: usize,
}

impl Selection {
    /// The selection of one cursor.
    pub fn single(cursor: usize) -> (out: Self)
        ensures
            out.cursors@ == seq![cursor],
            out.primary == 0,
    {
        let mut cursors: Vec<usize> = Vec::new();
        cursors.push(cursor);
        Selection { cursors, primary: 0 }
    }

    /// A copy of the selection.
    pub fn copy(&self) -> (out: Self)
        ensures
            out.cursors@ == self.cursors@,
            out.primary == self.primary,
    {
        let mut cursors: Vec<usize> = Vec::new();
        let mut i: usize = 0;
        while i < self.cursors.len()
            invariant
                i <= self.cursors.len(),
                cursors@ == self.cursors@.take(i as int),
            decreases self.cursors.len() - i,
        {
            cursors.push(self.cursors[i]);
            i += 1;
        }
        assert(self.cursors@.take(i as int) =~= self.cursors@);
        Selection { cursors, primary: self.primary }
    }

    /// The primary cursor, where the selection has one.
    pub fn cursor(&self) -> (out: Option<usize>)
        ensures
            out == primary_cursor(self.cursors@, self.primary),
    {
        if self.primary < self.cursors.len() {
            Some(self.cursors[self.primary])
        } else {
            None
        }
    }
}

/// The primary cursor among `cursors`, where `primary` is a place among
/// them.
pub open spec fn primary_cursor(cursors: Seq<usize>, primary: usize) -> Option<usize> {
    if primary < cursors.len() {
        Some(cursors[primary as int])
    } else {
        None
    }
}

/// What a buffer holds: its text and its cursors.
pub ghost struct BufferModel {
    pub text: Seq<char>,
    pub cursors: Seq<usize>,
    pub primary: usize,
}

/// What resolving an item gives: the transaction, and the snippet it put
/// in, if it did.
pub ghost struct ResolutionModel {
    pub transaction: TransactionModel,
    pub snippet: Option<RenderedModel>,
}

/// The transaction that replaces `span` by `text` and nothing else.
pub open spec fn single_change(len: nat, span: Span, text: Seq<char>) -> TransactionModel {
    TransactionModel {
        len,
        changes: seq![ChangeModel { start: span.start as nat, end: span.end as nat, text }],
    }
}

/// The transaction that changes nothing.
pub open spec fn no_change(len: nat) -> TransactionModel {
    TransactionModel { len, changes: Seq::empty() }
}

/// The characters that `changes` take out of the text.
pub open spec fn removed_in(changes: Seq<ChangeModel>) -> nat
    decreases changes.len(),
{
    if changes.len() == 0 {
        0
    } else {
        removed_in(changes.drop_last()) + (changes.last().end - changes.last().start) as nat
    }
}

/// The characters that `changes` put into the text.
pub open spec fn inserted_in(changes: Seq<ChangeModel>) -> nat
    decreases changes.len(),
{
    if changes.len() == 0 {
        0
    } else {
        inserted_in(changes.drop_last()) + changes.last().text.len()
    }
}

/// An edit to be carried out at every cursor: the span as distances from
/// a cursor, the span `home` it denotes at the primary cursor, and the
/// text to put there.
pub ghost struct Replay {
    pub offsets: EditOffsets,
    pub cursors: Seq<usize>,
    pub primary: int,
    pub home: Span,
    pub buffer: Seq<char>,
    pub text: Seq<char>,
}

impl Replay {
    /// The span of the edit at cursor `i`.
    pub open spec fn span(self, i: int) -> Option<Span> {
        span_at(self.offsets, self.cursors[i], self.buffer.len())
    }

    /// The change at cursor `i`.
    pub open spec fn change(self, i: int) -> ChangeModel {
        ChangeModel {
            start: self.span(i)->0.start as nat,
            end: self.span(i)->0.end as nat,
            text: self.text,
        }
    }

    /// Where the changes made so far end.
    pub open spec fn floor(changes: Seq<ChangeModel>) -> nat {
        if changes.len() == 0 {
            0
        } else {
            changes.last().end
        }
    }

    /// Whether cursor `i` gets a change, the changes before it ending at
    /// `floor`. The primary cursor does. Another one does where its span
    /// lies inside the text, starts at or behind `floor`, keeps clear of
    /// the primary cursor's span that is still to come, and holds the
    /// same characters as that span.
    pub open spec fn keeps(self, i: int, floor: nat) -> bool {
        i == self.primary || (self.span(i) matches Some(span) && span.start >= floor && (i
            < self.primary ==> span.end <= self.home.start) && self.buffer.subrange(
            span.start as int,
            span.end as int,
        ) == self.buffer.subrange(self.home.start as int, self.home.end as int))
    }

    /// The changes at the cursors before `upto`, in their order.
    pub open spec fn changes(self, upto: int) -> Seq<ChangeModel>
        decreases upto,
    {
        if upto <= 0 {
            Seq::empty()
        } else {
            let before = self.changes(upto - 1);
            if self.keeps(upto - 1, Self::floor(before)) {
                before.push(self.change(upto - 1))
            } else {
                before
            }
        }
    }

    /// The primary cursor is one of the cursors, and the edit's span at it
    /// is `home`, inside the buffer.
    pub open spec fn wf(self) -> bool {
        &&& 0 <= self.primary < self.cursors.len()
        &&& self.buffer.len() <= usize::MAX
        &&& maps_onto(self.home, self.buffer.len())
        &&& self.span(self.primary) == Some(self.home)
    }
}

/// Whether the cursor and the span of the edit lie inside the text.
pub open spec fn resolvable(
    item: &RawItem,
    buffer: BufferModel,
    trigger_offset: usize,
    replace_mode: bool,
) -> bool {
    primary_cursor(buffer.cursors, buffer.primary) matches Some(cursor) && cursor
        <= buffer.text.len() && buffer.text.len() <= usize::MAX && (edit_span(
        item,
        cursor,
        trigger_offset,
        replace_mode,
    ) matches Some(span) && maps_onto(span, buffer.text.len()))
}

/// The edit of `item`, to be carried out at every cursor of `buffer`
/// with `text`.
pub open spec fn replay_of(
    item: &RawItem,
    buffer: BufferModel,
    trigger_offset: usize,
    replace_mode: bool,
    text: Seq<char>,
) -> Replay {
    let cursor = buffer.cursors[buffer.primary as int];
    let home = edit_span(item, cursor, trigger_offset, replace_mode)->0;
    Replay {
        offsets: offsets_of(home, cursor),
        cursors: buffer.cursors,
        primary: buffer.primary as int,
        home,
        buffer: buffer.text,
        text,
    }
}

/// What accepting `item` does to `buffer`.
///
/// Where the primary cursor or the item's span lies outside the text,
/// the span did not map onto the buffer in the first place, or the item
/// is a snippet that does not parse, nothing changes. Otherwise
/// the span is taken as distances from the primary cursor, and at every
/// cursor that [`Replay::keeps`] it gives way to the item's text, read as
/// a snippet where the item says so. The snippet's placeholders are those
/// at the primary cursor, as offsets into the text after the transaction.
pub open spec fn resolve_spec(
    item: &RawItem,
    buffer: BufferModel,
    trigger_offset: usize,
    replace_mode: bool,
) -> ResolutionModel {
    let len = buffer.text.len();
    let nothing = ResolutionModel { transaction: no_change(len), snippet: None };
    if !resolvable(item, buffer, trigger_offset, replace_mode) {
        nothing
    } else if item.is_snippet() {
        match parse_spec(item.new_text()) {
            Some(snippet) => {
                let replay = replay_of(item, buffer, trigger_offset, replace_mode, snippet.text);
                let before = replay.changes(replay.primary);
                let start = replay.home.start - removed_in(before) + inserted_in(before);
                if start + snippet.text.len() <= usize::MAX {
                    ResolutionModel {
                        transaction: TransactionModel {
                            len,
                            changes: replay.changes(replay.cursors.len() as int),
                        },
                        snippet: Some(snippet.placed(start as nat)),
                    }
                } else {
                    nothing
                }
            },
            None => nothing,
        }
    } else {
        let replay = replay_of(item, buffer, trigger_offset, replace_mode, item.new_text());
        ResolutionModel {
            transaction: TransactionModel { len, changes: replay.changes(replay.cursors.len() as int) },
            snippet: None,
        }
    }
}

/// The span and the text of the item's edit.
fn raw_edit<'a>(item: &'a RawItem, cursor: usize, trigger_offset: usize, replace_mode: bool) -> (out: (
    Option<Span>,
    &'a str,
))
    ensures
        out.0 == edit_span(item, cursor, trigger_offset, replace_mode),
        out.1@ == item.new_text(),
{
    match &item.edit {
        EditDescription::Structured { insert, replace, new_text } => {
            let span = if replace_mode {
                *replace
            } else {
                *insert
            };
            (span, new_text.as_str())
        },
        EditDescription::PlainText { insert_text } => {
            let text = match insert_text {
                Some(t) => t.as_str(),
                None => item.label.as_str(),
            };
            (Some(Span { start: trigger_offset, end: cursor }), text)
        },
    }
}

/// Whether the stretches `a` and `b` of `text` hold the same characters.
pub fn same_stretch(text: &Vec<char>, a: Span, b: Span) -> (out: bool)
    requires
        a.start <= a.end <= text.len(),
        b.start <= b.end <= text.len(),
    ensures
        out == (text@.subrange(a.start as int, a.end as int) == text@.subrange(
            b.start as int,
            b.end as int,
        )),
{
    let ghost left = text@.subrange(a.start as int, a.end as int);
    let ghost right = text@.subrange(b.start as int, b.end as int);
    if a.end - a.start != b.end - b.start {
        assert(left.len() != right.len());
        return false;
    }
    let n = a.end - a.start;
    let mut i: usize = 0;
    while i < n
        invariant
            i <= n,
            n == a.end - a.start == b.end - b.start,
            a.end <= text.len(),
            b.end <= text.len(),
            left == text@.subrange(a.start as int, a.end as int),
            right == text@.subrange(b.start as int, b.end as int),
            forall|k: int| 0 <= k < i ==> left[k] == right[k],
        decreases n - i,
    {
        if text[a.start + i] != text[b.start + i] {
            assert(left[i as int] != right[i as int]);
            return false;
        }
        i += 1;
    }
    assert(left =~= right);
    true
}

/// One more change behind those that fit keeps them fitting.
pub proof fn lemma_push_fits(changes: Seq<ChangeModel>, c: ChangeModel, len: nat)
    requires
        changes_fit(changes, len),
        c.start <= c.end <= len,
        Replay::floor(changes) <= c.start,
    ensures
        changes_fit(changes.push(c), len),
{
    let longer = changes.push(c);
    assert forall|i: int, j: int| 0 <= i < j < longer.len() implies #[trigger] longer[i].end
        <= #[trigger] longer[j].start by {
        if j < changes.len() {
            assert(changes[i].end <= changes[j].start);
        } else if i < changes.len() - 1 {
            assert(changes[i].end <= changes[changes.len() - 1].start);
            assert(changes[changes.len() - 1].start <= changes[changes.len() - 1].end);
        }
    }
    assert forall|i: int| 0 <= i < longer.len() implies #[trigger] longer[i].start
        <= longer[i].end by {
        if i < changes.len() {
            assert(changes[i].start <= changes[i].end);
        }
    }
    assert forall|i: int| 0 <= i < longer.len() implies #[trigger] longer[i].end <= len by {
        if i < changes.len() {
            assert(changes[i].end <= len);
        }
    }
}

/// What an edit carried out at the cursors comes to: changes that fit
/// the buffer, each the edit at one of the cursors with the edit's text,
/// the one at the primary cursor among them once it is reached; and
/// before it is reached none of them goes beyond where its span starts.
pub proof fn lemma_replay(replay: Replay, upto: int)
    requires
        replay.wf(),
        0 <= upto <= replay.cursors.len(),
    ensures
        changes_fit(replay.changes(upto), replay.buffer.len()),
        upto <= replay.primary ==> Replay::floor(replay.changes(upto)) <= replay.home.start,
        removed_in(replay.changes(upto)) <= Replay::floor(replay.changes(upto)),
        forall|k: int|
            0 <= k < replay.changes(upto).len() ==> exists|i: int|
                0 <= i < upto && replay.span(i) is Some && #[trigger] replay.changes(upto)[k]
                    == replay.change(i),
        upto > replay.primary ==> replay.changes(upto).contains(replay.change(replay.primary)),
    decreases upto,
{
    if upto > 0 {
        lemma_replay(replay, upto - 1);
        let before = replay.changes(upto - 1);
        let now = replay.changes(upto);
        let i = upto - 1;
        if replay.keeps(i, Replay::floor(before)) {
            let c = replay.change(i);
            assert(replay.span(i) is Some);
            lemma_push_fits(before, c, replay.buffer.len());
            assert(now.drop_last() =~= before);
            assert forall|k: int| 0 <= k < now.len() implies exists|j: int|
                0 <= j < upto && replay.span(j) is Some && #[trigger] now[k] == replay.change(j) by {
                if k < before.len() {
                    let j = choose|j: int|
                        0 <= j < upto - 1 && replay.span(j) is Some && before[k] == replay.change(j);
                    assert(now[k] == replay.change(j));
                } else {
                    assert(now[k] == replay.change(i));
                }
            }
            if upto > replay.primary {
                if i == replay.primary {
                    assert(now[now.len() - 1] == replay.change(replay.primary));
                } else {
                    let k = choose|k: int|
                        0 <= k < before.len() && before[k] == replay.change(replay.primary);
                    assert(now[k] == replay.change(replay.primary));
                }
            }
        } else {
            assert forall|k: int| 0 <= k < now.len() implies exists|j: int|
                0 <= j < upto && replay.span(j) is Some && #[trigger] now[k] == replay.change(j) by {
                let j = choose|j: int|
                    0 <= j < upto - 1 && replay.span(j) is Some && before[k] == replay.change(j);
                assert(now[k] == replay.change(j));
            }
        }
    }
}

/// Carries the edit out at every cursor: the changes, and the characters
/// taken out and put in before the primary cursor's change, the latter
/// `None` where they are more than can be counted.
fn replay_changes(
    text: &Vec<char>,
    selection: &Selection,
    offsets: EditOffsets,
    home: Span,
    new_text: &Vec<char>,
    Ghost(replay): Ghost<Replay>,
) -> (out: (Vec<Change>, usize, Option<usize>))
    requires
        replay.wf(),
        replay.offsets == offsets,
        replay.cursors == selection.cursors@,
        replay.primary == selection.primary,
        replay.home == home,
        replay.buffer == text@,
        replay.text == new_text@,
    ensures
        models(out.0@) == replay.changes(replay.cursors.len() as int),
        changes_fit(models(out.0@), text@.len()),
        out.1 == removed_in(replay.changes(replay.primary)),
        out.1 <= home.start,
        out.2 matches Some(v) ==> v == inserted_in(replay.changes(replay.primary)),
        out.2 is None ==> inserted_in(replay.changes(replay.primary)) > usize::MAX,
{
    let n = selection.cursors.len();
    let len = text.len();
    let mut changes: Vec<Change> = Vec::new();
    let mut floor: usize = 0;
    let mut removed: usize = 0;
    let mut inserted: Option<usize> = Some(0);
    let mut removed_before: usize = 0;
    let mut inserted_before: Option<usize> = Some(0);
    let mut i: usize = 0;
    assert(models(changes@) =~= replay.changes(0));
    while i < n
        invariant
            i <= n == selection.cursors.len(),
            len == text.len(),
            replay.wf(),
            replay.offsets == offsets,
            replay.cursors == selection.cursors@,
            replay.primary == selection.primary,
            replay.home == home,
            replay.buffer == text@,
            replay.text == new_text@,
            models(changes@) == replay.changes(i as int),
            changes_fit(models(changes@), len as nat),
            floor == Replay::floor(models(changes@)),
            i <= replay.primary ==> floor <= home.start,
            removed == removed_in(models(changes@)),
            removed <= floor <= len,
            inserted matches Some(v) ==> v == inserted_in(models(changes@)),
            inserted is None ==> inserted_in(models(changes@)) > usize::MAX,
            i > replay.primary ==> removed_before == removed_in(replay.changes(replay.primary))
                && removed_before <= home.start && (inserted_before matches Some(v) ==> v
                == inserted_in(replay.changes(replay.primary))) && (inserted_before is None
                ==> inserted_in(replay.changes(replay.primary)) > usize::MAX),
        decreases n - i,
    {
        let ghost before = models(changes@);
        if i == selection.primary {
            removed_before = removed;
            inserted_before = inserted;
        }
        let keep = match absolute_span(offsets, selection.cursors[i], len) {
            Some(span) => {
                if i == selection.primary {
                    Some(span)
                } else if span.start >= floor && (i > selection.primary || span.end <= home.start)
                    && same_stretch(text, span, home) {
                    Some(span)
                } else {
                    None
                }
            },
            None => None,
        };
        assert(keep is Some == replay.keeps(i as int, floor as nat));
        match keep {
            Some(span) => {
                let ghost c = replay.change(i as int);
                proof {
                    lemma_push_fits(before, c, len as nat);
                    assert(before.push(c).drop_last() =~= before);
                }
                changes.push(Change { start: span.start, end: span.end, text: clone_chars(new_text) });
                assert(models(changes@) =~= before.push(c));
                removed = removed + (span.end - span.start);
                inserted = match inserted {
                    Some(v) => v.checked_add(new_text.len()),
                    None => None,
                };
                floor = span.end;
            },
            None => {},
        }
        i += 1;
    }
    (changes, removed_before, inserted_before)
}

/// The transaction that accepting `item` carries out on `text` with the
/// cursors of `selection`, and the snippet it puts in, if any; see
/// [`resolve_spec`].
///
/// Nothing changes where the primary cursor or the item's span lies
/// outside the text, and where the item is a snippet that does not
/// parse. Snippets are read by [`parse`]: tabstops, placeholders with
/// text or with choices, variables, and escapes. No variable has a value
/// here: one stands for the text it brings along, or for nothing. A
/// snippet that is malformed there changes nothing: `${` not followed by
/// a number or a name, a number or a name not followed by what may
/// follow it, choices that do not end in `|}`, something left open, a
/// number too large; transforms are not read and make a snippet
/// malformed.
pub fn item_to_transaction(
    text: &Vec<char>,
    selection: &Selection,
    item: &RawItem,
    trigger_offset: usize,
    replace_mode: bool,
) -> (out: (Transaction, Option<RenderedSnippet>))
    ensures
        out.0.wf(),
        out.0@ == resolve_spec(
            item,
            BufferModel { text: text@, cursors: selection.cursors@, primary: selection.primary },
            trigger_offset,
            replace_mode,
        ).transaction,
        match (
            out.1,
            resolve_spec(
                item,
                BufferModel { text: text@, cursors: selection.cursors@, primary: selection.primary },
                trigger_offset,
                replace_mode,
            ).snippet,
        ) {
            (Some(r), Some(m)) => r@ == m,
            (None, None) => true,
            _ => false,
        },
{
    let len = text.len();
    let ghost buffer = BufferModel {
        text: text@,
        cursors: selection.cursors@,
        primary: selection.primary,
    };
    let cursor = match selection.cursor() {
        Some(cursor) => cursor,
        None => {
            return (Transaction::new(len), None);
        },
    };
    let (home, new_text) = raw_edit(item, cursor, trigger_offset, replace_mode);
    let home = match home {
        Some(home) => home,
        None => {
            return (Transaction::new(len), None);
        },
    };
    if cursor > len || home.start > home.end || home.end > len {
        return (Transaction::new(len), None);
    }
    let offsets = relative_offsets(home, cursor);
    let new_chars = chars_of(new_text);
    let snippet_kind = match item.kind {
        Some(crate::item::ItemKind::Snippet) => true,
        _ => false,
    };
    let snippet = if item.snippet_format || snippet_kind {
        match parse(&new_chars) {
            Some(snippet) => Some(snippet),
            None => {
                return (Transaction::new(len), None);
            },
        }
    } else {
        None
    };
    let ghost put = match &snippet {
        Some(s) => s.text@,
        None => new_chars@,
    };
    let ghost replay = replay_of(item, buffer, trigger_offset, replace_mode, put);
    let (changes, removed, inserted) = match &snippet {
        Some(s) => replay_changes(text, selection, offsets, home, &s.text, Ghost(replay)),
        None => replay_changes(text, selection, offsets, home, &new_chars, Ghost(replay)),
    };
    let rendered = match &snippet {
        Some(s) => {
            let start = match inserted {
                Some(inserted) => (home.start - removed).checked_add(inserted),
                None => None,
            };
            let placed = match start {
                Some(start) => s.place(start),
                None => None,
            };
            match placed {
                Some(placed) => Some(placed),
                None => {
                    return (Transaction::new(len), None);
                },
            }
        },
        None => None,
    };
    match Transaction::from_changes(len, changes) {
        Some(transaction) => (transaction, rendered),
        None => (Transaction::new(len), None),
    }
}

/// Offsets taken from a cursor lead back to the span at that cursor, and
/// at a cursor that has moved to the span moved as far.
pub proof fn lemma_offsets_replay(span: Span, cursor: usize, moved_to: usize, len: nat)
    requires
        len <= usize::MAX,
    ensures
        span_at(offsets_of(span, cursor), cursor, len) == if maps_onto(span, len) {
            Some(span)
        } else {
            None
        },
        span_at(offsets_of(span, cursor), moved_to, len) == if 0 <= span.start + (moved_to - cursor)
            <= span.end + (moved_to - cursor) <= len {
            Some(
                Span {
                    start: (span.start + (moved_to - cursor)) as usize,
                    end: (span.end + (moved_to - cursor)) as usize,
                },
            )
        } else {
            None
        },
{
}

/// The transaction of an item fits the buffer; each of its changes is
/// the item's span, taken as distances from the primary cursor, at one of
/// the cursors, with the same text at each; where the item resolves and
/// is no snippet, the change at the primary cursor is among them, with
/// the item's text. A snippet comes only with a snippet item.
pub proof fn lemma_resolution_shape(
    item: &RawItem,
    buffer: BufferModel,
    trigger_offset: usize,
    replace_mode: bool,
)
    ensures
        ({
            let r = resolve_spec(item, buffer, trigger_offset, replace_mode);
            let replay = replay_of(item, buffer, trigger_offset, replace_mode, item.new_text());
            &&& r.transaction.wf()
            &&& r.transaction.len == buffer.text.len()
            &&& r.snippet is Some ==> item.is_snippet() && !r.transaction.is_noop()
            &&& !r.transaction.is_noop() ==> resolvable(item, buffer, trigger_offset, replace_mode)
            &&& forall|k: int|
                0 <= k < r.transaction.changes.len() ==> exists|i: int|
                    0 <= i < buffer.cursors.len() && replay.span(i) is Some && (
                    #[trigger] r.transaction.changes[k]).start == replay.span(i)->0.start
                        && r.transaction.changes[k].end == replay.span(i)->0.end
            &&& resolvable(item, buffer, trigger_offset, replace_mode) && !item.is_snippet()
                ==> r.transaction.changes.contains(
                ChangeModel {
                    start: replay.home.start as nat,
                    end: replay.home.end as nat,
                    text: item.new_text(),
                },
            )
        }),
{
    let r = resolve_spec(item, buffer, trigger_offset, replace_mode);
    if resolvable(item, buffer, trigger_offset, replace_mode) {
        let plain = replay_of(item, buffer, trigger_offset, replace_mode, item.new_text());
        let n = buffer.cursors.len() as int;
        lemma_offsets_replay(plain.home, buffer.cursors[buffer.primary as int], 0, buffer.text.len());
        if item.is_snippet() {
            match parse_spec(item.new_text()) {
                Some(snippet) => {
                    let replay = replay_of(item, buffer, trigger_offset, replace_mode, snippet.text);
                    lemma_replay(replay, n);
                    let changes = replay.changes(n);
                    assert forall|k: int| 0 <= k < changes.len() implies exists|i: int|
                        0 <= i < n && plain.span(i) is Some && (#[trigger] changes[k]).start
                            == plain.span(i)->0.start && changes[k].end == plain.span(i)->0.end by {
                        let i = choose|i: int|
                            0 <= i < n && replay.span(i) is Some && changes[k] == replay.change(i);
                        assert(plain.span(i) == replay.span(i));
                    }
                    if r.snippet is Some {
                        assert(changes.contains(replay.change(replay.primary)));
                    }
                },
                None => {},
            }
        } else {
            lemma_replay(plain, n);
            let changes = plain.changes(n);
            assert forall|k: int| 0 <= k < changes.len() implies exists|i: int|
                0 <= i < n && plain.span(i) is Some && (#[trigger] changes[k]).start == plain.span(
                    i,
                )->0.start && changes[k].end == plain.span(i)->0.end by {
                let i = choose|i: int|
                    0 <= i < n && plain.span(i) is Some && changes[k] == plain.change(i);
            }
            assert(plain.change(plain.primary) == ChangeModel {
                start: plain.home.start as nat,
                end: plain.home.end as nat,
                text: item.new_text(),
            });
        }
    }
}

/// With one cursor, an item that resolves and is no snippet makes one
/// change: its span gives way to its text.
pub proof fn lemma_single_cursor(
    item: &RawItem,
    text: Seq<char>,
    cursor: usize,
    trigger_offset: usize,
    replace_mode: bool,
)
    requires
        !item.is_snippet(),
        resolvable(
            item,
            BufferModel { text, cursors: seq![cursor], primary: 0 },
            trigger_offset,
            replace_mode,
        ),
    ensures
        resolve_spec(
            item,
            BufferModel { text, cursors: seq![cursor], primary: 0 },
            trigger_offset,
            replace_mode,
        ).transaction == single_change(
            text.len(),
            edit_span(item, cursor, trigger_offset, replace_mode)->0,
            item.new_text(),
        ),
{
    let buffer = BufferModel { text, cursors: seq![cursor], primary: 0 };
    let replay = replay_of(item, buffer, trigger_offset, replace_mode, item.new_text());
    lemma_offsets_replay(replay.home, cursor, 0, text.len());
    reveal_with_fuel(Replay::changes, 3);
    assert(replay.changes(0) =~= Seq::<ChangeModel>::empty());
    assert(replay.keeps(0, 0));
    assert(replay.changes(1) =~= seq![replay.change(0)]);
}

/// With a second cursor behind the primary one, where the edit's span
/// lies inside the text, behind the primary cursor's span, and holds the
/// same characters, the edit is made at both: the same distances, taken
/// from each cursor.
pub proof fn lemma_replay_at_second_cursor(replay: Replay)
    requires
        replay.wf(),
        replay.cursors.len() == 2,
        replay.primary == 0,
        replay.span(1) matches Some(span) && span.start >= replay.home.end && replay.buffer.subrange(
            span.start as int,
            span.end as int,
        ) == replay.buffer.subrange(replay.home.start as int, replay.home.end as int),
    ensures
        replay.changes(2) == seq![replay.change(0), replay.change(1)],
        replay.change(0).start == replay.home.start && replay.change(0).end == replay.home.end,
        replay.change(1).start - replay.change(0).start == replay.cursors[1] - replay.cursors[0],
        replay.change(1).end - replay.change(0).end == replay.cursors[1] - replay.cursors[0],
{
    reveal_with_fuel(Replay::changes, 4);
    assert(replay.changes(0) =~= Seq::<ChangeModel>::empty());
    assert(replay.changes(1) =~= seq![replay.change(0)]);
    assert(replay.keeps(1, Replay::floor(replay.changes(1))));
    assert(replay.changes(2) =~= seq![replay.change(0), replay.change(1)]);
}

/// An item whose span does not lie inside the text changes nothing.
pub proof fn lemma_unmappable_is_noop(
    item: &RawItem,
    buffer: BufferModel,
    trigger_offset: usize,
    replace_mode: bool,
)
    requires
        !resolvable(item, buffer, trigger_offset, replace_mode),
    ensures
        resolve_spec(item, buffer, trigger_offset, replace_mode).transaction == no_change(
            buffer.text.len(),
        ),
        resolve_spec(item, buffer, trigger_offset, replace_mode).snippet is None,
        forall|text: Seq<char>| #[trigger] no_change(buffer.text.len()).apply(text) == text,
{
    assert forall|text: Seq<char>| #[trigger] no_change(buffer.text.len()).apply(text) == text by {
        assert(text.subrange(0, text.len() as int) =~= text);
    }
}

/// A single change leaves the text before and behind its span as it was.
pub proof fn lemma_single_change_apply(len: nat, span: Span, new_text: Seq<char>, text: Seq<char>)
    requires
        maps_onto(span, len),
        text.len() == len,
    ensures
        single_change(len, span, new_text).apply(text) == text.subrange(0, span.start as int) + new_text
            + text.subrange(span.end as int, len as int),
{
    let changes = single_change(len, span, new_text).changes;
    reveal_with_fuel(crate::transaction::apply_from, 3);
    assert(changes[0].start == span.start);
    assert(crate::transaction::apply_from(changes, text, 1, span.end as int) == text.subrange(
        span.end as int,
        len as int,
    ));
}

} // verus!
