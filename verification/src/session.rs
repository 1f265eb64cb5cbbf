//! A completion session: what each input event does to the buffer.
//!
//! The session decides; whoever owns the buffer carries the decisions out,
//! one [`Action`] after the other, and reports back what the outside
//! world answered.

use crate::completion::{step_cursor, Completion, CompletionModel, Direction};
use crate::detail::{after_answer, after_lookup, answered, distinct, lookup_for, DetailResolver, Lookup};
use crate::item::{Candidate, ProtocolItem, RawItem, TextEdit};
use crate::resolve::{item_to_transaction, resolve_spec, BufferModel, Selection};
use crate::snippet::{RenderedModel, RenderedSnippet};
use crate::transaction::{
    clone_chars, completion_changes, models, touches, Change, ChangeModel, Transaction,
    TransactionModel,
};
use vstd::prelude::*;

verus! {

/// A snapshot of the buffer, enough to put it back exactly.
#[derive(Debug, PartialEq, Eq)]
pub struct SavePoint {
    pub text: Vec<char>,
    pub selection: Selection,
}

impl View for SavePoint {
    type V = BufferModel;

    open spec fn view(&self) -> BufferModel {
        BufferModel {
            text: self.text@,
            cursors: self.selection.cursors@,
            primary: self.selection.primary,
        }
    }
}

impl SavePoint {
    /// A copy of the snapshot.
    pub fn copy(&self) -> (out: Self)
        ensures
            out@ == self@,
    {
        SavePoint { text: clone_chars(&self.text), selection: self.selection.copy() }
    }
}

/// The editor's settings that bear on a session.
#[derive(Debug, Clone, Copy, PartialEq, Eq)]
pub struct Config {
    /// Show the highlighted candidate in the buffer before it is accepted.
    pub preview: bool,
    /// Replace what follows the cursor too, where an item offers both
    /// spans.
    pub replace_mode: bool,
}

/// What the provider of a candidate can do.
#[derive(Debug, Clone, Copy, PartialEq, Eq)]
pub struct ProviderCaps {
    /// It fills in missing details on request.
    pub resolve: bool,
}

/// Where a session stands.
#[derive(Debug, Clone, Copy, PartialEq, Eq)]
pub enum Phase {
    /// Nothing of the session is in the buffer.
    Idle,
    /// The preview of a candidate is in the buffer.
    PreviewApplied { candidate: usize },
    /// A candidate was accepted and its details are being fetched.
    Resolving { candidate: usize },
    /// The session is over.
    Ended,
}

/// One thing to do, for whoever owns the buffer.
#[derive(Debug, PartialEq, Eq)]
pub enum Action {
    /// Put the buffer back to the session's savepoint; where
    /// `discard_selection_drift` is set, the selection too goes back to
    /// where the savepoint has it, whatever moved it since.
    Restore { discard_selection_drift: bool },
    /// Apply a transaction that is kept out of undo history and out of
    /// sight of whatever mirrors the buffer.
    ApplyTemporary(Transaction),
    /// Save an undo checkpoint.
    Checkpoint,
    /// Fetch the details of a candidate, wait for the answer and hand it
    /// to [`Session::resolved`].
    Resolve { candidate: usize },
    /// Fetch the details of a candidate without waiting, and hand the
    /// answer to [`Session::details_arrived`] when it comes.
    RequestDetails { candidate: usize },
    /// Apply a transaction for good.
    Apply(Transaction),
    /// Nest a snippet into the one being filled in, or start with it.
    InsertSnippet(RenderedSnippet),
    /// Note what was completed, for repeating it later.
    Record { trigger_offset: usize, changes: Vec<Change>, placeholder: bool },
    /// Apply further edits, given in the coordinates of the buffer before
    /// the session touched it, as a transaction of their own. Each of
    /// them has a span.
    ApplyAdditionalEdits(Vec<TextEdit>),
    /// Ask for completions again: the accepted text may call for more.
    Retrigger,
    /// Ask for signature help.
    SignatureHelp,
    /// Tell the user that the completions are out of date.
    ReportStale,
    /// Close the session.
    EndSession,
}

/// What an [`Action`] stands for.
pub ghost enum ActionModel {
    Restore { discard_selection_drift: bool },
    ApplyTemporary(TransactionModel),
    Checkpoint,
    Resolve { candidate: usize },
    RequestDetails { candidate: usize },
    Apply(TransactionModel),
    InsertSnippet(RenderedModel),
    Record { trigger_offset: usize, changes: Seq<ChangeModel>, placeholder: bool },
    ApplyAdditionalEdits(Seq<TextEdit>),
    Retrigger,
    SignatureHelp,
    ReportStale,
    EndSession,
}

impl View for Action {
    type V = ActionModel;

    open spec fn view(&self) -> ActionModel {
        match self {
            Action::Restore { discard_selection_drift } => ActionModel::Restore {
                discard_selection_drift: *discard_selection_drift,
            },
            Action::ApplyTemporary(t) => ActionModel::ApplyTemporary(t@),
            Action::Checkpoint => ActionModel::Checkpoint,
            Action::Resolve { candidate } => ActionModel::Resolve { candidate: *candidate },
            Action::RequestDetails { candidate } => ActionModel::RequestDetails {
                candidate: *candidate,
            },
            Action::Apply(t) => ActionModel::Apply(t@),
            Action::InsertSnippet(s) => ActionModel::InsertSnippet(s@),
            Action::Record { trigger_offset, changes, placeholder } => ActionModel::Record {
                trigger_offset: *trigger_offset,
                changes: models(changes@),
                placeholder: *placeholder,
            },
            Action::ApplyAdditionalEdits(edits) => ActionModel::ApplyAdditionalEdits(edits@),
            Action::Retrigger => ActionModel::Retrigger,
            Action::SignatureHelp => ActionModel::SignatureHelp,
            Action::ReportStale => ActionModel::ReportStale,
            Action::EndSession => ActionModel::EndSession,
        }
    }
}

/// The views of a list of actions, in order.
pub open spec fn views(actions: Seq<Action>) -> Seq<ActionModel> {
    actions.map_values(|a: Action| a@)
}

/// What a [`Session`] stands for.
pub ghost struct SessionModel {
    pub completion: CompletionModel,
    /// The buffer as it was when the session began.
    pub savepoint: BufferModel,
    pub config: Config,
    pub phase: Phase,
    /// The buffer that the accepted candidate goes into.
    pub base: BufferModel,
    /// The candidates whose details were asked for and have not come.
    pub outstanding: Seq<usize>,
}

impl SessionModel {
    pub open spec fn wf(self) -> bool {
        &&& self.completion.wf()
        &&& distinct(self.outstanding)
        &&& match self.phase {
            Phase::PreviewApplied { candidate } => candidate < self.completion.items.len(),
            Phase::Resolving { candidate } => candidate < self.completion.items.len(),
            _ => true,
        }
    }

    /// Whether the session still takes navigation and acceptance.
    pub open spec fn is_open(self) -> bool {
        self.phase is Idle || self.phase is PreviewApplied
    }

    /// The index of the highlighted candidate.
    pub open spec fn selected(self) -> Option<usize> {
        match self.completion.cursor {
            Some(row) => Some(self.completion.matches[row as int].index),
            None => None,
        }
    }

    /// The transaction that shows `candidate` in the buffer as the
    /// savepoint holds it.
    pub open spec fn preview_of(self, candidate: int) -> TransactionModel {
        match self.completion.items[candidate] {
            Candidate::Protocol(p) => resolve_spec(
                &p.item,
                self.savepoint,
                self.completion.trigger_offset,
                self.config.replace_mode,
            ).transaction,
            Candidate::Local(l) => l.transaction@,
        }
    }

    /// What putting `candidate` into the buffer `self.base` for good
    /// takes: its transaction, its snippet if it has one, the record of
    /// what was completed, its further edits if it has any and each of
    /// them mapped onto the buffer, and the end of the session.
    pub open spec fn final_actions(self, candidate: int) -> Seq<ActionModel> {
        let trigger_offset = self.completion.trigger_offset;
        let closing = seq![ActionModel::Retrigger, ActionModel::SignatureHelp, ActionModel::EndSession];
        match self.completion.items[candidate] {
            Candidate::Protocol(p) => {
                let r = resolve_spec(&p.item, self.base, trigger_offset, self.config.replace_mode);
                let snippet = match r.snippet {
                    Some(s) => seq![ActionModel::InsertSnippet(s)],
                    None => seq![],
                };
                let further = if p.item.additional_edits@.len() > 0 && all_mapped(
                    p.item.additional_edits@,
                ) {
                    seq![ActionModel::ApplyAdditionalEdits(p.item.additional_edits@)]
                } else {
                    seq![]
                };
                seq![ActionModel::Apply(r.transaction)] + snippet + seq![
                    ActionModel::Record {
                        trigger_offset,
                        changes: r.transaction.changes.filter(
                            |c: ChangeModel| touches(c, trigger_offset as nat),
                        ),
                        placeholder: r.snippet is Some,
                    },
                ] + further + closing
            },
            Candidate::Local(l) => seq![
                ActionModel::Apply(l.transaction@),
                ActionModel::Record {
                    trigger_offset,
                    changes: l.transaction@.changes.filter(
                        |c: ChangeModel| touches(c, trigger_offset as nat),
                    ),
                    placeholder: false,
                },
            ] + closing,
        }
    }

    /// The highlight moves. With previews on, the buffer is first put
    /// back to the savepoint and then shows the newly highlighted
    /// candidate.
    pub open spec fn on_navigate(self, direction: Direction) -> (SessionModel, Seq<ActionModel>) {
        if !self.is_open() {
            (self, seq![])
        } else {
            let cursor = step_cursor(self.completion.cursor, self.completion.matches.len(), direction);
            let moved = SessionModel {
                completion: CompletionModel { cursor, ..self.completion },
                ..self
            };
            match moved.selected() {
                Some(candidate) if self.config.preview => (
                    SessionModel { phase: Phase::PreviewApplied { candidate }, ..moved },
                    seq![
                        ActionModel::Restore { discard_selection_drift: false },
                        ActionModel::ApplyTemporary(self.preview_of(candidate as int)),
                    ],
                ),
                _ => (moved, seq![]),
            }
        }
    }

    /// The session is given up. With previews on, the buffer is put back
    /// to the savepoint.
    pub open spec fn on_abort(self) -> (SessionModel, Seq<ActionModel>) {
        if self.phase is Ended {
            (self, seq![])
        } else {
            let undo = if self.config.preview {
                seq![ActionModel::Restore { discard_selection_drift: false }]
            } else {
                seq![]
            };
            (
                SessionModel { phase: Phase::Ended, ..self },
                undo + seq![ActionModel::SignatureHelp, ActionModel::EndSession],
            )
        }
    }

    /// The highlighted candidate is accepted, with the buffer as `buffer`
    /// holds it and the candidate's provider, if there still is one.
    ///
    /// A preview is undone first. A candidate of a provider that is gone
    /// ends the session with nothing applied. One whose details are
    /// missing, of a provider that can fetch them, waits for them. Any
    /// other is put into the buffer at once.
    pub open spec fn on_accept(self, provider: Option<ProviderCaps>, buffer: BufferModel) -> (
        SessionModel,
        Seq<ActionModel>,
    ) {
        if !self.is_open() {
            (self, seq![])
        } else {
            match self.selected() {
                None => (self, seq![]),
                Some(candidate) => {
                    let previewed = self.phase is PreviewApplied;
                    let undo = if previewed {
                        seq![ActionModel::Restore { discard_selection_drift: true }]
                    } else {
                        seq![]
                    };
                    let ready = SessionModel {
                        base: if previewed {
                            self.savepoint
                        } else {
                            buffer
                        },
                        ..self
                    };
                    let begun = undo + seq![ActionModel::Checkpoint];
                    let done = SessionModel { phase: Phase::Ended, ..ready };
                    match self.completion.items[candidate as int] {
                        Candidate::Protocol(p) => match provider {
                            None => (
                                done,
                                begun + seq![ActionModel::ReportStale, ActionModel::EndSession],
                            ),
                            Some(caps) => if !p.resolved && caps.resolve {
                                (
                                    SessionModel { phase: Phase::Resolving { candidate }, ..ready },
                                    begun + seq![ActionModel::Resolve { candidate }],
                                )
                            } else {
                                (done, begun + ready.final_actions(candidate as int))
                            },
                        },
                        Candidate::Local(_) => (done, begun + ready.final_actions(candidate as int)),
                    }
                },
            }
        }
    }

    /// The highlighted candidate is on show, and its provider can do
    /// `provider` or is gone: missing details are asked for, once; with
    /// the provider gone the session ends, a preview undone.
    pub open spec fn on_highlight(self, provider: Option<ProviderCaps>) -> (
        SessionModel,
        Seq<ActionModel>,
    ) {
        if !self.is_open() {
            (self, seq![])
        } else {
            match self.selected() {
                None => (self, seq![]),
                Some(candidate) => {
                    let item = self.completion.items[candidate as int];
                    match lookup_for(self.outstanding, candidate, item, provider) {
                        Lookup::Skip => (self, seq![]),
                        Lookup::Request { .. } => (
                            SessionModel {
                                outstanding: after_lookup(self.outstanding, candidate, item, provider),
                                ..self
                            },
                            seq![ActionModel::RequestDetails { candidate }],
                        ),
                        Lookup::Stale => (
                            SessionModel { phase: Phase::Ended, ..self },
                            (if self.phase is PreviewApplied {
                                seq![ActionModel::Restore { discard_selection_drift: false }]
                            } else {
                                seq![]
                            }) + seq![ActionModel::ReportStale, ActionModel::EndSession],
                        ),
                    }
                },
            }
        }
    }

    /// The answer to a request for details came: the request is no
    /// longer under way, and unless the session is over the candidate
    /// takes the details that came.
    pub open spec fn on_details(self, candidate: usize, answer: Option<RawItem>) -> SessionModel {
        let items = if self.phase is Ended || candidate >= self.completion.items.len() {
            self.completion.items
        } else {
            self.completion.items.update(
                candidate as int,
                answered(self.outstanding, candidate, self.completion.items[candidate as int], answer),
            )
        };
        SessionModel {
            completion: CompletionModel { items, ..self.completion },
            outstanding: after_answer(self.outstanding, candidate),
            ..self
        }
    }

    /// The details asked for at acceptance came back, or failed to: the
    /// candidate takes what came, and is put into the buffer either way.
    pub open spec fn on_resolved(self, item: Option<RawItem>) -> (SessionModel, Seq<ActionModel>) {
        match self.phase {
            Phase::Resolving { candidate } => {
                let items = match (item, self.completion.items[candidate as int]) {
                    (Some(fresh), Candidate::Protocol(p)) => self.completion.items.update(
                        candidate as int,
                        Candidate::Protocol(
                            ProtocolItem { provider: p.provider, item: fresh, resolved: true },
                        ),
                    ),
                    _ => self.completion.items,
                };
                let stored = SessionModel {
                    completion: CompletionModel { items, ..self.completion },
                    phase: Phase::Ended,
                    ..self
                };
                (stored, stored.final_actions(candidate as int))
            },
            _ => (self, seq![]),
        }
    }
}

/// How the buffer takes what is applied to it. The session does not
/// know, and what it promises holds whatever the answer is.
pub ghost struct BufferOps {
    /// The buffer after a transaction.
    pub apply: spec_fn(BufferModel, TransactionModel) -> BufferModel,
    /// The buffer after further edits.
    pub apply_edits: spec_fn(BufferModel, Seq<TextEdit>) -> BufferModel,
}

/// The buffer after one action of a session begun at `savepoint`.
pub open spec fn perform(
    buffer: BufferModel,
    savepoint: BufferModel,
    action: ActionModel,
    ops: BufferOps,
) -> BufferModel {
    match action {
        ActionModel::Restore { .. } => savepoint,
        ActionModel::ApplyTemporary(t) => (ops.apply)(buffer, t),
        ActionModel::Apply(t) => (ops.apply)(buffer, t),
        ActionModel::ApplyAdditionalEdits(edits) => (ops.apply_edits)(buffer, edits),
        _ => buffer,
    }
}

/// The buffer after `actions`, carried out in order.
pub open spec fn perform_all(
    buffer: BufferModel,
    savepoint: BufferModel,
    actions: Seq<ActionModel>,
    ops: BufferOps,
) -> BufferModel
    decreases actions.len(),
{
    if actions.len() == 0 {
        buffer
    } else {
        perform(
            perform_all(buffer, savepoint, actions.drop_last(), ops),
            savepoint,
            actions.last(),
            ops,
        )
    }
}

/// Carrying out two lists of actions one after the other is carrying out
/// the second on what the first left.
pub proof fn lemma_perform_in_turn(
    buffer: BufferModel,
    savepoint: BufferModel,
    first: Seq<ActionModel>,
    second: Seq<ActionModel>,
    ops: BufferOps,
)
    ensures
        perform_all(buffer, savepoint, first + second, ops) == perform_all(
            perform_all(buffer, savepoint, first, ops),
            savepoint,
            second,
            ops,
        ),
    decreases second.len(),
{
    if second.len() == 0 {
        assert(first + second =~= first);
    } else {
        assert((first + second).drop_last() =~= first + second.drop_last());
        assert((first + second).last() == second.last());
        lemma_perform_in_turn(buffer, savepoint, first, second.drop_last(), ops);
    }
}

/// A preview is never applied to anything but the savepoint: whenever
/// navigation shows a candidate, the buffer is restored right before.
pub proof fn lemma_restore_before_preview(session: SessionModel, direction: Direction)
    ensures
        ({
            let actions = session.on_navigate(direction).1;
            forall|k: int|
                0 <= k < actions.len() && (#[trigger] actions[k]) is ApplyTemporary ==> k > 0
                    && actions[k - 1] is Restore
        }),
{
}

/// A preview and then giving up leaves the buffer exactly as the
/// savepoint holds it, whatever was in it and whichever candidate was
/// shown.
pub proof fn lemma_preview_then_abort(
    session: SessionModel,
    direction: Direction,
    buffer: BufferModel,
    ops: BufferOps,
)
    requires
        session.is_open(),
        session.config.preview,
    ensures
        ({
            let (shown, preview) = session.on_navigate(direction);
            let (over, undo) = shown.on_abort();
            &&& over.phase is Ended
            &&& perform_all(buffer, session.savepoint, preview + undo, ops) == session.savepoint
        }),
{
    reveal_with_fuel(perform_all, 4);
    let (shown, preview) = session.on_navigate(direction);
    let (over, undo) = shown.on_abort();
    lemma_perform_in_turn(buffer, session.savepoint, preview, undo, ops);
    let mid = perform_all(buffer, session.savepoint, preview, ops);
    assert(undo =~= seq![ActionModel::Restore { discard_selection_drift: false }, ActionModel::SignatureHelp, ActionModel::EndSession]);
    assert(undo.drop_last() =~= seq![ActionModel::Restore { discard_selection_drift: false }, ActionModel::SignatureHelp]);
    assert(undo.drop_last().drop_last() =~= seq![ActionModel::Restore { discard_selection_drift: false }]);
    assert(undo.drop_last().drop_last().drop_last() =~= seq![]);
}

/// After one preview and then another, the buffer holds the second
/// candidate's edit on the savepoint, and nothing of the first.
pub proof fn lemma_preview_replaces_preview(
    session: SessionModel,
    first: Direction,
    second: Direction,
    buffer: BufferModel,
    ops: BufferOps,
)
    requires
        session.is_open(),
        session.config.preview,
        session.on_navigate(first).0.on_navigate(second).0.phase is PreviewApplied,
        session.on_navigate(first).0.on_navigate(second).1.len() > 0,
    ensures
        ({
            let (shown, preview) = session.on_navigate(first);
            let (reshown, other) = shown.on_navigate(second);
            let candidate = reshown.phase->PreviewApplied_candidate;
            perform_all(buffer, session.savepoint, preview + other, ops) == (ops.apply)(
                session.savepoint,
                reshown.preview_of(candidate as int),
            )
        }),
{
    reveal_with_fuel(perform_all, 4);
    let (shown, preview) = session.on_navigate(first);
    let (reshown, other) = shown.on_navigate(second);
    lemma_perform_in_turn(buffer, session.savepoint, preview, other, ops);
    let candidate = reshown.phase->PreviewApplied_candidate;
    assert(other =~= seq![
        ActionModel::Restore { discard_selection_drift: false },
        ActionModel::ApplyTemporary(shown.preview_of(candidate as int)),
    ]);
    assert(other.drop_last() =~= seq![ActionModel::Restore { discard_selection_drift: false }]);
    assert(other.drop_last().drop_last() =~= seq![]);
    assert(shown.preview_of(candidate as int) == reshown.preview_of(candidate as int));
}

/// With previews off, nothing but acceptance touches the buffer.
pub proof fn lemma_no_preview_no_edit(
    session: SessionModel,
    direction: Direction,
    buffer: BufferModel,
    ops: BufferOps,
)
    requires
        !session.config.preview,
    ensures
        perform_all(buffer, session.savepoint, session.on_navigate(direction).1, ops) == buffer,
        perform_all(buffer, session.savepoint, session.on_abort().1, ops) == buffer,
{
    reveal_with_fuel(perform_all, 4);
    let undo = session.on_abort().1;
    if !(session.phase is Ended) {
        assert(undo =~= seq![ActionModel::SignatureHelp, ActionModel::EndSession]);
        assert(undo.drop_last() =~= seq![ActionModel::SignatureHelp]);
        assert(undo.drop_last().drop_last() =~= seq![]);
    }
}

/// What puts a candidate into the buffer for good starts with its own
/// transaction; further edits are a later action of their own.
pub proof fn lemma_primary_edit_lands_first(session: SessionModel, candidate: int)
    ensures
        ({
            let actions = session.final_actions(candidate);
            &&& actions.len() > 0
            &&& actions[0] is Apply
            &&& forall|k: int|
                0 < k < actions.len() ==> !((#[trigger] actions[k]) is Apply) && !(actions[k] is ApplyTemporary)
                    && !(actions[k] is Restore)
            &&& actions.last() is EndSession
        }),
{
}

/// Accepting while a preview is shown puts the buffer back to the
/// savepoint before anything else, and shows no preview again.
pub proof fn lemma_accept_restores_first(
    session: SessionModel,
    provider: Option<ProviderCaps>,
    buffer: BufferModel,
)
    requires
        session.phase is PreviewApplied,
        session.selected() is Some,
    ensures
        ({
            let (next, actions) = session.on_accept(provider, buffer);
            &&& actions.len() >= 2
            &&& actions[0] is Restore
            &&& actions[1] is Checkpoint
            &&& next.base == session.savepoint
            &&& forall|k: int| 0 <= k < actions.len() ==> !((#[trigger] actions[k]) is ApplyTemporary)
        }),
{
    let candidate = session.selected()->0 as int;
    lemma_primary_edit_lands_first(
        SessionModel { base: session.savepoint, ..session },
        candidate,
    );
}

/// A candidate whose provider is gone ends the session with the buffer
/// as the savepoint holds it, or untouched where no preview was shown.
pub proof fn lemma_stale_applies_nothing(session: SessionModel, buffer: BufferModel, ops: BufferOps)
    requires
        session.is_open(),
        session.selected() matches Some(candidate) && session.completion.items[candidate as int] is Protocol,
    ensures
        ({
            let (over, actions) = session.on_accept(None, buffer);
            &&& over.phase is Ended
            &&& perform_all(buffer, session.savepoint, actions, ops) == if session.phase is PreviewApplied {
                session.savepoint
            } else {
                buffer
            }
        }),
{
    reveal_with_fuel(perform_all, 6);
    let (over, actions) = session.on_accept(None, buffer);
    let undo = if session.phase is PreviewApplied {
        seq![ActionModel::Restore { discard_selection_drift: true }]
    } else {
        seq![]
    };
    let rest = seq![ActionModel::Checkpoint, ActionModel::ReportStale, ActionModel::EndSession];
    assert(actions =~= undo + rest);
    lemma_perform_in_turn(buffer, session.savepoint, undo, rest, ops);
    assert(rest.drop_last() =~= seq![ActionModel::Checkpoint, ActionModel::ReportStale]);
    assert(rest.drop_last().drop_last() =~= seq![ActionModel::Checkpoint]);
    assert(rest.drop_last().drop_last().drop_last() =~= seq![]);
    if session.phase is PreviewApplied {
        assert(undo.drop_last() =~= seq![]);
    }
}

/// A completion session: the candidate set, the savepoint and what of the
/// session is in the buffer.
pub struct Session {
    completion: Completion,
    savepoint: SavePoint,
    config: Config,
    phase: Phase,
    base: SavePoint,
    details: DetailResolver,
}

impl View for Session {
    type V = SessionModel;

    closed spec fn view(&self) -> SessionModel {
        SessionModel {
            completion: self.completion@,
            savepoint: self.savepoint@,
            config: self.config,
            phase: self.phase,
            base: self.base@,
            outstanding: self.details@,
        }
    }
}

/// Whether each of `edits` has a span in the buffer.
pub open spec fn all_mapped(edits: Seq<TextEdit>) -> bool {
    forall|i: int| 0 <= i < edits.len() ==> (#[trigger] edits[i]).range is Some
}

/// Whether each of `edits` has a span in the buffer.
pub fn are_mapped(edits: &Vec<TextEdit>) -> (out: bool)
    ensures
        out == all_mapped(edits@),
{
    let mut i: usize = 0;
    while i < edits.len()
        invariant
            i <= edits.len(),
            forall|k: int| 0 <= k < i ==> (#[trigger] edits@[k]).range is Some,
        decreases edits.len() - i,
    {
        if edits[i].range.is_none() {
            return false;
        }
        i += 1;
    }
    true
}

/// A copy of `edits`.
pub fn clone_edits(edits: &Vec<TextEdit>) -> (out: Vec<TextEdit>)
    ensures
        out@ == edits@,
{
    let mut out: Vec<TextEdit> = Vec::new();
    let mut i: usize = 0;
    while i < edits.len()
        invariant
            i <= edits.len(),
            out@ == edits@.take(i as int),
        decreases edits.len() - i,
    {
        out.push(TextEdit { range: edits[i].range, new_text: edits[i].new_text.clone() });
        i += 1;
        assert(out@ =~= edits@.take(i as int));
    }
    assert(edits@.take(i as int) =~= edits@);
    out
}

impl Session {
    /// The candidate set is well-formed, and a previewed or accepted
    /// candidate is one of the set.
    pub open spec fn wf(&self) -> bool {
        self@.wf()
    }

    /// Whether the session is well-formed, for callers that cannot know.
    pub fn is_well_formed(&self) -> (out: bool)
        ensures
            out == self.wf(),
    {
        let placed = match self.phase {
            Phase::PreviewApplied { candidate } => candidate < self.completion.items().len(),
            Phase::Resolving { candidate } => candidate < self.completion.items().len(),
            _ => true,
        };
        placed && self.completion.is_well_formed() && self.details.is_well_formed()
    }

    /// A session on `completion`, begun with the buffer as `savepoint`
    /// holds it.
    pub fn new(completion: Completion, savepoint: SavePoint, config: Config) -> (out: Self)
        requires
            completion.wf(),
        ensures
            out.wf(),
            out@ == (SessionModel {
                completion: completion@,
                savepoint: savepoint@,
                config,
                phase: Phase::Idle,
                base: savepoint@,
                outstanding: Seq::empty(),
            }),
    {
        let base = savepoint.copy();
        Session { completion, savepoint, config, phase: Phase::Idle, base, details: DetailResolver::new() }
    }

    /// The candidate set.
    pub fn completion(&self) -> (out: &Completion)
        ensures
            out@ == self@.completion,
            self.wf() ==> out.wf(),
    {
        &self.completion
    }

    /// Where the session stands.
    pub fn phase(&self) -> (out: Phase)
        ensures
            out == self@.phase,
    {
        self.phase
    }

    /// The buffer as it was when the session began.
    pub fn savepoint(&self) -> (out: &SavePoint)
        ensures
            out@ == self@.savepoint,
    {
        &self.savepoint
    }

    /// A character was typed or deleted: the candidates are ranked anew,
    /// and the buffer is left alone. A session that is over takes no
    /// input.
    pub fn type_filter(&mut self, c: Option<char>)
        requires
            old(self).wf(),
        ensures
            final(self).wf(),
            final(self)@.savepoint == old(self)@.savepoint,
            final(self)@.config == old(self)@.config,
            final(self)@.phase == old(self)@.phase,
            final(self)@.base == old(self)@.base,
            final(self)@.outstanding == old(self)@.outstanding,
            !old(self)@.is_open() ==> final(self)@ == old(self)@,
            old(self)@.is_open() ==> crate::completion::filter_updated(
                old(self)@.completion,
                final(self)@.completion,
                c,
            ),
    {
        match self.phase {
            Phase::Idle | Phase::PreviewApplied { .. } => {
                self.completion.update_filter(c);
            },
            _ => {},
        }
    }

    fn preview_transaction(&self, candidate: usize) -> (out: Transaction)
        requires
            self.wf(),
            candidate < self@.completion.items.len(),
        ensures
            out.wf(),
            out@ == self@.preview_of(candidate as int),
    {
        match &self.completion.items()[candidate] {
            Candidate::Protocol(p) => {
                let (transaction, _) = item_to_transaction(
                    &self.savepoint.text,
                    &self.savepoint.selection,
                    &p.item,
                    self.completion.trigger_offset(),
                    self.config.replace_mode,
                );
                transaction
            },
            Candidate::Local(l) => l.transaction.clone(),
        }
    }

    /// The highlight moves one row; see [`SessionModel::on_navigate`].
    pub fn navigate(&mut self, direction: Direction) -> (out: Vec<Action>)
        requires
            old(self).wf(),
        ensures
            final(self).wf(),
            final(self)@ == old(self)@.on_navigate(direction).0,
            views(out@) == old(self)@.on_navigate(direction).1,
    {
        let mut out: Vec<Action> = Vec::new();
        match self.phase {
            Phase::Idle | Phase::PreviewApplied { .. } => {},
            _ => {
                assert(views(out@) =~= seq![]);
                return out;
            },
        }
        let ghost before = self@;
        self.completion.move_cursor(direction);
        let ghost moved = self@;
        assert(moved == (SessionModel {
            completion: CompletionModel {
                cursor: step_cursor(before.completion.cursor, before.completion.matches.len(), direction),
                ..before.completion
            },
            ..before
        }));
        let selected = self.completion.selected_index();
        assert(selected == moved.selected());
        match selected {
            Some(candidate) => {
                if self.config.preview {
                    let transaction = self.preview_transaction(candidate);
                    assert(transaction@ == before.preview_of(candidate as int));
                    self.phase = Phase::PreviewApplied { candidate };
                    out.push(Action::Restore { discard_selection_drift: false });
                    out.push(Action::ApplyTemporary(transaction));
                    assert(views(out@) =~= seq![
                        ActionModel::Restore { discard_selection_drift: false },
                        ActionModel::ApplyTemporary(before.preview_of(candidate as int)),
                    ]);
                } else {
                    assert(views(out@) =~= seq![]);
                }
            },
            None => {
                assert(views(out@) =~= seq![]);
            },
        }
        out
    }

    /// The session is given up; see [`SessionModel::on_abort`].
    pub fn abort(&mut self) -> (out: Vec<Action>)
        requires
            old(self).wf(),
        ensures
            final(self).wf(),
            final(self)@ == old(self)@.on_abort().0,
            views(out@) == old(self)@.on_abort().1,
    {
        let mut out: Vec<Action> = Vec::new();
        match self.phase {
            Phase::Ended => {
                assert(views(out@) =~= seq![]);
                return out;
            },
            _ => {},
        }
        if self.config.preview {
            out.push(Action::Restore { discard_selection_drift: false });
        }
        out.push(Action::SignatureHelp);
        out.push(Action::EndSession);
        self.phase = Phase::Ended;
        assert(views(out@) =~= old(self)@.on_abort().1);
        out
    }

    /// Appends what puts `candidate` into the buffer for good.
    fn finish(&self, candidate: usize, out: &mut Vec<Action>)
        requires
            self.wf(),
            candidate < self@.completion.items.len(),
        ensures
            views(final(out)@) == views(old(out)@) + self@.final_actions(candidate as int),
    {
        let trigger_offset = self.completion.trigger_offset();
        let ghost before = views(out@);
        match &self.completion.items()[candidate] {
            Candidate::Protocol(p) => {
                let ghost r = resolve_spec(
                    &p.item,
                    self.base@,
                    trigger_offset,
                    self.config.replace_mode,
                );
                let (transaction, snippet) = item_to_transaction(
                    &self.base.text,
                    &self.base.selection,
                    &p.item,
                    trigger_offset,
                    self.config.replace_mode,
                );
                let changes = completion_changes(&transaction, trigger_offset);
                let placeholder = snippet.is_some();
                out.push(Action::Apply(transaction));
                let ghost mut expected = seq![ActionModel::Apply(r.transaction)];
                assert(views(out@) =~= before + expected);
                match snippet {
                    Some(s) => {
                        out.push(Action::InsertSnippet(s));
                        proof {
                            expected = expected + seq![ActionModel::InsertSnippet(s@)];
                        }
                        assert(views(out@) =~= before + expected);
                    },
                    None => {},
                }
                out.push(Action::Record { trigger_offset, changes, placeholder });
                proof {
                    expected = expected + seq![
                        ActionModel::Record {
                            trigger_offset,
                            changes: r.transaction.changes.filter(
                                |c: ChangeModel| touches(c, trigger_offset as nat),
                            ),
                            placeholder: r.snippet is Some,
                        },
                    ];
                }
                assert(views(out@) =~= before + expected);
                if p.item.additional_edits.len() > 0 && are_mapped(&p.item.additional_edits) {
                    out.push(Action::ApplyAdditionalEdits(clone_edits(&p.item.additional_edits)));
                    proof {
                        expected = expected + seq![
                            ActionModel::ApplyAdditionalEdits(p.item.additional_edits@),
                        ];
                    }
                    assert(views(out@) =~= before + expected);
                }
                out.push(Action::Retrigger);
                out.push(Action::SignatureHelp);
                out.push(Action::EndSession);
                proof {
                    expected = expected + seq![
                        ActionModel::Retrigger,
                        ActionModel::SignatureHelp,
                        ActionModel::EndSession,
                    ];
                }
                assert(views(out@) =~= before + expected);
                assert(expected =~= self@.final_actions(candidate as int));
            },
            Candidate::Local(l) => {
                let transaction = l.transaction.clone();
                let changes = completion_changes(&transaction, trigger_offset);
                out.push(Action::Apply(transaction));
                out.push(Action::Record { trigger_offset, changes, placeholder: false });
                out.push(Action::Retrigger);
                out.push(Action::SignatureHelp);
                out.push(Action::EndSession);
                assert(views(out@) =~= before + self@.final_actions(candidate as int));
            },
        }
    }

    /// The highlighted candidate is accepted; see
    /// [`SessionModel::on_accept`]. `text` and `cursor` are the buffer as
    /// it stands, `provider` what the candidate's provider can do, or
    /// `None` where it is gone.
    pub fn accept(
        &mut self,
        provider: Option<ProviderCaps>,
        text: &Vec<char>,
        selection: &Selection,
    ) -> (out: Vec<Action>)
        requires
            old(self).wf(),
        ensures
            final(self).wf(),
            final(self)@ == old(self)@.on_accept(
                provider,
                BufferModel { text: text@, cursors: selection.cursors@, primary: selection.primary },
            ).0,
            views(out@) == old(self)@.on_accept(
                provider,
                BufferModel { text: text@, cursors: selection.cursors@, primary: selection.primary },
            ).1,
    {
        let mut out: Vec<Action> = Vec::new();
        let previewed = match self.phase {
            Phase::Idle => false,
            Phase::PreviewApplied { .. } => true,
            _ => {
                assert(views(out@) =~= seq![]);
                return out;
            },
        };
        let candidate = match self.completion.selected_index() {
            Some(candidate) => candidate,
            None => {
                assert(views(out@) =~= seq![]);
                return out;
            },
        };
        if previewed {
            out.push(Action::Restore { discard_selection_drift: true });
            self.base = self.savepoint.copy();
        } else {
            self.base = SavePoint { text: clone_chars(text), selection: selection.copy() };
        }
        out.push(Action::Checkpoint);
        let ghost begun = views(out@);
        assert(begun =~= (if previewed {
            seq![ActionModel::Restore { discard_selection_drift: true }]
        } else {
            seq![]
        }) + seq![ActionModel::Checkpoint]);
        let wait = match &self.completion.items()[candidate] {
            Candidate::Protocol(p) => match provider {
                None => {
                    out.push(Action::ReportStale);
                    out.push(Action::EndSession);
                    self.phase = Phase::Ended;
                    assert(views(out@) =~= begun + seq![
                        ActionModel::ReportStale,
                        ActionModel::EndSession,
                    ]);
                    return out;
                },
                Some(caps) => !p.resolved && caps.resolve,
            },
            Candidate::Local(_) => false,
        };
        if wait {
            out.push(Action::Resolve { candidate });
            self.phase = Phase::Resolving { candidate };
            assert(views(out@) =~= begun + seq![ActionModel::Resolve { candidate }]);
        } else {
            self.finish(candidate, &mut out);
            self.phase = Phase::Ended;
        }
        out
    }

    /// The highlighted candidate is on show; see
    /// [`SessionModel::on_highlight`].
    pub fn ensure_resolved(&mut self, provider: Option<ProviderCaps>) -> (out: Vec<Action>)
        requires
            old(self).wf(),
        ensures
            final(self).wf(),
            final(self)@ == old(self)@.on_highlight(provider).0,
            views(out@) == old(self)@.on_highlight(provider).1,
    {
        let mut out: Vec<Action> = Vec::new();
        let previewed = match self.phase {
            Phase::Idle => false,
            Phase::PreviewApplied { .. } => true,
            _ => {
                assert(views(out@) =~= seq![]);
                return out;
            },
        };
        let candidate = match self.completion.selected_index() {
            Some(candidate) => candidate,
            None => {
                assert(views(out@) =~= seq![]);
                return out;
            },
        };
        let lookup = self.details.ensure_item_resolved(
            candidate,
            &self.completion.items()[candidate],
            provider,
        );
        match lookup {
            Lookup::Skip => {
                assert(views(out@) =~= seq![]);
            },
            Lookup::Request { candidate } => {
                out.push(Action::RequestDetails { candidate });
                assert(views(out@) =~= seq![ActionModel::RequestDetails { candidate }]);
            },
            Lookup::Stale => {
                if previewed {
                    out.push(Action::Restore { discard_selection_drift: false });
                }
                out.push(Action::ReportStale);
                out.push(Action::EndSession);
                self.phase = Phase::Ended;
                assert(views(out@) =~= old(self)@.on_highlight(provider).1);
            },
        }
        out
    }

    /// The answer to a request for details came, with the details
    /// (`Some`) or without; see [`SessionModel::on_details`].
    pub fn details_arrived(&mut self, candidate: usize, answer: Option<RawItem>)
        requires
            old(self).wf(),
        ensures
            final(self).wf(),
            final(self)@ == old(self)@.on_details(candidate, answer),
    {
        let asked = self.details.answer(candidate);
        let over = match self.phase {
            Phase::Ended => true,
            _ => false,
        };
        if over || candidate >= self.completion.items().len() || !asked {
            assert(self@.completion.items =~= old(self)@.on_details(candidate, answer).completion.items);
            return ;
        }
        match answer {
            Some(fresh) => {
                let provider = match &self.completion.items()[candidate] {
                    Candidate::Protocol(p) => Some(p.provider),
                    Candidate::Local(_) => None,
                };
                match provider {
                    Some(provider) => {
                        self.completion.set_item(
                            candidate,
                            Candidate::Protocol(ProtocolItem { provider, item: fresh, resolved: true }),
                        );
                    },
                    None => {
                        assert(self@.completion.items =~= old(self)@.on_details(
                            candidate,
                            answer,
                        ).completion.items);
                    },
                }
            },
            None => {
                assert(self@.completion.items =~= old(self)@.on_details(
                    candidate,
                    answer,
                ).completion.items);
            },
        }
    }

    /// The details asked for at acceptance came back (`Some`) or failed
    /// to (`None`); see [`SessionModel::on_resolved`].
    pub fn resolved(&mut self, item: Option<RawItem>) -> (out: Vec<Action>)
        requires
            old(self).wf(),
        ensures
            final(self).wf(),
            final(self)@ == old(self)@.on_resolved(item).0,
            views(out@) == old(self)@.on_resolved(item).1,
    {
        let mut out: Vec<Action> = Vec::new();
        let candidate = match self.phase {
            Phase::Resolving { candidate } => candidate,
            _ => {
                assert(views(out@) =~= seq![]);
                return out;
            },
        };
        match item {
            Some(fresh) => {
                let provider = match &self.completion.items()[candidate] {
                    Candidate::Protocol(p) => Some(p.provider),
                    Candidate::Local(_) => None,
                };
                match provider {
                    Some(provider) => {
                        self.completion.set_item(
                            candidate,
                            Candidate::Protocol(ProtocolItem { provider, item: fresh, resolved: true }),
                        );
                    },
                    None => {},
                }
            },
            None => {},
        }
        self.phase = Phase::Ended;
        self.finish(candidate, &mut out);
        assert(views(out@) =~= self@.final_actions(candidate as int));
        out
    }
}

} // verus!
