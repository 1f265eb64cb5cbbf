use completion_engine::completion::{Completion, Direction};
use completion_engine::detail::{DetailResolver, Lookup};
use completion_engine::item::{
    Candidate, EditDescription, LocalItem, ProtocolItem, ProviderId, RawItem, Span, TextEdit,
};
use completion_engine::resolve::Selection;
use completion_engine::session::{Action, Config, Phase, ProviderCaps, SavePoint, Session};
use completion_engine::snippet::compose;
use completion_engine::transaction::{Change, Transaction};

fn ses_chars(s: &str) -> Vec<char> {
    s.chars().collect()
}

fn offered(label: &str, insert: &str) -> Candidate {
    Candidate::Protocol(ProtocolItem {
        provider: ProviderId(3),
        item: RawItem {
            edit: EditDescription::PlainText { insert_text: Some(insert.to_string()) },
            ..RawItem::new(label.to_string())
        },
        resolved: true,
    })
}

fn unresolved(label: &str) -> Candidate {
    Candidate::Protocol(ProtocolItem {
        provider: ProviderId(3),
        item: RawItem::new(label.to_string()),
        resolved: false,
    })
}

fn session_on(text: &str, cursor: usize, items: Vec<Candidate>, preview: bool) -> Session {
    let text = ses_chars(text);
    // nothing was typed yet: every candidate is shown
    let completion = Completion::new(items, &Vec::new(), 0, cursor);
    Session::new(
        completion,
        SavePoint { text, selection: Selection::single(cursor) },
        Config { preview, replace_mode: false },
    )
}

/// Carries out `actions` on `buffer` as an editor would.
fn carry_out(buffer: &mut Vec<char>, savepoint: &[char], actions: &[Action]) {
    for action in actions {
        match action {
            Action::Restore { .. } => *buffer = savepoint.to_vec(),
            Action::ApplyTemporary(tx) | Action::Apply(tx) => {
                *buffer = tx.apply(buffer).expect("transaction fits the buffer")
            }
            _ => {}
        }
    }
}

const CAN_RESOLVE: Option<ProviderCaps> = Some(ProviderCaps { resolve: true });
const CANNOT_RESOLVE: Option<ProviderCaps> = Some(ProviderCaps { resolve: false });

#[test]
fn navigation_previews_the_highlighted_candidate() {
    let mut session = session_on("ab", 1, vec![offered("x", "XX"), offered("y", "YYY")], true);
    let actions = session.navigate(Direction::Next);
    assert_eq!(
        actions,
        vec![
            Action::Restore { discard_selection_drift: false },
            Action::ApplyTemporary(Transaction::replace(2, 1, 1, ses_chars("XX")).unwrap()),
        ]
    );
    assert_eq!(session.phase(), Phase::PreviewApplied { candidate: 0 });
    assert_eq!(session.completion().selected_index(), Some(0));
}

#[test]
fn navigation_without_previews_leaves_the_buffer_alone() {
    let mut session = session_on("ab", 1, vec![offered("x", "XX")], false);
    assert_eq!(session.navigate(Direction::Next), vec![]);
    assert_eq!(session.phase(), Phase::Idle);
    assert_eq!(session.completion().selected_index(), Some(0));
    assert_eq!(session.abort(), vec![Action::SignatureHelp, Action::EndSession]);
    assert_eq!(session.phase(), Phase::Ended);
}

#[test]
fn navigation_with_nothing_shown_does_nothing() {
    let mut session = session_on("ab", 1, vec![], true);
    assert_eq!(session.navigate(Direction::Next), vec![]);
    assert_eq!(session.phase(), Phase::Idle);
}

#[test]
fn preview_then_abort_gives_the_buffer_back() {
    let savepoint = ses_chars("hello world");
    for direction in [Direction::Next, Direction::Prev] {
        let mut session = session_on(
            "hello world",
            6,
            vec![offered("x", "XX"), offered("y", "YYY"), offered("z", "Z")],
            true,
        );
        let mut buffer = savepoint.clone();
        carry_out(&mut buffer, &savepoint, &session.navigate(direction));
        assert_ne!(buffer, savepoint);
        let undo = session.abort();
        assert_eq!(undo, vec![Action::Restore { discard_selection_drift: false }, Action::SignatureHelp, Action::EndSession]);
        carry_out(&mut buffer, &savepoint, &undo);
        assert_eq!(buffer, savepoint);
        assert_eq!(session.savepoint().selection, Selection::single(6));
        assert_eq!(session.savepoint().text, savepoint);
        assert_eq!(session.phase(), Phase::Ended);
    }
}

#[test]
fn second_preview_replaces_the_first() {
    let savepoint = ses_chars("ab");
    let mut session = session_on("ab", 1, vec![offered("x", "XX"), offered("y", "YYY")], true);
    let mut buffer = savepoint.clone();
    carry_out(&mut buffer, &savepoint, &session.navigate(Direction::Next));
    assert_eq!(buffer, ses_chars("aXXb"));
    carry_out(&mut buffer, &savepoint, &session.navigate(Direction::Next));
    assert_eq!(buffer, ses_chars("aYYYb"));
    assert_eq!(session.phase(), Phase::PreviewApplied { candidate: 1 });
    carry_out(&mut buffer, &savepoint, &session.navigate(Direction::Prev));
    assert_eq!(buffer, ses_chars("aXXb"));
}

#[test]
fn accept_puts_the_candidate_into_the_buffer() {
    let text = ses_chars("0123456789abcdef");
    let mut session = session_on("0123456789abcdef", 10, vec![offered("println!", "println")], false);
    session.navigate(Direction::Next);
    let actions = session.accept(CANNOT_RESOLVE, &text, &Selection::single(10));
    let tx = Transaction::replace(16, 10, 10, ses_chars("println")).unwrap();
    assert_eq!(
        actions,
        vec![
            Action::Checkpoint,
            Action::Apply(tx),
            Action::Record {
                trigger_offset: 10,
                changes: vec![Change { start: 10, end: 10, text: ses_chars("println") }],
                placeholder: false,
            },
            Action::Retrigger,
            Action::SignatureHelp,
            Action::EndSession,
        ]
    );
    let mut buffer = text.clone();
    carry_out(&mut buffer, &text, &actions);
    assert_eq!(buffer, ses_chars("0123456789printlnabcdef"));
    assert_eq!(session.phase(), Phase::Ended);
}

#[test]
fn accept_after_preview_restores_first() {
    let savepoint = ses_chars("ab");
    let mut session = session_on("ab", 1, vec![offered("x", "XX"), offered("y", "YYY")], true);
    let mut buffer = savepoint.clone();
    carry_out(&mut buffer, &savepoint, &session.navigate(Direction::Next));
    carry_out(&mut buffer, &savepoint, &session.navigate(Direction::Next));
    let actions = session.accept(CANNOT_RESOLVE, &buffer, &Selection::single(4));
    assert_eq!(actions[0], Action::Restore { discard_selection_drift: true });
    assert_eq!(actions[1], Action::Checkpoint);
    carry_out(&mut buffer, &savepoint, &actions);
    assert_eq!(buffer, ses_chars("aYYYb"));
}

#[test]
fn accept_takes_what_was_typed_since_the_trigger() {
    let typed = ses_chars("a pri b");
    let completion = Completion::new(vec![offered("println", "println")], &typed, 5, 2);
    let mut session = Session::new(
        completion,
        SavePoint { text: ses_chars("a  b"), selection: Selection::single(2) },
        Config { preview: false, replace_mode: false },
    );
    session.navigate(Direction::Next);
    let actions = session.accept(CANNOT_RESOLVE, &typed, &Selection::single(5));
    let mut buffer = typed.clone();
    carry_out(&mut buffer, &ses_chars("a  b"), &actions);
    assert_eq!(buffer, ses_chars("a println b"));
}

#[test]
fn accept_without_highlight_does_nothing() {
    let text = ses_chars("ab");
    let mut session = session_on("ab", 1, vec![offered("x", "XX")], true);
    assert_eq!(session.accept(CAN_RESOLVE, &text, &Selection::single(1)), vec![]);
    assert_eq!(session.phase(), Phase::Idle);
}

#[test]
fn accept_of_a_candidate_whose_provider_is_gone_is_stale() {
    let savepoint = ses_chars("ab");
    let mut session = session_on("ab", 1, vec![offered("x", "XX")], true);
    let mut buffer = savepoint.clone();
    carry_out(&mut buffer, &savepoint, &session.navigate(Direction::Next));
    let actions = session.accept(None, &buffer, &Selection::single(3));
    assert_eq!(
        actions,
        vec![
            Action::Restore { discard_selection_drift: true },
            Action::Checkpoint,
            Action::ReportStale,
            Action::EndSession,
        ]
    );
    carry_out(&mut buffer, &savepoint, &actions);
    assert_eq!(buffer, savepoint);
    assert_eq!(session.phase(), Phase::Ended);
}

#[test]
fn accept_waits_for_missing_details() {
    let text = ses_chars("ab");
    let mut session = session_on("ab", 1, vec![unresolved("item")], false);
    session.navigate(Direction::Next);
    let actions = session.accept(CAN_RESOLVE, &text, &Selection::single(1));
    assert_eq!(actions, vec![Action::Checkpoint, Action::Resolve { candidate: 0 }]);
    assert_eq!(session.phase(), Phase::Resolving { candidate: 0 });
    // nothing else is taken while waiting
    assert_eq!(session.navigate(Direction::Next), vec![]);
    assert_eq!(session.accept(CAN_RESOLVE, &text, &Selection::single(1)), vec![]);
    let fresh = RawItem {
        edit: EditDescription::PlainText { insert_text: Some("resolved".to_string()) },
        additional_edits: vec![TextEdit {
            range: Some(Span { start: 0, end: 0 }),
            new_text: "use x;".to_string(),
        }],
        ..RawItem::new("item".to_string())
    };
    let actions = session.resolved(Some(fresh.clone()));
    assert_eq!(
        actions,
        vec![
            Action::Apply(Transaction::replace(2, 1, 1, ses_chars("resolved")).unwrap()),
            Action::Record {
                trigger_offset: 1,
                changes: vec![Change { start: 1, end: 1, text: ses_chars("resolved") }],
                placeholder: false,
            },
            Action::ApplyAdditionalEdits(vec![TextEdit {
                range: Some(Span { start: 0, end: 0 }),
                new_text: "use x;".to_string(),
            }]),
            Action::Retrigger,
            Action::SignatureHelp,
            Action::EndSession,
        ]
    );
    assert_eq!(session.phase(), Phase::Ended);
    assert_eq!(
        session.completion().items()[0],
        Candidate::Protocol(ProtocolItem { provider: ProviderId(3), item: fresh, resolved: true })
    );
}

#[test]
fn accept_goes_on_when_details_fail() {
    let text = ses_chars("ab");
    let mut session = session_on("ab", 1, vec![unresolved("item")], false);
    session.navigate(Direction::Next);
    session.accept(CAN_RESOLVE, &text, &Selection::single(1));
    let actions = session.resolved(None);
    assert_eq!(actions[0], Action::Apply(Transaction::replace(2, 1, 1, ses_chars("item")).unwrap()));
    assert_eq!(session.phase(), Phase::Ended);
    assert_eq!(session.resolved(None), vec![]);
}

#[test]
fn accept_does_not_wait_where_the_provider_cannot_resolve() {
    let text = ses_chars("ab");
    let mut session = session_on("ab", 1, vec![unresolved("item")], false);
    session.navigate(Direction::Next);
    let actions = session.accept(CANNOT_RESOLVE, &text, &Selection::single(1));
    assert_eq!(actions[0], Action::Checkpoint);
    assert_eq!(actions[1], Action::Apply(Transaction::replace(2, 1, 1, ses_chars("item")).unwrap()));
    assert_eq!(session.phase(), Phase::Ended);
}

#[test]
fn accept_of_a_snippet_hands_out_its_placeholders() {
    let text = ses_chars("x");
    let item = Candidate::Protocol(ProtocolItem {
        provider: ProviderId(3),
        item: RawItem {
            edit: EditDescription::PlainText { insert_text: Some("foo(${1:a}, ${2:b})".to_string()) },
            snippet_format: true,
            ..RawItem::new("foo".to_string())
        },
        resolved: true,
    });
    let mut session = session_on("x", 0, vec![item], false);
    session.navigate(Direction::Next);
    let mut actions = session.accept(CAN_RESOLVE, &text, &Selection::single(0));
    assert_eq!(actions.len(), 7);
    assert!(matches!(actions[3], Action::Record { placeholder: true, .. }));
    let mut buffer = text.clone();
    carry_out(&mut buffer, &text, &actions);
    assert_eq!(buffer, ses_chars("foo(a, b)x"));
    // the outer snippet "${1:x}" is being filled in, the cursor before the x
    let outer = completion_engine::snippet::ActiveSnippet::new(completion_engine::snippet::RenderedSnippet {
        start: 0,
        len: 1,
        placeholders: vec![completion_engine::snippet::Placeholder { number: 1, start: 0, end: 1 }],
    });
    let snippet = match actions.remove(2) {
        Action::InsertSnippet(snippet) => snippet,
        other => panic!("expected a snippet, got {:?}", other),
    };
    let combined = compose(outer, snippet).unwrap();
    assert_eq!(combined.placeholders().len(), 3);
    let wrap = combined.placeholders()[0];
    assert_eq!(&buffer[wrap.start..wrap.end], &ses_chars("foo(a, b)x")[..]);
    let active = combined.current();
    assert_eq!(&buffer[active.start..active.end], &ses_chars("a")[..]);
}

#[test]
fn accept_of_a_local_candidate_applies_its_transaction() {
    let text = ses_chars("cd ");
    let local = Candidate::Local(LocalItem {
        label: "src/".to_string(),
        kind: "folder".to_string(),
        documentation: "/home/src".to_string(),
        transaction: Transaction::replace(3, 3, 3, ses_chars("src/")).unwrap(),
    });
    let mut session = session_on("cd ", 3, vec![local], true);
    let preview = session.navigate(Direction::Next);
    assert_eq!(
        preview[1],
        Action::ApplyTemporary(Transaction::replace(3, 3, 3, ses_chars("src/")).unwrap())
    );
    let actions = session.accept(None, &ses_chars("cd src/"), &Selection::single(7));
    let mut buffer = ses_chars("cd src/");
    carry_out(&mut buffer, &text, &actions);
    assert_eq!(buffer, ses_chars("cd src/"));
    assert_eq!(actions.len(), 7);
    assert_eq!(actions[2], Action::Apply(Transaction::replace(3, 3, 3, ses_chars("src/")).unwrap()));
}

#[test]
fn typing_ranks_anew_and_leaves_the_buffer_alone() {
    let completion =
        Completion::new(vec![offered("print", "print"), offered("panic", "panic")], &ses_chars("p"), 1, 0);
    let mut session = Session::new(
        completion,
        SavePoint { text: ses_chars(""), selection: Selection::single(0) },
        Config { preview: true, replace_mode: false },
    );
    assert_eq!(session.completion().matches().len(), 2);
    session.navigate(Direction::Next);
    let phase = session.phase();
    session.type_filter(Some('r'));
    assert_eq!(session.completion().matches().len(), 1);
    assert_eq!(session.phase(), phase);
    session.type_filter(None);
    assert_eq!(session.completion().matches().len(), 2);
    session.abort();
    session.type_filter(Some('r'));
    assert_eq!(session.completion().matches().len(), 2);
}

#[test]
fn abort_of_an_ended_session_does_nothing() {
    let mut session = session_on("ab", 1, vec![offered("x", "XX")], true);
    assert_eq!(session.abort(), vec![Action::Restore { discard_selection_drift: false }, Action::SignatureHelp, Action::EndSession]);
    assert_eq!(session.abort(), vec![]);
    assert_eq!(session.navigate(Direction::Next), vec![]);
}

#[test]
fn details_are_asked_for_once() {
    let mut session = session_on("ab", 1, vec![unresolved("a"), unresolved("b")], false);
    assert_eq!(session.ensure_resolved(CAN_RESOLVE), vec![]);
    session.navigate(Direction::Next);
    assert_eq!(session.ensure_resolved(CAN_RESOLVE), vec![Action::RequestDetails { candidate: 0 }]);
    assert_eq!(session.ensure_resolved(CAN_RESOLVE), vec![]);
    session.navigate(Direction::Next);
    assert_eq!(session.ensure_resolved(CAN_RESOLVE), vec![Action::RequestDetails { candidate: 1 }]);
    session.navigate(Direction::Prev);
    assert_eq!(session.ensure_resolved(CAN_RESOLVE), vec![]);
    // the answer for the first candidate comes while it is highlighted again
    let fresh = RawItem { detail: Some("fn a()".to_string()), ..RawItem::new("a".to_string()) };
    session.details_arrived(0, Some(fresh.clone()));
    assert_eq!(
        session.completion().items()[0],
        Candidate::Protocol(ProtocolItem { provider: ProviderId(3), item: fresh, resolved: true })
    );
    assert_eq!(session.ensure_resolved(CAN_RESOLVE), vec![]);
    // a failed answer keeps what was there and allows asking again
    session.navigate(Direction::Next);
    session.details_arrived(1, None);
    assert_eq!(session.completion().items()[1], unresolved("b"));
    assert_eq!(session.ensure_resolved(CAN_RESOLVE), vec![Action::RequestDetails { candidate: 1 }]);
}

#[test]
fn details_are_not_asked_of_a_provider_that_cannot_resolve() {
    let mut session = session_on("ab", 1, vec![unresolved("a"), offered("b", "b")], false);
    session.navigate(Direction::Next);
    assert_eq!(session.ensure_resolved(CANNOT_RESOLVE), vec![]);
    session.navigate(Direction::Next);
    assert_eq!(session.ensure_resolved(CAN_RESOLVE), vec![]);
    assert_eq!(session.phase(), Phase::Idle);
}

#[test]
fn details_of_a_candidate_whose_provider_is_gone_end_the_session() {
    let mut session = session_on("ab", 1, vec![unresolved("a")], true);
    session.navigate(Direction::Next);
    assert_eq!(
        session.ensure_resolved(None),
        vec![Action::Restore { discard_selection_drift: false }, Action::ReportStale, Action::EndSession]
    );
    assert_eq!(session.phase(), Phase::Ended);
}

#[test]
fn answers_nobody_asked_for_and_late_answers_change_nothing() {
    let mut session = session_on("ab", 1, vec![unresolved("a")], false);
    session.navigate(Direction::Next);
    session.details_arrived(0, Some(RawItem::new("intruder".to_string())));
    assert_eq!(session.completion().items()[0], unresolved("a"));
    session.details_arrived(5, Some(RawItem::new("intruder".to_string())));
    assert_eq!(session.ensure_resolved(CAN_RESOLVE), vec![Action::RequestDetails { candidate: 0 }]);
    session.abort();
    session.details_arrived(0, Some(RawItem::new("late".to_string())));
    assert_eq!(session.completion().items()[0], unresolved("a"));
}

#[test]
fn resolver_keeps_track_of_requests() {
    let mut resolver = DetailResolver::new();
    let item = unresolved("a");
    assert!(!resolver.is_pending(4));
    assert_eq!(resolver.ensure_item_resolved(4, &item, CAN_RESOLVE), Lookup::Request { candidate: 4 });
    assert!(resolver.is_pending(4));
    assert_eq!(resolver.ensure_item_resolved(4, &item, CAN_RESOLVE), Lookup::Skip);
    assert_eq!(resolver.ensure_item_resolved(5, &item, None), Lookup::Stale);
    assert_eq!(resolver.ensure_item_resolved(5, &offered("b", "b"), None), Lookup::Skip);
    assert!(resolver.answer(4));
    assert!(!resolver.answer(4));
    assert!(!resolver.is_pending(4));
}

#[test]
fn sessions_stay_well_formed() {
    let text = ses_chars("ab");
    let mut session = session_on("ab", 1, vec![unresolved("a"), offered("b", "B")], true);
    assert!(session.is_well_formed());
    session.navigate(Direction::Next);
    assert!(session.is_well_formed());
    session.ensure_resolved(CAN_RESOLVE);
    session.type_filter(Some('a'));
    assert!(session.is_well_formed());
    assert!(session.completion().is_well_formed());
    session.navigate(Direction::Next);
    session.accept(CAN_RESOLVE, &text, &Selection::single(1));
    assert!(session.is_well_formed());
    session.resolved(None);
    assert!(session.is_well_formed());
    assert!(DetailResolver::new().is_well_formed());
}

#[test]
fn further_edits_that_did_not_map_are_not_applied() {
    let text = ses_chars("ab");
    let item = Candidate::Protocol(ProtocolItem {
        provider: ProviderId(3),
        item: RawItem {
            additional_edits: vec![
                TextEdit { range: Some(Span { start: 0, end: 0 }), new_text: "use x;".to_string() },
                TextEdit { range: None, new_text: "use y;".to_string() },
            ],
            ..RawItem::new("item".to_string())
        },
        resolved: true,
    });
    let mut session = session_on("ab", 1, vec![item], false);
    session.navigate(Direction::Next);
    let actions = session.accept(CAN_RESOLVE, &text, &Selection::single(1));
    assert_eq!(actions.len(), 6);
    assert!(actions.iter().all(|action| !matches!(action, Action::ApplyAdditionalEdits(_))));
    assert_eq!(actions[1], Action::Apply(Transaction::replace(2, 1, 1, ses_chars("item")).unwrap()));
}
