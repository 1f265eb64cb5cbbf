use completion_engine::item::{EditDescription, ItemKind, RawItem, Span};
use completion_engine::resolve::{
    absolute_span, item_to_transaction, relative_offsets, same_stretch, EditOffsets, Selection,
};
use completion_engine::snippet::Placeholder;
use completion_engine::transaction::{Change, Transaction};

fn res_chars(s: &str) -> Vec<char> {
    s.chars().collect()
}

fn structured(insert: (usize, usize), replace: (usize, usize), new_text: &str) -> RawItem {
    RawItem {
        edit: EditDescription::Structured {
            insert: Some(Span { start: insert.0, end: insert.1 }),
            replace: Some(Span { start: replace.0, end: replace.1 }),
            new_text: new_text.to_string(),
        },
        ..RawItem::new("label".to_string())
    }
}

#[test]
fn plain_text_goes_in_at_the_trigger() {
    let text = res_chars("0123456789abcdef");
    let item = RawItem {
        edit: EditDescription::PlainText { insert_text: Some("println".to_string()) },
        ..RawItem::new("println!".to_string())
    };
    let (tx, snippet) = item_to_transaction(&text, &Selection::single(10), &item, 10, false);
    assert_eq!(tx.changes(), &vec![Change { start: 10, end: 10, text: res_chars("println") }]);
    assert!(snippet.is_none());
    let after = tx.apply(&text).unwrap();
    assert_eq!(after, res_chars("0123456789printlnabcdef"));
    assert_eq!(&after[10..17], &res_chars("println")[..]);
}

#[test]
fn plain_text_replaces_what_was_typed_since_the_trigger() {
    let text = res_chars("let x = pri;");
    let item = RawItem::new("println".to_string());
    let (tx, _) = item_to_transaction(&text, &Selection::single(11), &item, 8, false);
    assert_eq!(tx.changes(), &vec![Change { start: 8, end: 11, text: res_chars("println") }]);
    assert_eq!(tx.apply(&text), Some(res_chars("let x = println;")));
}

#[test]
fn label_goes_in_without_insert_text() {
    let text = res_chars("ab");
    let item = RawItem::new("label".to_string());
    let (tx, _) = item_to_transaction(&text, &Selection::single(1), &item, 1, true);
    assert_eq!(tx.apply(&text), Some(res_chars("alabelb")));
}

#[test]
fn structured_edit_takes_insert_or_replace_span() {
    let text = res_chars("foo.barbaz()");
    let item = structured((4, 7), (4, 10), "quux");
    let (insert, _) = item_to_transaction(&text, &Selection::single(7), &item, 4, false);
    assert_eq!(insert.apply(&text), Some(res_chars("foo.quuxbaz()")));
    let (replace, _) = item_to_transaction(&text, &Selection::single(7), &item, 4, true);
    assert_eq!(replace.apply(&text), Some(res_chars("foo.quux()")));
}

#[test]
fn offsets_are_distances_from_the_cursor() {
    let offsets = relative_offsets(Span { start: 8, end: 12 }, 10);
    assert_eq!(offsets, EditOffsets { start: -2, end: 2 });
    assert_eq!(absolute_span(offsets, 10, 30), Some(Span { start: 8, end: 12 }));
    assert_eq!(absolute_span(offsets, 20, 30), Some(Span { start: 18, end: 22 }));
}

#[test]
fn offsets_that_leave_the_text_give_no_span() {
    let offsets = EditOffsets { start: -2, end: 2 };
    assert_eq!(absolute_span(offsets, 1, 30), None);
    assert_eq!(absolute_span(offsets, 29, 30), None);
    assert_eq!(absolute_span(offsets, 28, 30), Some(Span { start: 26, end: 30 }));
    assert_eq!(absolute_span(EditOffsets { start: 2, end: 1 }, 5, 30), None);
    assert_eq!(absolute_span(EditOffsets { start: i128::MAX, end: i128::MAX }, 5, 30), None);
    assert_eq!(absolute_span(EditOffsets { start: i128::MIN, end: 0 }, 5, 30), None);
}

#[test]
fn span_beyond_the_text_changes_nothing() {
    let text = res_chars("short");
    let item = structured((1005, 1005), (1005, 1005), "late");
    let (tx, snippet) = item_to_transaction(&text, &Selection::single(5), &item, 5, false);
    assert_eq!(tx, Transaction::new(5));
    assert!(tx.is_empty());
    assert!(snippet.is_none());
    assert_eq!(tx.apply(&text), Some(res_chars("short")));
}

#[test]
fn backwards_span_changes_nothing() {
    let text = res_chars("short");
    let item = structured((3, 1), (3, 1), "x");
    let (tx, _) = item_to_transaction(&text, &Selection::single(3), &item, 3, false);
    assert!(tx.is_empty());
    let plain = RawItem::new("x".to_string());
    let (tx, _) = item_to_transaction(&text, &Selection::single(2), &plain, 4, false);
    assert!(tx.is_empty());
}

#[test]
fn cursor_beyond_the_text_changes_nothing() {
    let text = res_chars("short");
    let item = structured((1, 2), (1, 2), "x");
    let (tx, _) = item_to_transaction(&text, &Selection::single(6), &item, 1, false);
    assert!(tx.is_empty());
    assert_eq!(tx.len(), 5);
}

#[test]
fn snippet_item_brings_placeholders() {
    let text = res_chars("x = ;");
    let item = RawItem {
        edit: EditDescription::PlainText { insert_text: Some("foo(${1:a}, ${2:b})".to_string()) },
        snippet_format: true,
        ..RawItem::new("foo".to_string())
    };
    let (tx, snippet) = item_to_transaction(&text, &Selection::single(4), &item, 4, false);
    assert_eq!(tx.apply(&text), Some(res_chars("x = foo(a, b);")));
    let snippet = snippet.unwrap();
    assert_eq!(snippet.start, 4);
    assert_eq!(snippet.len, 9);
    assert_eq!(
        snippet.placeholders,
        vec![
            Placeholder { number: 1, start: 8, end: 9 },
            Placeholder { number: 2, start: 11, end: 12 },
        ]
    );
}

#[test]
fn snippet_by_kind_is_parsed_too() {
    let text = res_chars("");
    let item = RawItem {
        kind: Some(ItemKind::Snippet),
        edit: EditDescription::PlainText { insert_text: Some("if $1 {}".to_string()) },
        ..RawItem::new("if".to_string())
    };
    let (tx, snippet) = item_to_transaction(&text, &Selection::single(0), &item, 0, false);
    assert_eq!(tx.apply(&text), Some(res_chars("if  {}")));
    assert_eq!(snippet.unwrap().placeholders, vec![Placeholder { number: 1, start: 3, end: 3 }]);
}

#[test]
fn plain_item_keeps_snippet_markers_as_text() {
    let text = res_chars("");
    let item = RawItem {
        edit: EditDescription::PlainText { insert_text: Some("${1:a}".to_string()) },
        ..RawItem::new("x".to_string())
    };
    let (tx, snippet) = item_to_transaction(&text, &Selection::single(0), &item, 0, false);
    assert_eq!(tx.apply(&text), Some(res_chars("${1:a}")));
    assert!(snippet.is_none());
}

#[test]
fn snippet_that_does_not_parse_changes_nothing() {
    let text = res_chars("abc");
    let item = RawItem {
        edit: EditDescription::PlainText { insert_text: Some("foo(${1:a".to_string()) },
        snippet_format: true,
        ..RawItem::new("foo".to_string())
    };
    let (tx, snippet) = item_to_transaction(&text, &Selection::single(1), &item, 1, false);
    assert!(tx.is_empty());
    assert!(snippet.is_none());
    assert_eq!(tx.apply(&text), Some(res_chars("abc")));
}

#[test]
fn edit_is_made_at_every_cursor() {
    let text = res_chars("01234567890123456789012345\n");
    assert_eq!(&text[18..22], &text[8..12]);
    let item = structured((8, 12), (8, 12), "XY");
    let selection = Selection { cursors: vec![10, 20], primary: 0 };
    let (tx, snippet) = item_to_transaction(&text, &selection, &item, 8, false);
    assert_eq!(
        tx.changes(),
        &vec![
            Change { start: 8, end: 12, text: res_chars("XY") },
            Change { start: 18, end: 22, text: res_chars("XY") },
        ]
    );
    assert!(snippet.is_none());
    assert_eq!(tx.apply(&text), Some(res_chars("01234567XY234567XY2345\n")));
    // the primary cursor may be the later one
    let selection = Selection { cursors: vec![10, 20], primary: 1 };
    let item = structured((18, 22), (18, 22), "XY");
    let (tx, _) = item_to_transaction(&text, &selection, &item, 18, false);
    assert_eq!(tx.apply(&text), Some(res_chars("01234567XY234567XY2345\n")));
}

#[test]
fn cursors_where_the_edit_does_not_fit_are_passed_over() {
    let text = res_chars("ab ab xb ab");
    let item = structured((0, 2), (0, 2), "Z");
    // cursor 1: distances leave the text at its start; 8: other characters;
    // 2 again: reaches into the change before it; 11: fits
    let selection = Selection { cursors: vec![2, 1, 8, 2, 11], primary: 0 };
    let (tx, _) = item_to_transaction(&text, &selection, &item, 0, false);
    assert_eq!(
        tx.changes(),
        &vec![Change { start: 0, end: 2, text: res_chars("Z") }, Change { start: 9, end: 11, text: res_chars("Z") }]
    );
    // a cursor before the primary one that would reach into its span
    let text = res_chars("aaaa");
    let item = structured((1, 3), (1, 3), "Z");
    let selection = Selection { cursors: vec![2, 3], primary: 1 };
    let (tx, _) = item_to_transaction(&text, &selection, &item, 1, false);
    assert_eq!(tx.changes(), &vec![Change { start: 1, end: 3, text: res_chars("Z") }]);
}

#[test]
fn selection_without_primary_cursor_changes_nothing() {
    let text = res_chars("abc");
    let item = RawItem::new("x".to_string());
    let (tx, _) = item_to_transaction(&text, &Selection { cursors: vec![1], primary: 1 }, &item, 1, false);
    assert!(tx.is_empty());
    let (tx, _) = item_to_transaction(&text, &Selection { cursors: vec![], primary: 0 }, &item, 1, false);
    assert!(tx.is_empty());
    assert_eq!(Selection::single(4).cursor(), Some(4));
    assert_eq!(Selection { cursors: vec![1, 7], primary: 1 }.cursor(), Some(7));
    assert_eq!(Selection { cursors: vec![1, 7], primary: 2 }.cursor(), None);
    assert_eq!(Selection { cursors: vec![1, 7], primary: 1 }.copy(), Selection { cursors: vec![1, 7], primary: 1 });
}

#[test]
fn snippet_placeholders_follow_the_changes_before_them() {
    let text = res_chars("f f");
    let item = RawItem {
        edit: EditDescription::Structured {
            insert: Some(Span { start: 2, end: 3 }),
            replace: Some(Span { start: 2, end: 3 }),
            new_text: "foo(${1:a})".to_string(),
        },
        snippet_format: true,
        ..RawItem::new("foo".to_string())
    };
    let selection = Selection { cursors: vec![1, 3], primary: 1 };
    let (tx, snippet) = item_to_transaction(&text, &selection, &item, 2, false);
    let after = tx.apply(&text).unwrap();
    assert_eq!(after, res_chars("foo(a) foo(a)"));
    let snippet = snippet.unwrap();
    assert_eq!(snippet.start, 7);
    assert_eq!(snippet.len, 6);
    assert_eq!(snippet.placeholders, vec![Placeholder { number: 1, start: 11, end: 12 }]);
    assert_eq!(&after[11..12], &res_chars("a")[..]);
}

#[test]
fn stretches_are_compared_by_their_characters() {
    let text = res_chars("abcabd");
    assert!(same_stretch(&text, Span { start: 0, end: 2 }, Span { start: 3, end: 5 }));
    assert!(!same_stretch(&text, Span { start: 0, end: 3 }, Span { start: 3, end: 6 }));
    assert!(!same_stretch(&text, Span { start: 0, end: 2 }, Span { start: 3, end: 4 }));
    assert!(same_stretch(&text, Span { start: 1, end: 1 }, Span { start: 6, end: 6 }));
}

#[test]
fn range_that_did_not_map_changes_nothing() {
    let text = res_chars("short");
    let item = RawItem {
        edit: EditDescription::Structured {
            insert: None,
            replace: Some(Span { start: 1, end: 2 }),
            new_text: "x".to_string(),
        },
        ..RawItem::new("label".to_string())
    };
    let (tx, snippet) = item_to_transaction(&text, &Selection::single(2), &item, 1, false);
    assert!(tx.is_empty());
    assert!(snippet.is_none());
    let (tx, _) = item_to_transaction(&text, &Selection::single(2), &item, 1, true);
    assert_eq!(tx.apply(&text), Some(res_chars("sxort")));
}
