use completion_engine::transaction::{completion_changes, Change, Transaction};

fn tx_chars(s: &str) -> Vec<char> {
    s.chars().collect()
}

#[test]
fn replace_puts_text_into_span() {
    let tx = Transaction::replace(5, 1, 3, tx_chars("xy")).unwrap();
    assert_eq!(tx.apply(&tx_chars("hello")), Some(tx_chars("hxylo")));
    assert_eq!(tx.len(), 5);
    assert!(!tx.is_empty());
}

#[test]
fn replace_refuses_span_outside_text() {
    assert!(Transaction::replace(5, 3, 2, tx_chars("x")).is_none());
    assert!(Transaction::replace(5, 2, 6, tx_chars("x")).is_none());
    assert!(Transaction::replace(5, 5, 5, tx_chars("x")).is_some());
}

#[test]
fn new_transaction_changes_nothing() {
    let tx = Transaction::new(3);
    assert!(tx.is_empty());
    assert_eq!(tx.changes().len(), 0);
    assert_eq!(tx.apply(&tx_chars("abc")), Some(tx_chars("abc")));
}

#[test]
fn apply_refuses_text_of_other_length() {
    let tx = Transaction::replace(5, 1, 3, tx_chars("xy")).unwrap();
    assert_eq!(tx.apply(&tx_chars("hell")), None);
    assert_eq!(Transaction::new(0).apply(&tx_chars("a")), None);
}

#[test]
fn several_changes_apply_in_order() {
    let changes = vec![
        Change { start: 0, end: 1, text: tx_chars("AB") },
        Change { start: 2, end: 2, text: tx_chars("-") },
        Change { start: 4, end: 6, text: tx_chars("") },
    ];
    let tx = Transaction::from_changes(6, changes).unwrap();
    assert_eq!(tx.apply(&tx_chars("abcdef")), Some(tx_chars("ABb-cd")));
}

#[test]
fn from_changes_refuses_overlap_and_disorder() {
    let overlap = vec![
        Change { start: 0, end: 3, text: tx_chars("x") },
        Change { start: 2, end: 4, text: tx_chars("y") },
    ];
    assert!(Transaction::from_changes(6, overlap).is_none());
    let disorder = vec![
        Change { start: 4, end: 5, text: tx_chars("x") },
        Change { start: 0, end: 1, text: tx_chars("y") },
    ];
    assert!(Transaction::from_changes(6, disorder).is_none());
    let beyond = vec![Change { start: 4, end: 7, text: tx_chars("x") }];
    assert!(Transaction::from_changes(6, beyond).is_none());
    let backwards = vec![Change { start: 3, end: 2, text: tx_chars("x") }];
    assert!(Transaction::from_changes(6, backwards).is_none());
    let touching = vec![
        Change { start: 0, end: 2, text: tx_chars("x") },
        Change { start: 2, end: 4, text: tx_chars("y") },
    ];
    assert!(Transaction::from_changes(6, touching).is_some());
}

#[test]
fn completion_changes_keeps_those_at_the_trigger() {
    let changes = vec![
        Change { start: 0, end: 1, text: tx_chars("a") },
        Change { start: 3, end: 5, text: tx_chars("b") },
        Change { start: 5, end: 5, text: tx_chars("c") },
        Change { start: 8, end: 9, text: tx_chars("d") },
    ];
    let tx = Transaction::from_changes(10, changes).unwrap();
    let kept = completion_changes(&tx, 5);
    assert_eq!(
        kept,
        vec![
            Change { start: 3, end: 5, text: tx_chars("b") },
            Change { start: 5, end: 5, text: tx_chars("c") },
        ]
    );
    assert_eq!(completion_changes(&tx, 2), vec![]);
    assert_eq!(completion_changes(&tx, 0).len(), 1);
}

#[test]
fn clone_of_transaction_is_equal() {
    let tx = Transaction::replace(5, 1, 3, tx_chars("xy")).unwrap();
    assert_eq!(tx.clone(), tx);
}

#[test]
fn same_transactions_are_told_from_others() {
    let tx = Transaction::replace(5, 1, 3, tx_chars("xy")).unwrap();
    assert!(tx.is_same(&Transaction::replace(5, 1, 3, tx_chars("xy")).unwrap()));
    assert!(!tx.is_same(&Transaction::replace(6, 1, 3, tx_chars("xy")).unwrap()));
    assert!(!tx.is_same(&Transaction::replace(5, 1, 2, tx_chars("xy")).unwrap()));
    assert!(!tx.is_same(&Transaction::replace(5, 0, 3, tx_chars("xy")).unwrap()));
    assert!(!tx.is_same(&Transaction::replace(5, 1, 3, tx_chars("xz")).unwrap()));
    assert!(!tx.is_same(&Transaction::replace(5, 1, 3, tx_chars("x")).unwrap()));
    assert!(!tx.is_same(&Transaction::new(5)));
    assert!(Transaction::new(5).is_same(&Transaction::new(5)));
}
