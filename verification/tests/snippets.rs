use completion_engine::snippet::{
    compose, parse, ActiveSnippet, Placeholder, RenderedSnippet, Snippet,
};

fn snip_chars(s: &str) -> Vec<char> {
    s.chars().collect()
}

fn parsed(s: &str) -> Option<Snippet> {
    parse(&snip_chars(s))
}

fn ph(number: usize, start: usize, end: usize) -> Placeholder {
    Placeholder { number, start, end }
}

#[test]
fn plain_text_is_a_snippet_without_placeholders() {
    let s = parsed("hello world").unwrap();
    assert_eq!(s.text, snip_chars("hello world"));
    assert_eq!(s.placeholders, vec![]);
    let empty = parsed("").unwrap();
    assert_eq!(empty.text, snip_chars(""));
}

#[test]
fn placeholders_with_text_span_their_text() {
    let s = parsed("foo(${1:a}, ${2:b})").unwrap();
    assert_eq!(s.text, snip_chars("foo(a, b)"));
    assert_eq!(s.placeholders, vec![ph(1, 4, 5), ph(2, 7, 8)]);
}

#[test]
fn bare_and_braced_tabstops_are_empty() {
    let s = parsed("a$1b${2}c$0").unwrap();
    assert_eq!(s.text, snip_chars("abc"));
    assert_eq!(s.placeholders, vec![ph(1, 1, 1), ph(2, 2, 2), ph(0, 3, 3)]);
    let many = parsed("$12x").unwrap();
    assert_eq!(many.placeholders, vec![ph(12, 0, 0)]);
    assert_eq!(many.text, snip_chars("x"));
}

#[test]
fn placeholders_nest() {
    let s = parsed("${1:f(${2:x})}!").unwrap();
    assert_eq!(s.text, snip_chars("f(x)!"));
    assert_eq!(s.placeholders, vec![ph(1, 0, 4), ph(2, 2, 3)]);
}

#[test]
fn backslash_takes_the_meaning_away() {
    let s = parsed("\\$1 \\} \\\\ \\n").unwrap();
    assert_eq!(s.text, snip_chars("$1 } \\ \\n"));
    assert_eq!(s.placeholders, vec![]);
    let inside = parsed("${1:a\\}b}").unwrap();
    assert_eq!(inside.text, snip_chars("a}b"));
    assert_eq!(inside.placeholders, vec![ph(1, 0, 3)]);
    let trailing = parsed("a\\").unwrap();
    assert_eq!(trailing.text, snip_chars("a\\"));
}

#[test]
fn stray_markers_stand_for_themselves() {
    let s = parsed("cost: $ 5 } $-").unwrap();
    assert_eq!(s.text, snip_chars("cost: $ 5 } $-"));
    assert_eq!(s.placeholders, vec![]);
    let last = parsed("a$").unwrap();
    assert_eq!(last.text, snip_chars("a$"));
}

#[test]
fn variables_stand_for_their_text_or_for_nothing() {
    let s = parsed("a $TM_FILENAME b").unwrap();
    assert_eq!(s.text, snip_chars("a  b"));
    assert_eq!(s.placeholders, vec![]);
    let s = parsed("a ${name} b$x9_y.").unwrap();
    assert_eq!(s.text, snip_chars("a  b."));
    let s = parsed("${TM_SELECTED_TEXT:none ${1:here}}!").unwrap();
    assert_eq!(s.text, snip_chars("none here!"));
    assert_eq!(s.placeholders, vec![ph(1, 5, 9)]);
    let s = parsed("${1:${var:x}y}").unwrap();
    assert_eq!(s.text, snip_chars("xy"));
    assert_eq!(s.placeholders, vec![ph(1, 0, 2)]);
    let s = parsed("$_").unwrap();
    assert_eq!(s.text, snip_chars(""));
}

#[test]
fn choices_give_a_placeholder_around_the_first() {
    let s = parsed("${1|one,two,three|}!").unwrap();
    assert_eq!(s.text, snip_chars("one!"));
    assert_eq!(s.placeholders, vec![ph(1, 0, 3)]);
    let s = parsed("x${2|a\\,b,c\\|d|}y").unwrap();
    assert_eq!(s.text, snip_chars("xa,by"));
    assert_eq!(s.placeholders, vec![ph(2, 1, 4)]);
    let s = parsed("${1||}").unwrap();
    assert_eq!(s.text, snip_chars(""));
    assert_eq!(s.placeholders, vec![ph(1, 0, 0)]);
    let s = parsed("${1|$x}|}").unwrap();
    assert_eq!(s.text, snip_chars("$x}"));
    let s = parsed("${3:in ${1|yes,no|}}").unwrap();
    assert_eq!(s.text, snip_chars("in yes"));
    assert_eq!(s.placeholders, vec![ph(3, 0, 6), ph(1, 3, 6)]);
    let s = parsed("${1|a,b\\\\|}").unwrap();
    assert_eq!(s.text, snip_chars("a"));
}

#[test]
fn malformed_snippets_do_not_parse() {
    assert!(parsed("${").is_none());
    assert!(parsed("${}").is_none());
    assert!(parsed("${-}").is_none());
    assert!(parsed("${a").is_none());
    assert!(parsed("${a-}").is_none());
    assert!(parsed("${a:b").is_none());
    assert!(parsed("${1").is_none());
    assert!(parsed("${1x}").is_none());
    assert!(parsed("${1:abc").is_none());
    assert!(parsed("${1:${2:x}").is_none());
    assert!(parsed("${1|a,b").is_none());
    assert!(parsed("${1|a,b|").is_none());
    assert!(parsed("${1|a,b|x}").is_none());
    assert!(parsed("${1|a,b}").is_none());
    assert!(parsed("${1/a/b/}").is_none());
    assert!(parsed("${name/a/b/}").is_none());
    assert!(parsed("$99999999999999999999999999999999").is_none());
    assert!(parsed("${99999999999999999999999999999999}").is_none());
}

#[test]
fn place_moves_placeholders_into_the_buffer() {
    let s = parsed("foo(${1:a}, ${2:b})").unwrap();
    let r = s.place(10).unwrap();
    assert_eq!(r.start, 10);
    assert_eq!(r.len, 9);
    assert_eq!(r.placeholders, vec![ph(1, 14, 15), ph(2, 17, 18)]);
    assert!(s.place(usize::MAX - 8).is_none());
    assert!(s.place(usize::MAX - 9).is_some());
}

#[test]
fn snippet_without_placeholders_starts_no_state() {
    let r = RenderedSnippet { start: 0, len: 3, placeholders: vec![] };
    assert!(ActiveSnippet::new(r).is_none());
    let r = RenderedSnippet { start: 0, len: 3, placeholders: vec![] };
    assert!(compose(None, r).is_none());
}

#[test]
fn first_snippet_becomes_the_state() {
    let r = RenderedSnippet { start: 5, len: 9, placeholders: vec![ph(1, 9, 10), ph(2, 12, 13)] };
    let a = compose(None, r).unwrap();
    assert_eq!(a.placeholders(), &vec![ph(1, 9, 10), ph(2, 12, 13)]);
    assert_eq!(a.active(), 0);
    assert_eq!(a.current(), ph(1, 9, 10));
}

#[test]
fn snippet_nests_into_active_placeholder() {
    // the outer snippet is "${1:x}" at the start of the buffer; the cursor
    // stands in front of the x when "foo(${1:a}, ${2:b})" is accepted
    let outer = parsed("${1:x}").unwrap().place(0).unwrap();
    let active = ActiveSnippet::new(outer).unwrap();
    let inner = parsed("foo(${1:a}, ${2:b})").unwrap().place(0).unwrap();
    let combined = compose(Some(active), inner).unwrap();
    assert_eq!(combined.placeholders().len(), 3);
    assert_eq!(combined.placeholders()[0], ph(1, 0, 10));
    assert_eq!(combined.placeholders()[1], ph(1, 4, 5));
    assert_eq!(combined.placeholders()[2], ph(2, 7, 8));
    assert_eq!(combined.active(), 1);
    assert_eq!(combined.current(), ph(1, 4, 5));
}

#[test]
fn nesting_shifts_what_lies_behind() {
    let outer = RenderedSnippet {
        start: 0,
        len: 20,
        placeholders: vec![ph(1, 0, 20), ph(2, 2, 5), ph(3, 5, 8), ph(4, 10, 12), ph(5, 0, 2)],
    };
    let mut active = ActiveSnippet::new(outer).unwrap();
    // make the second placeholder the active one by nesting nothing first
    active = active
        .insert_subsnippet(RenderedSnippet { start: 0, len: 0, placeholders: vec![ph(9, 0, 0)] })
        .unwrap();
    assert_eq!(active.active(), 1);
    assert_eq!(active.current(), ph(9, 0, 0));
    let inner = RenderedSnippet { start: 0, len: 3, placeholders: vec![ph(1, 1, 2)] };
    let combined = active.insert_subsnippet(inner).unwrap();
    assert_eq!(
        combined.placeholders(),
        &vec![
            ph(1, 0, 23),
            ph(9, 0, 3),
            ph(1, 1, 2),
            ph(2, 5, 8),
            ph(3, 8, 11),
            ph(4, 13, 15),
            ph(5, 0, 5),
        ]
    );
    assert_eq!(combined.active(), 2);
}

#[test]
fn insertion_outside_active_placeholder_starts_afresh() {
    let outer = RenderedSnippet { start: 0, len: 5, placeholders: vec![ph(1, 2, 4)] };
    let active = ActiveSnippet::new(outer).unwrap();
    let inner = RenderedSnippet { start: 10, len: 3, placeholders: vec![ph(1, 11, 12)] };
    let combined = active.insert_subsnippet(inner).unwrap();
    assert_eq!(combined.placeholders(), &vec![ph(1, 11, 12)]);
    assert_eq!(combined.active(), 0);
    let outer = RenderedSnippet { start: 0, len: 5, placeholders: vec![ph(1, 2, 4)] };
    let active = ActiveSnippet::new(outer).unwrap();
    let none = RenderedSnippet { start: 10, len: 3, placeholders: vec![] };
    assert!(active.insert_subsnippet(none).is_none());
}

#[test]
fn nesting_a_snippet_without_placeholders_keeps_the_active_one() {
    let outer = RenderedSnippet { start: 0, len: 5, placeholders: vec![ph(1, 2, 4), ph(2, 4, 5)] };
    let active = ActiveSnippet::new(outer).unwrap();
    let inner = RenderedSnippet { start: 3, len: 2, placeholders: vec![] };
    let combined = active.insert_subsnippet(inner).unwrap();
    assert_eq!(combined.placeholders(), &vec![ph(1, 2, 6), ph(2, 6, 7)]);
    assert_eq!(combined.active(), 0);
}

#[test]
fn nesting_that_overflows_starts_afresh() {
    let outer = RenderedSnippet { start: 0, len: 5, placeholders: vec![ph(1, 2, 4), ph(2, usize::MAX - 1, usize::MAX)] };
    let active = ActiveSnippet::new(outer).unwrap();
    let inner = RenderedSnippet { start: 3, len: 2, placeholders: vec![ph(7, 3, 4)] };
    let combined = active.insert_subsnippet(inner).unwrap();
    assert_eq!(combined.placeholders(), &vec![ph(7, 3, 4)]);
}
