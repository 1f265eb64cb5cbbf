//! Snippets: replacement text with placeholders to step through.
//!
//! The grammar read here:
//! - `$1` and `${1}` are empty placeholders, `${1:text}` is a placeholder
//!   around `text`, which may hold further placeholders;
//! - `${1|one,two|}` is a placeholder around its first choice;
//! - `$name` and `${name}` are variables, and none has a value here: they
//!   stand for nothing, and `${name:text}` stands for `text`;
//! - a backslash takes the special meaning from a following `$`, `}` or
//!   backslash, and among choices from a following `,`, `|` or backslash;
//! - everything else stands for itself.
//!
//! Transforms (`${1/…/…/}`) are not read: they make a snippet malformed.

use vstd::prelude::*;

verus! {

/// A placeholder: its number and the characters `[start, end)` it spans.
#[derive(Debug, Clone, Copy, PartialEq, Eq)]
pub struct Placeholder {
    pub number: usize,
    pub start: usize,
    pub end: usize,
}

/// A parsed snippet: its text with the markers taken out, and its
/// placeholders in the order in which they open, as offsets into that text.
#[derive(Debug, PartialEq, Eq)]
pub struct Snippet {
    pub text: Vec<char>,
    pub placeholders: Vec<Placeholder>,
}

/// What a [`Snippet`] stands for.
pub ghost struct SnippetModel {
    pub text: Seq<char>,
    pub placeholders: Seq<Placeholder>,
}

impl View for Snippet {
    type V = SnippetModel;

    open spec fn view(&self) -> SnippetModel {
        SnippetModel { text: self.text@, placeholders: self.placeholders@ }
    }
}

impl SnippetModel {
    /// Every placeholder lies inside the text.
    pub open spec fn wf(self) -> bool {
        forall|k: int|
            0 <= k < self.placeholders.len() ==> (#[trigger] self.placeholders[k]).start
                <= self.placeholders[k].end <= self.text.len()
    }
}

pub open spec fn is_digit(c: char) -> bool {
    48 <= c as u32 <= 57
}

pub open spec fn digit_value(c: char) -> nat {
    (c as u32 - 48) as nat
}

/// Whether a backslash before `c` only serves to take its meaning away.
pub open spec fn is_escapable(c: char) -> bool {
    c == '$' || c == '}' || c == '\\'
}

/// The end of the run of digits that starts at `i`.
pub open spec fn digits_end(src: Seq<char>, i: int) -> int
    decreases src.len() - i,
{
    if 0 <= i < src.len() && is_digit(src[i]) {
        digits_end(src, i + 1)
    } else {
        i
    }
}

/// The decimal number written in `src[i..j]`.
pub open spec fn number(src: Seq<char>, i: int, j: int) -> nat
    decreases j - i,
{
    if j <= i {
        0
    } else {
        number(src, i, j - 1) * 10 + digit_value(src[j - 1])
    }
}

/// Whether a variable's name may start with `c`: an underscore or a
/// letter of the basic alphabet.
pub open spec fn is_name_start(c: char) -> bool {
    c as u32 == 95 || 97 <= c as u32 <= 122 || 65 <= c as u32 <= 90
}

/// Whether a variable's name may go on with `c`.
pub open spec fn is_name_char(c: char) -> bool {
    is_name_start(c) || is_digit(c)
}

/// The end of the name that starts at `i`.
pub open spec fn name_end(src: Seq<char>, i: int) -> int
    decreases src.len() - i,
{
    if 0 <= i < src.len() && is_name_char(src[i]) {
        name_end(src, i + 1)
    } else {
        i
    }
}

/// Whether a backslash among choices only serves to take the meaning of
/// `c` away.
pub open spec fn is_choice_escapable(c: char) -> bool {
    c == ',' || c == '|' || c == '\\'
}

/// Where the scan stands among the choices of a placeholder.
#[derive(Debug, Clone, Copy, PartialEq, Eq)]
pub enum Choosing {
    /// Not among choices.
    No,
    /// In the first choice, which becomes the placeholder's text.
    First,
    /// In a later choice, which is passed over.
    Later,
}

/// Where the scan of a snippet stands: the text written so far, the
/// placeholders opened so far, what is open and not yet closed, innermost
/// last (a placeholder, or `None` for the text of a variable), and where
/// among choices.
pub ghost struct ScanState {
    pub text: Seq<char>,
    pub placeholders: Seq<Placeholder>,
    pub open: Seq<Option<int>>,
    pub choosing: Choosing,
}

impl ScanState {
    pub open spec fn start() -> ScanState {
        ScanState {
            text: Seq::empty(),
            placeholders: Seq::empty(),
            open: Seq::empty(),
            choosing: Choosing::No,
        }
    }

    pub open spec fn emit(self, c: char) -> ScanState {
        ScanState { text: self.text.push(c), ..self }
    }

    pub open spec fn mark(self, number: nat) -> Placeholder {
        Placeholder {
            number: number as usize,
            start: self.text.len() as usize,
            end: self.text.len() as usize,
        }
    }

    /// An empty placeholder at the current position.
    pub open spec fn tabstop(self, number: nat) -> ScanState {
        ScanState { placeholders: self.placeholders.push(self.mark(number)), ..self }
    }

    /// A placeholder that starts at the current position and is closed
    /// later.
    pub open spec fn begin(self, number: nat) -> ScanState {
        ScanState {
            placeholders: self.placeholders.push(self.mark(number)),
            open: self.open.push(Some(self.placeholders.len() as int)),
            ..self
        }
    }

    /// The text of a variable starts, to be closed later.
    pub open spec fn begin_text(self) -> ScanState {
        ScanState { open: self.open.push(None), ..self }
    }

    /// The innermost of what is open ends at the current position.
    pub open spec fn close(self) -> ScanState {
        match self.open.last() {
            Some(k) => ScanState {
                placeholders: self.placeholders.update(
                    k,
                    Placeholder { end: self.text.len() as usize, ..self.placeholders[k] },
                ),
                open: self.open.drop_last(),
                ..self
            },
            None => ScanState { open: self.open.drop_last(), ..self },
        }
    }

    /// A character among choices: written in the first one, passed over
    /// in a later one.
    pub open spec fn pick(self, c: char) -> ScanState {
        if self.choosing is First {
            self.emit(c)
        } else {
            self
        }
    }

    pub open spec fn among(self, choosing: Choosing) -> ScanState {
        ScanState { choosing, ..self }
    }

    /// Open placeholders are known ones, and every placeholder lies
    /// inside the text written so far.
    pub open spec fn inv(self) -> bool {
        &&& self.text.len() <= usize::MAX
        &&& self.placeholders.len() <= usize::MAX
        &&& !(self.choosing is No) ==> self.open.len() > 0 && self.open.last() is Some
        &&& forall|k: int|
            0 <= k < self.open.len() && (#[trigger] self.open[k]) is Some ==> 0 <= self.open[k]->0
                < self.placeholders.len()
        &&& forall|k: int|
            0 <= k < self.placeholders.len() ==> (#[trigger] self.placeholders[k]).start
                <= self.placeholders[k].end <= self.text.len()
    }
}

/// The state after `src[i..]` has been read from state `st`, or `None`
/// where the rest is malformed: `${` not followed by a number or a name,
/// a number that no `}`, `:` or `|` follows or that does not fit, a name
/// that no `}` or `:` follows, choices that do not end in `|}`, something
/// left open.
pub open spec fn scan(src: Seq<char>, i: int, st: ScanState) -> Option<ScanState>
    decreases src.len() - i,
{
    if i < 0 || i >= src.len() {
        if st.open.len() == 0 {
            Some(st)
        } else {
            None
        }
    } else if !(st.choosing is No) {
        if src[i] == '\\' && i + 1 < src.len() && is_choice_escapable(src[i + 1]) {
            scan(src, i + 2, st.pick(src[i + 1]))
        } else if src[i] == ',' {
            scan(src, i + 1, st.among(Choosing::Later))
        } else if src[i] == '|' {
            if i + 1 < src.len() && src[i + 1] == '}' {
                scan(src, i + 2, st.close().among(Choosing::No))
            } else {
                None
            }
        } else {
            scan(src, i + 1, st.pick(src[i]))
        }
    } else if src[i] == '\\' {
        if i + 1 < src.len() && is_escapable(src[i + 1]) {
            scan(src, i + 2, st.emit(src[i + 1]))
        } else {
            scan(src, i + 1, st.emit('\\'))
        }
    } else if src[i] == '$' {
        if i + 1 < src.len() && is_digit(src[i + 1]) {
            let j = digits_end(src, i + 1);
            if number(src, i + 1, j) > usize::MAX || j <= i + 1 || j > src.len() {
                None
            } else {
                scan(src, j, st.tabstop(number(src, i + 1, j)))
            }
        } else if i + 1 < src.len() && is_name_start(src[i + 1]) {
            let j = name_end(src, i + 1);
            if j <= i + 1 || j > src.len() {
                None
            } else {
                scan(src, j, st)
            }
        } else if i + 1 < src.len() && src[i + 1] == '{' {
            if i + 2 < src.len() && is_name_start(src[i + 2]) {
                let j = name_end(src, i + 2);
                if j <= i + 2 || j >= src.len() {
                    None
                } else if src[j] == '}' {
                    scan(src, j + 1, st)
                } else if src[j] == ':' {
                    scan(src, j + 1, st.begin_text())
                } else {
                    None
                }
            } else {
                let j = digits_end(src, i + 2);
                if j <= i + 2 || number(src, i + 2, j) > usize::MAX || j >= src.len() {
                    None
                } else if src[j] == '}' {
                    scan(src, j + 1, st.tabstop(number(src, i + 2, j)))
                } else if src[j] == ':' {
                    scan(src, j + 1, st.begin(number(src, i + 2, j)))
                } else if src[j] == '|' {
                    scan(src, j + 1, st.begin(number(src, i + 2, j)).among(Choosing::First))
                } else {
                    None
                }
            }
        } else {
            scan(src, i + 1, st.emit('$'))
        }
    } else if src[i] == '}' && st.open.len() > 0 {
        scan(src, i + 1, st.close())
    } else {
        scan(src, i + 1, st.emit(src[i]))
    }
}

/// The snippet that `src` spells, or `None` where it is malformed.
pub open spec fn parse_spec(src: Seq<char>) -> Option<SnippetModel> {
    match scan(src, 0, ScanState::start()) {
        Some(st) => Some(SnippetModel { text: st.text, placeholders: st.placeholders }),
        None => None,
    }
}

proof fn lemma_digits_end_bounds(src: Seq<char>, i: int)
    requires
        0 <= i <= src.len(),
    ensures
        i <= digits_end(src, i) <= src.len(),
        forall|k: int| i <= k < digits_end(src, i) ==> is_digit(#[trigger] src[k]),
        digits_end(src, i) < src.len() ==> !is_digit(src[digits_end(src, i)]),
    decreases src.len() - i,
{
    if i < src.len() && is_digit(src[i]) {
        lemma_digits_end_bounds(src, i + 1);
    }
}

proof fn lemma_digits_end_same(src: Seq<char>, i: int, k: int)
    requires
        0 <= i <= k <= src.len(),
        forall|m: int| i <= m < k ==> is_digit(#[trigger] src[m]),
    ensures
        digits_end(src, i) == digits_end(src, k),
    decreases k - i,
{
    if i < k {
        lemma_digits_end_same(src, i + 1, k);
    }
}

proof fn lemma_number_grows(src: Seq<char>, i: int, j: int, k: int)
    requires
        i <= j <= k,
    ensures
        number(src, i, j) <= number(src, i, k),
    decreases k - j,
{
    if j < k {
        lemma_number_grows(src, i, j, k - 1);
    }
}

fn digit_at(source: &Vec<char>, i: usize) -> (out: bool)
    requires
        i < source.len(),
    ensures
        out == is_digit(source@[i as int]),
{
    let c = source[i] as u32;
    48 <= c && c <= 57
}

/// Reads the run of digits at `i`: its value and its end, or `None` with
/// the end where the value does not fit.
fn read_number(source: &Vec<char>, i: usize) -> (out: (Option<usize>, usize))
    requires
        i <= source.len(),
    ensures
        out.1 == digits_end(source@, i as int),
        i <= out.1 <= source.len(),
        out.0 matches Some(v) ==> v == number(source@, i as int, out.1 as int),
        out.0 is None ==> number(source@, i as int, out.1 as int) > usize::MAX,
{
    let mut j: usize = i;
    let mut value: Option<usize> = Some(0);
    while j < source.len() && digit_at(source, j)
        invariant
            i <= j <= source.len(),
            forall|m: int| i <= m < j ==> is_digit(#[trigger] source@[m]),
            value matches Some(v) ==> v == number(source@, i as int, j as int),
            value is None ==> number(source@, i as int, j as int) > usize::MAX,
        decreases source.len() - j,
    {
        let d = (source[j] as u32 - 48) as usize;
        proof {
            lemma_number_grows(source@, i as int, j as int, j as int + 1);
        }
        value = match value {
            Some(v) => match v.checked_mul(10) {
                Some(w) => w.checked_add(d),
                None => None,
            },
            None => None,
        };
        j += 1;
    }
    proof {
        lemma_digits_end_same(source@, i as int, j as int);
    }
    (value, j)
}

proof fn lemma_name_end_bounds(src: Seq<char>, i: int)
    requires
        0 <= i <= src.len(),
    ensures
        i <= name_end(src, i) <= src.len(),
        i < src.len() && is_name_char(src[i]) ==> i < name_end(src, i),
    decreases src.len() - i,
{
    if i < src.len() && is_name_char(src[i]) {
        lemma_name_end_bounds(src, i + 1);
    }
}

proof fn lemma_name_end_same(src: Seq<char>, i: int, k: int)
    requires
        0 <= i <= k <= src.len(),
        forall|m: int| i <= m < k ==> is_name_char(#[trigger] src[m]),
    ensures
        name_end(src, i) == name_end(src, k),
    decreases k - i,
{
    if i < k {
        lemma_name_end_same(src, i + 1, k);
    }
}

fn name_start_at(source: &Vec<char>, i: usize) -> (out: bool)
    requires
        i < source.len(),
    ensures
        out == is_name_start(source@[i as int]),
{
    let c = source[i] as u32;
    c == 95 || (97 <= c && c <= 122) || (65 <= c && c <= 90)
}

fn name_char_at(source: &Vec<char>, i: usize) -> (out: bool)
    requires
        i < source.len(),
    ensures
        out == is_name_char(source@[i as int]),
{
    name_start_at(source, i) || digit_at(source, i)
}

/// The end of the name that starts at `i`.
fn read_name(source: &Vec<char>, i: usize) -> (out: usize)
    requires
        i <= source.len(),
    ensures
        out == name_end(source@, i as int),
        i <= out <= source.len(),
{
    let mut j: usize = i;
    while j < source.len() && name_char_at(source, j)
        invariant
            i <= j <= source.len(),
            forall|m: int| i <= m < j ==> is_name_char(#[trigger] source@[m]),
        decreases source.len() - j,
    {
        j += 1;
    }
    proof {
        lemma_name_end_same(source@, i as int, j as int);
    }
    j
}

/// What is open, as the scan's state has it.
pub open spec fn open_model(open: Seq<Option<usize>>) -> Seq<Option<int>> {
    open.map_values(
        |k: Option<usize>|
            match k {
                Some(v) => Some(v as int),
                None => None,
            },
    )
}

/// Parses `source`; `None` where it is malformed.
pub fn parse(source: &Vec<char>) -> (out: Option<Snippet>)
    ensures
        match (out, parse_spec(source@)) {
            (Some(s), Some(m)) => s@ == m && m.wf(),
            (None, None) => true,
            _ => false,
        },
{
    let n = source.len();
    let ghost src = source@;
    let mut text: Vec<char> = Vec::new();
    let mut placeholders: Vec<Placeholder> = Vec::new();
    let mut open: Vec<Option<usize>> = Vec::new();
    let mut choosing = Choosing::No;
    let ghost mut st = ScanState::start();
    let mut i: usize = 0;
    assert(st.open =~= open_model(open@));
    while i < n
        invariant
            i <= n == src.len(),
            src == source@,
            st.text == text@,
            st.placeholders == placeholders@,
            st.open == open_model(open@),
            st.choosing == choosing,
            st.inv(),
            scan(src, i as int, st) == scan(src, 0, ScanState::start()),
        decreases n - i,
    {
        let c = source[i];
        let ghost prev = st;
        let among = match choosing {
            Choosing::No => false,
            _ => true,
        };
        let first = match choosing {
            Choosing::First => true,
            _ => false,
        };
        if among {
            if c == '\\' && i + 1 < n && choice_escapable_at(source, i + 1) {
                if first {
                    text.push(source[i + 1]);
                }
                proof {
                    st = prev.pick(src[i as int + 1]);
                    assert(st.text =~= text@);
                    assert(text@.len() == text.len());
                }
                i += 2;
            } else if c == ',' {
                choosing = Choosing::Later;
                proof {
                    st = prev.among(Choosing::Later);
                }
                i += 1;
            } else if c == '|' {
                if !(i + 1 < n && source[i + 1] == '}') {
                    return None;
                }
                let top = open[open.len() - 1];
                assert(prev.open.last() == open_model(open@).last());
                open.pop();
                match top {
                    Some(k) => {
                        let p = placeholders[k];
                        placeholders.set(
                            k,
                            Placeholder { number: p.number, start: p.start, end: text.len() },
                        );
                    },
                    None => {},
                }
                choosing = Choosing::No;
                proof {
                    st = prev.close().among(Choosing::No);
                    assert(st.open =~= open_model(open@));
                }
                i += 2;
            } else {
                if first {
                    text.push(c);
                }
                proof {
                    st = prev.pick(c);
                    assert(st.text =~= text@);
                    assert(text@.len() == text.len());
                }
                i += 1;
            }
        } else if c == '\\' {
            if i + 1 < n && escapable_at(source, i + 1) {
                text.push(source[i + 1]);
                proof {
                    st = prev.emit(src[i as int + 1]);
                    assert(st.text =~= text@);
                    assert(text@.len() == text.len());
                }
                i += 2;
            } else {
                text.push('\\');
                proof {
                    st = prev.emit('\\');
                    assert(st.text =~= text@);
                    assert(text@.len() == text.len());
                }
                i += 1;
            }
        } else if c == '$' {
            if i + 1 < n && digit_at(source, i + 1) {
                let (value, j) = read_number(source, i + 1);
                proof {
                    lemma_digits_end_bounds(src, i as int + 1);
                }
                match value {
                    None => {
                        return None;
                    },
                    Some(v) => {
                        let at = text.len();
                        placeholders.push(Placeholder { number: v, start: at, end: at });
                        proof {
                            st = prev.tabstop(v as nat);
                            assert(placeholders@.len() == placeholders.len());
                        }
                        i = j;
                    },
                }
            } else if i + 1 < n && name_start_at(source, i + 1) {
                let j = read_name(source, i + 1);
                proof {
                    lemma_name_end_bounds(src, i as int + 1);
                }
                i = j;
            } else if i + 1 < n && source[i + 1] == '{' {
                if i + 2 < n && name_start_at(source, i + 2) {
                    let j = read_name(source, i + 2);
                    proof {
                        lemma_name_end_bounds(src, i as int + 2);
                    }
                    if j >= n {
                        return None;
                    }
                    if source[j] == '}' {
                    } else if source[j] == ':' {
                        open.push(None);
                        proof {
                            st = prev.begin_text();
                            assert(st.open =~= open_model(open@));
                        }
                    } else {
                        return None;
                    }
                    i = j + 1;
                } else {
                    let (value, j) = read_number(source, i + 2);
                    proof {
                        lemma_digits_end_bounds(src, i as int + 2);
                    }
                    if j <= i + 2 || j >= n {
                        return None;
                    }
                    match value {
                        None => {
                            return None;
                        },
                        Some(v) => {
                            let at = text.len();
                            if source[j] == '}' {
                                placeholders.push(Placeholder { number: v, start: at, end: at });
                                proof {
                                    st = prev.tabstop(v as nat);
                                    assert(placeholders@.len() == placeholders.len());
                                }
                            } else if source[j] == ':' {
                                open.push(Some(placeholders.len()));
                                placeholders.push(Placeholder { number: v, start: at, end: at });
                                proof {
                                    st = prev.begin(v as nat);
                                    assert(st.open =~= open_model(open@));
                                    assert(placeholders@.len() == placeholders.len());
                                }
                            } else if source[j] == '|' {
                                open.push(Some(placeholders.len()));
                                placeholders.push(Placeholder { number: v, start: at, end: at });
                                choosing = Choosing::First;
                                proof {
                                    st = prev.begin(v as nat).among(Choosing::First);
                                    assert(st.open =~= open_model(open@));
                                    assert(placeholders@.len() == placeholders.len());
                                }
                            } else {
                                return None;
                            }
                            i = j + 1;
                        },
                    }
                }
            } else {
                text.push('$');
                proof {
                    st = prev.emit('$');
                    assert(st.text =~= text@);
                    assert(text@.len() == text.len());
                }
                i += 1;
            }
        } else if c == '}' && open.len() > 0 {
            let top = open[open.len() - 1];
            assert(prev.open.last() == open_model(open@).last());
            open.pop();
            match top {
                Some(k) => {
                    let p = placeholders[k];
                    placeholders.set(k, Placeholder { number: p.number, start: p.start, end: text.len() });
                },
                None => {},
            }
            proof {
                st = prev.close();
                assert(st.open =~= open_model(open@));
            }
            i += 1;
        } else {
            text.push(c);
            proof {
                st = prev.emit(c);
                assert(st.text =~= text@);
                assert(text@.len() == text.len());
            }
            i += 1;
        }
    }
    if open.len() != 0 {
        return None;
    }
    Some(Snippet { text, placeholders })
}

fn escapable_at(source: &Vec<char>, i: usize) -> (out: bool)
    requires
        i < source.len(),
    ensures
        out == is_escapable(source@[i as int]),
{
    let c = source[i];
    c == '$' || c == '}' || c == '\\'
}

fn choice_escapable_at(source: &Vec<char>, i: usize) -> (out: bool)
    requires
        i < source.len(),
    ensures
        out == is_choice_escapable(source@[i as int]),
{
    let c = source[i];
    c == ',' || c == '|' || c == '\\'
}

/// A snippet put into a buffer: where its text starts, how long the text
/// is, and its placeholders as offsets into the buffer.
#[derive(Debug, PartialEq, Eq)]
pub struct RenderedSnippet {
    pub start: usize,
    pub len: usize,
    pub placeholders: Vec<Placeholder>,
}

/// What a [`RenderedSnippet`] stands for.
pub ghost struct RenderedModel {
    pub start: nat,
    pub len: nat,
    pub placeholders: Seq<Placeholder>,
}

impl View for RenderedSnippet {
    type V = RenderedModel;

    open spec fn view(&self) -> RenderedModel {
        RenderedModel {
            start: self.start as nat,
            len: self.len as nat,
            placeholders: self.placeholders@,
        }
    }
}

impl SnippetModel {
    /// The snippet with its text starting at `at`.
    pub open spec fn placed(self, at: nat) -> RenderedModel {
        RenderedModel {
            start: at,
            len: self.text.len(),
            placeholders: self.placeholders.map_values(|p: Placeholder| moved(p, at as int)),
        }
    }
}

/// `p` moved `by` characters to the right.
pub open spec fn moved(p: Placeholder, by: int) -> Placeholder {
    Placeholder { number: p.number, start: (p.start + by) as usize, end: (p.end + by) as usize }
}

impl Snippet {
    /// The snippet with its text starting at `at`, or `None` where the
    /// text would reach beyond what an offset can hold.
    pub fn place(&self, at: usize) -> (out: Option<RenderedSnippet>)
        requires
            self@.wf(),
        ensures
            out is Some <==> at + self.text@.len() <= usize::MAX,
            out matches Some(r) ==> r@ == self@.placed(at as nat),
    {
        if self.text.len() > usize::MAX - at {
            return None;
        }
        let ghost target = self.placeholders@.map_values(|p: Placeholder| moved(p, at as int));
        let mut placeholders: Vec<Placeholder> = Vec::new();
        let mut i: usize = 0;
        while i < self.placeholders.len()
            invariant
                i <= self.placeholders.len(),
                self@.wf(),
                at + self.text@.len() <= usize::MAX,
                target == self.placeholders@.map_values(|p: Placeholder| moved(p, at as int)),
                placeholders@ == target.take(i as int),
            decreases self.placeholders.len() - i,
        {
            let p = self.placeholders[i];
            assert(self@.placeholders[i as int].start <= self@.placeholders[i as int].end
                <= self.text@.len());
            placeholders.push(Placeholder { number: p.number, start: p.start + at, end: p.end + at });
            i += 1;
            assert(placeholders@ =~= target.take(i as int));
        }
        assert(target.take(i as int) =~= target);
        Some(RenderedSnippet { start: at, len: self.text.len(), placeholders })
    }
}

/// What an [`ActiveSnippet`] stands for: the placeholders being stepped
/// through and the one the cursor is in.
pub ghost struct ActiveModel {
    pub placeholders: Seq<Placeholder>,
    pub active: int,
}

/// Whether `p` holds the whole of `inner`.
pub open spec fn encloses(p: Placeholder, inner: Placeholder) -> bool {
    p.start <= inner.start && inner.end <= p.end
}

/// Where `p` lies after `by` characters were inserted at `at` inside the
/// placeholder `active`: one that encloses `active` grows by the
/// insertion; one that ends at or before `at` stays; one that starts at
/// or after `at` moves right; one that straddles `at` grows.
pub open spec fn after_insert(p: Placeholder, active: Placeholder, at: int, by: int) -> Placeholder {
    if encloses(p, active) {
        Placeholder { end: (p.end + by) as usize, ..p }
    } else if p.end <= at {
        p
    } else if p.start >= at {
        moved(p, by)
    } else {
        Placeholder { end: (p.end + by) as usize, ..p }
    }
}

/// The state a snippet starts with when none is active: its own
/// placeholders with the first one active, or no state where it has none.
pub open spec fn fresh(placeholders: Seq<Placeholder>) -> Option<ActiveModel> {
    if placeholders.len() == 0 {
        None
    } else {
        Some(ActiveModel { placeholders, active: 0 })
    }
}

impl ActiveModel {
    pub open spec fn wf(self) -> bool {
        0 <= self.active < self.placeholders.len()
    }

    pub open spec fn current(self) -> Placeholder {
        self.placeholders[self.active]
    }

    /// Whether text of `len` characters inserted at `at` nests: `at` lies
    /// inside the active placeholder, and no offset overflows.
    pub open spec fn admits(self, at: int, len: int) -> bool {
        &&& self.current().start <= at <= self.current().end
        &&& forall|k: int|
            0 <= k < self.placeholders.len() ==> (#[trigger] self.placeholders[k]).start + len
                <= usize::MAX && self.placeholders[k].end + len <= usize::MAX
    }

    /// The outer placeholders after the insertion, in their order.
    pub open spec fn shifted(self, at: int, len: int) -> Seq<Placeholder> {
        self.placeholders.map_values(|p: Placeholder| after_insert(p, self.current(), at, len))
    }

    /// The state after a snippet with placeholders `inner`, whose text
    /// takes `[at, at + len)`, has been inserted: the outer placeholders
    /// shifted, the inner ones spliced in behind the active one, and the
    /// first inner one active. Where the insertion does not nest, the
    /// inner snippet starts afresh.
    pub open spec fn nest(self, inner: Seq<Placeholder>, at: int, len: int) -> Option<ActiveModel> {
        if self.admits(at, len) {
            let outer = self.shifted(at, len);
            Some(
                ActiveModel {
                    placeholders: outer.take(self.active + 1) + inner + outer.skip(self.active + 1),
                    active: if inner.len() == 0 {
                        self.active
                    } else {
                        self.active + 1
                    },
                },
            )
        } else {
            fresh(inner)
        }
    }
}

/// The placeholder state after a snippet was inserted while `existing`
/// was active, if any was.
pub open spec fn compose_spec(
    existing: Option<ActiveModel>,
    inner: Seq<Placeholder>,
    at: int,
    len: int,
) -> Option<ActiveModel> {
    match existing {
        Some(a) => a.nest(inner, at, len),
        None => fresh(inner),
    }
}

/// Where a snippet is nested, no outer placeholder is lost: the combined
/// list holds all of them and the inner ones, the active outer
/// placeholder now spans the inserted text, and the first inner
/// placeholder is the active one.
pub proof fn lemma_nest_keeps_outer(outer: ActiveModel, inner: Seq<Placeholder>, at: int, len: int)
    requires
        outer.wf(),
        outer.admits(at, len),
        0 <= len,
    ensures
        ({
            let nested = outer.nest(inner, at, len)->0;
            &&& outer.nest(inner, at, len) is Some
            &&& nested.wf()
            &&& nested.placeholders.len() == outer.placeholders.len() + inner.len()
            &&& forall|k: int|
                0 <= k <= outer.active ==> (#[trigger] nested.placeholders[k]).number
                    == outer.placeholders[k].number
            &&& forall|k: int|
                outer.active < k < outer.placeholders.len() ==> (#[trigger] nested.placeholders[k
                    + inner.len()]).number == outer.placeholders[k].number
            &&& forall|k: int|
                0 <= k < inner.len() ==> #[trigger] nested.placeholders[outer.active + 1 + k]
                    == inner[k]
            &&& nested.placeholders[outer.active].start == outer.current().start
            &&& nested.placeholders[outer.active].start <= at
            &&& at + len <= nested.placeholders[outer.active].end
            &&& inner.len() > 0 ==> nested.current() == inner[0]
        }),
{
    let nested = outer.nest(inner, at, len)->0;
    let shifted = outer.shifted(at, len);
    assert(encloses(outer.current(), outer.current()));
    assert(shifted[outer.active] == after_insert(outer.current(), outer.current(), at, len));
    assert(outer.placeholders[outer.active].end + len <= usize::MAX);
    assert forall|k: int| 0 <= k <= outer.active implies (#[trigger] nested.placeholders[k]).number
        == outer.placeholders[k].number by {
        assert(nested.placeholders[k] == shifted[k]);
    }
    assert forall|k: int| outer.active < k < outer.placeholders.len() implies (
    #[trigger] nested.placeholders[k + inner.len()]).number == outer.placeholders[k].number by {
        assert(nested.placeholders[k + inner.len()] == shifted[k]);
    }
}

/// The placeholders of the snippets being filled in, and the active one.
#[derive(Debug, PartialEq, Eq)]
pub struct ActiveSnippet {
    placeholders: Vec<Placeholder>,
    active: usize,
}

impl View for ActiveSnippet {
    type V = ActiveModel;

    closed spec fn view(&self) -> ActiveModel {
        ActiveModel { placeholders: self.placeholders@, active: self.active as int }
    }
}

impl ActiveSnippet {
    #[verifier::type_invariant]
    pub closed spec fn wf(self) -> bool {
        self@.wf()
    }

    /// The state in which `snippet` alone is being filled in; `None`
    /// where it has no placeholder.
    pub fn new(snippet: RenderedSnippet) -> (out: Option<Self>)
        ensures
            out.is_some() == fresh(snippet.placeholders@).is_some(),
            out matches Some(a) ==> a.wf() && Some(a@) == fresh(snippet.placeholders@),
    {
        if snippet.placeholders.len() == 0 {
            None
        } else {
            Some(ActiveSnippet { placeholders: snippet.placeholders, active: 0 })
        }
    }

    /// The state after `snippet` was inserted inside the active
    /// placeholder.
    pub fn insert_subsnippet(self, snippet: RenderedSnippet) -> (out: Option<Self>)
        ensures
            out.is_some() == self@.nest(
                snippet.placeholders@,
                snippet.start as int,
                snippet.len as int,
            ).is_some(),
            out matches Some(a) ==> a.wf() && Some(a@) == self@.nest(
                snippet.placeholders@,
                snippet.start as int,
                snippet.len as int,
            ),
    {
        proof {
            use_type_invariant(&self);
        }
        let at = snippet.start;
        let len = snippet.len;
        let current = self.placeholders[self.active];
        let ghost model = self@;
        let ghost target = model.shifted(at as int, len as int);
        if !(current.start <= at && at <= current.end) {
            return ActiveSnippet::new(snippet);
        }
        let n = self.placeholders.len();
        let mut combined: Vec<Placeholder> = Vec::new();
        let mut i: usize = 0;
        while i < n
            invariant
                i <= n == self.placeholders.len(),
                model == self@,
                model.wf(),
                current == model.current(),
                current.start <= at <= current.end,
                at == snippet.start,
                len == snippet.len,
                target == model.shifted(at as int, len as int),
                forall|k: int|
                    0 <= k < i ==> (#[trigger] model.placeholders[k]).start + len <= usize::MAX
                        && model.placeholders[k].end + len <= usize::MAX,
                i <= self.active ==> combined@ == target.take(i as int),
                i > self.active ==> combined@ == target.take(self.active + 1) + snippet.placeholders@
                    + target.subrange(self.active + 1, i as int),
            decreases n - i,
        {
            let p = self.placeholders[i];
            if p.start > usize::MAX - len || p.end > usize::MAX - len {
                return ActiveSnippet::new(snippet);
            }
            let q = if p.start <= current.start && current.end <= p.end {
                Placeholder { number: p.number, start: p.start, end: p.end + len }
            } else if p.end <= at {
                p
            } else if p.start >= at {
                Placeholder { number: p.number, start: p.start + len, end: p.end + len }
            } else {
                Placeholder { number: p.number, start: p.start, end: p.end + len }
            };
            assert(q == target[i as int]);
            let ghost before = combined@;
            combined.push(q);
            if i == self.active {
                let mut j: usize = 0;
                while j < snippet.placeholders.len()
                    invariant
                        j <= snippet.placeholders.len(),
                        combined@ == before.push(q) + snippet.placeholders@.take(j as int),
                    decreases snippet.placeholders.len() - j,
                {
                    combined.push(snippet.placeholders[j]);
                    j += 1;
                    assert(combined@ =~= before.push(q) + snippet.placeholders@.take(j as int));
                }
                assert(snippet.placeholders@.take(j as int) =~= snippet.placeholders@);
                assert(combined@ =~= target.take(self.active + 1) + snippet.placeholders@
                    + target.subrange(self.active + 1, i as int + 1));
            } else if i < self.active {
                assert(combined@ =~= target.take(i as int + 1));
            } else {
                assert(combined@ =~= target.take(self.active + 1) + snippet.placeholders@
                    + target.subrange(self.active + 1, i as int + 1));
            }
            i += 1;
        }
        assert(target.subrange(self.active + 1, n as int) =~= target.skip(self.active + 1));
        let active = if snippet.placeholders.len() == 0 {
            self.active
        } else {
            self.active + 1
        };
        Some(ActiveSnippet { placeholders: combined, active })
    }

    /// The placeholders, in the order in which they are stepped through.
    pub fn placeholders(&self) -> (out: &Vec<Placeholder>)
        ensures
            out@ == self@.placeholders,
    {
        &self.placeholders
    }

    /// The index of the active placeholder.
    pub fn active(&self) -> (out: usize)
        ensures
            out == self@.active,
            self@.wf(),
    {
        proof {
            use_type_invariant(self);
        }
        self.active
    }

    /// The active placeholder.
    pub fn current(&self) -> (out: Placeholder)
        ensures
            out == self@.current(),
    {
        proof {
            use_type_invariant(self);
        }
        self.placeholders[self.active]
    }
}

/// The placeholder state after `snippet` was inserted: nested into
/// `existing` where one is active, on its own otherwise.
pub fn compose(existing: Option<ActiveSnippet>, snippet: RenderedSnippet) -> (out: Option<
    ActiveSnippet,
>)
    ensures
        out.is_some() == compose_spec(
            match existing {
                Some(a) => Some(a@),
                None => None,
            },
            snippet.placeholders@,
            snippet.start as int,
            snippet.len as int,
        ).is_some(),
        out matches Some(a) ==> a.wf() && Some(a@) == compose_spec(
            match existing {
                Some(a) => Some(a@),
                None => None,
            },
            snippet.placeholders@,
            snippet.start as int,
            snippet.len as int,
        ),
{
    match existing {
        Some(active) => active.insert_subsnippet(snippet),
        None => ActiveSnippet::new(snippet),
    }
}

} // verus!
