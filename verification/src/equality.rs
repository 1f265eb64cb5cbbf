//! When two candidates are the same: they say the same in every part.

use crate::item::{
    Candidate, Documentation, EditDescription, LocalItem, ProtocolItem, RawItem, TextEdit,
};
use vstd::prelude::*;
use vstd::std_specs::cmp::PartialEqSpecImpl;

verus! {

/// Both absent, or both there with the same characters.
pub open spec fn same_text(a: Option<String>, b: Option<String>) -> bool {
    match (a, b) {
        (Some(x), Some(y)) => x@ == y@,
        (None, None) => true,
        _ => false,
    }
}

/// The same edits in the same order.
pub open spec fn same_edits(a: Seq<TextEdit>, b: Seq<TextEdit>) -> bool {
    &&& a.len() == b.len()
    &&& forall|i: int| 0 <= i < a.len() ==> (#[trigger] a[i]).same(&b[i])
}

impl TextEdit {
    pub open spec fn same(&self, other: &TextEdit) -> bool {
        self.range == other.range && self.new_text@ == other.new_text@
    }

    pub fn is_same(&self, other: &TextEdit) -> (out: bool)
        ensures
            out == self.same(other),
    {
        is_same_span(self.range, other.range) && self.new_text == other.new_text
    }
}

impl Documentation {
    pub open spec fn same(&self, other: &Documentation) -> bool {
        match (self, other) {
            (Documentation::PlainText(a), Documentation::PlainText(b)) => a@ == b@,
            (Documentation::Markdown(a), Documentation::Markdown(b)) => a@ == b@,
            _ => false,
        }
    }

    pub fn is_same(&self, other: &Documentation) -> (out: bool)
        ensures
            out == self.same(other),
    {
        match (self, other) {
            (Documentation::PlainText(a), Documentation::PlainText(b)) => *a == *b,
            (Documentation::Markdown(a), Documentation::Markdown(b)) => *a == *b,
            _ => false,
        }
    }
}

impl EditDescription {
    pub open spec fn same(&self, other: &EditDescription) -> bool {
        match (self, other) {
            (
                EditDescription::PlainText { insert_text: a },
                EditDescription::PlainText { insert_text: b },
            ) => same_text(*a, *b),
            (
                EditDescription::Structured { insert: i, replace: r, new_text: t },
                EditDescription::Structured { insert: j, replace: s, new_text: u },
            ) => i == j && r == s && t@ == u@,
            _ => false,
        }
    }

    pub fn is_same(&self, other: &EditDescription) -> (out: bool)
        ensures
            out == self.same(other),
    {
        match (self, other) {
            (
                EditDescription::PlainText { insert_text: a },
                EditDescription::PlainText { insert_text: b },
            ) => is_same_text(a, b),
            (
                EditDescription::Structured { insert: i, replace: r, new_text: t },
                EditDescription::Structured { insert: j, replace: s, new_text: u },
            ) => is_same_span(*i, *j) && is_same_span(*r, *s) && *t == *u,
            _ => false,
        }
    }
}

/// Whether both are absent, or both there and the same span.
pub fn is_same_span(a: Option<crate::item::Span>, b: Option<crate::item::Span>) -> (out: bool)
    ensures
        out == (a == b),
{
    match (a, b) {
        (Some(x), Some(y)) => x.start == y.start && x.end == y.end,
        (None, None) => true,
        _ => false,
    }
}

/// Whether both are absent, or both there with the same characters.
pub fn is_same_text(a: &Option<String>, b: &Option<String>) -> (out: bool)
    ensures
        out == same_text(*a, *b),
{
    match (a, b) {
        (Some(x), Some(y)) => *x == *y,
        (None, None) => true,
        _ => false,
    }
}

/// Whether the edits are the same, in the same order.
pub fn is_same_edits(a: &Vec<TextEdit>, b: &Vec<TextEdit>) -> (out: bool)
    ensures
        out == same_edits(a@, b@),
{
    if a.len() != b.len() {
        return false;
    }
    let mut i: usize = 0;
    while i < a.len()
        invariant
            i <= a.len() == b.len(),
            forall|k: int| 0 <= k < i ==> (#[trigger] a@[k]).same(&b@[k]),
        decreases a.len() - i,
    {
        if !a[i].is_same(&b[i]) {
            return false;
        }
        i += 1;
    }
    true
}

impl RawItem {
    pub open spec fn same(&self, other: &RawItem) -> bool {
        &&& self.label@ == other.label@
        &&& self.kind == other.kind
        &&& same_text(self.detail, other.detail)
        &&& match (self.documentation, other.documentation) {
            (Some(a), Some(b)) => a.same(&b),
            (None, None) => true,
            _ => false,
        }
        &&& self.deprecated == other.deprecated
        &&& self.preselect == other.preselect
        &&& same_text(self.filter_text, other.filter_text)
        &&& self.edit.same(&other.edit)
        &&& self.snippet_format == other.snippet_format
        &&& self.tags@ == other.tags@
        &&& same_edits(self.additional_edits@, other.additional_edits@)
    }

    pub fn is_same(&self, other: &RawItem) -> (out: bool)
        ensures
            out == self.same(other),
    {
        let documentation = match (&self.documentation, &other.documentation) {
            (Some(a), Some(b)) => a.is_same(b),
            (None, None) => true,
            _ => false,
        };
        self.label == other.label && is_same_kind(self.kind, other.kind) && is_same_text(
            &self.detail,
            &other.detail,
        ) && documentation && self.deprecated == other.deprecated && self.preselect
            == other.preselect && is_same_text(&self.filter_text, &other.filter_text)
            && self.edit.is_same(&other.edit) && self.snippet_format == other.snippet_format
            && is_same_tags(&self.tags, &other.tags) && is_same_edits(
            &self.additional_edits,
            &other.additional_edits,
        )
    }
}

/// Whether the kind tags are the same.
pub fn is_same_kind(a: Option<crate::item::ItemKind>, b: Option<crate::item::ItemKind>) -> (out: bool)
    ensures
        out == (a == b),
{
    match (a, b) {
        (Some(x), Some(y)) => crate::item::kind_number(x) == crate::item::kind_number(y),
        (None, None) => true,
        _ => false,
    }
}

/// Whether the markers are the same, in the same order.
pub fn is_same_tags(a: &Vec<crate::item::ItemTag>, b: &Vec<crate::item::ItemTag>) -> (out: bool)
    ensures
        out == (a@ == b@),
{
    if a.len() != b.len() {
        return false;
    }
    let mut i: usize = 0;
    while i < a.len()
        invariant
            i <= a.len() == b.len(),
            forall|k: int| 0 <= k < i ==> a@[k] == b@[k],
        decreases a.len() - i,
    {
        let same = match (a[i], b[i]) {
            (crate::item::ItemTag::Deprecated, crate::item::ItemTag::Deprecated) => true,
            (crate::item::ItemTag::Unknown, crate::item::ItemTag::Unknown) => true,
            _ => false,
        };
        if !same {
            return false;
        }
        i += 1;
    }
    assert(a@ =~= b@);
    true
}

impl ProtocolItem {
    pub open spec fn same(&self, other: &ProtocolItem) -> bool {
        self.provider == other.provider && self.item.same(&other.item) && self.resolved
            == other.resolved
    }

    pub fn is_same(&self, other: &ProtocolItem) -> (out: bool)
        ensures
            out == self.same(other),
    {
        self.provider.0 == other.provider.0 && self.item.is_same(&other.item) && self.resolved
            == other.resolved
    }
}

impl LocalItem {
    pub open spec fn same(&self, other: &LocalItem) -> bool {
        &&& self.label@ == other.label@
        &&& self.kind@ == other.kind@
        &&& self.documentation@ == other.documentation@
        &&& self.transaction@ == other.transaction@
    }

    pub fn is_same(&self, other: &LocalItem) -> (out: bool)
        ensures
            out == self.same(other),
    {
        self.label == other.label && self.kind == other.kind && self.documentation
            == other.documentation && self.transaction.is_same(&other.transaction)
    }
}

impl Candidate {
    /// Two candidates are the same where they are of the same source and
    /// say the same in every part.
    pub open spec fn same(&self, other: &Candidate) -> bool {
        match (self, other) {
            (Candidate::Protocol(a), Candidate::Protocol(b)) => a.same(b),
            (Candidate::Local(a), Candidate::Local(b)) => a.same(b),
            _ => false,
        }
    }

    /// Whether two candidates are the same.
    pub fn is_same(&self, other: &Candidate) -> (out: bool)
        ensures
            out == self.same(other),
    {
        match (self, other) {
            (Candidate::Protocol(a), Candidate::Protocol(b)) => a.is_same(b),
            (Candidate::Local(a), Candidate::Local(b)) => a.is_same(b),
            _ => false,
        }
    }
}

impl PartialEq for Candidate {
    fn eq(&self, other: &Candidate) -> (out: bool) {
        self.is_same(other)
    }
}

impl PartialEqSpecImpl for Candidate {
    open spec fn obeys_eq_spec() -> bool {
        true
    }

    open spec fn eq_spec(&self, other: &Candidate) -> bool {
        self.same(other)
    }
}

} // verus!
