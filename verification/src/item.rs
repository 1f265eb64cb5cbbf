//! Candidates: what a provider offers, and what the editor makes up itself.

use crate::transaction::Transaction;
use vstd::prelude::*;

verus! {

/// The characters `[start, end)` of a buffer.
#[derive(Debug, Clone, Copy, PartialEq, Eq)]
pub struct Span {
    pub start: usize,
    pub end: usize,
}

/// The kind tag a provider puts on an item.
#[derive(Debug, Clone, Copy, PartialEq, Eq)]
pub enum ItemKind {
    Text,
    Method,
    Function,
    Constructor,
    Field,
    Variable,
    Class,
    Interface,
    Module,
    Property,
    Unit,
    Value,
    Enum,
    Keyword,
    Snippet,
    Color,
    File,
    Reference,
    Folder,
    EnumMember,
    Constant,
    Struct,
    Event,
    Operator,
    TypeParameter,
    /// A tag this library has no name for.
    Unknown,
}

/// Extra markers on an item.
#[derive(Debug, Clone, Copy, PartialEq, Eq)]
pub enum ItemTag {
    Deprecated,
    /// A marker this library has no name for.
    Unknown,
}

/// Documentation, plain or marked up.
#[derive(Debug, Clone, PartialEq, Eq)]
pub enum Documentation {
    PlainText(String),
    Markdown(String),
}

/// A replacement of one span, in the coordinates of the buffer as the
/// provider saw it; the span is `None` where the range that the provider
/// gave denotes no stretch of the buffer.
#[derive(Debug, Clone, PartialEq, Eq)]
pub struct TextEdit {
    pub range: Option<Span>,
    pub new_text: String,
}

/// How an item wants to be put into the buffer.
#[derive(Debug, Clone, PartialEq, Eq)]
pub enum EditDescription {
    /// Text to insert where completion was triggered; without it the
    /// label is inserted.
    PlainText { insert_text: Option<String> },
    /// Text with a span to replace: `insert` ends at the cursor,
    /// `replace` may reach beyond it. A span is `None` where the range
    /// that the provider gave denotes no stretch of the buffer.
    Structured { insert: Option<Span>, replace: Option<Span>, new_text: String },
}

/// An item as the provider sent it.
#[derive(Debug, Clone, PartialEq, Eq)]
pub struct RawItem {
    pub label: String,
    pub kind: Option<ItemKind>,
    pub detail: Option<String>,
    pub documentation: Option<Documentation>,
    pub deprecated: bool,
    pub preselect: bool,
    pub filter_text: Option<String>,
    pub edit: EditDescription,
    pub snippet_format: bool,
    pub tags: Vec<ItemTag>,
    pub additional_edits: Vec<TextEdit>,
}

/// Names a provider.
#[derive(Debug, Clone, Copy, PartialEq, Eq)]
pub struct ProviderId(pub usize);

/// An item that came over the protocol; its details may still be missing.
#[derive(Debug, Clone, PartialEq, Eq)]
pub struct ProtocolItem {
    pub provider: ProviderId,
    pub item: RawItem,
    pub resolved: bool,
}

/// An item the editor made up, with its transaction already built.
#[derive(Debug, Clone, PartialEq, Eq)]
pub struct LocalItem {
    pub label: String,
    pub kind: String,
    pub documentation: String,
    pub transaction: Transaction,
}

/// One completion option.
#[derive(Debug, Clone, Eq)]
pub enum Candidate {
    Protocol(ProtocolItem),
    Local(LocalItem),
}

/// How the label of a row is drawn.
#[derive(Debug, Clone, Copy, PartialEq, Eq)]
pub enum LabelStyle {
    Plain,
    CrossedOut,
    Directory,
}

/// The second cell of a row.
#[derive(Debug, Clone, Copy, PartialEq, Eq)]
pub enum KindCell<'a> {
    /// The name of the kind.
    Name(&'a str),
    /// A colour: its documentation may spell the colour out, and then a
    /// swatch can stand in for the word.
    Color { sample: Option<&'a str> },
}

impl<'a> KindCell<'a> {
    /// The word the cell shows: the name of the kind, and for a colour
    /// the word `color`, which stands wherever no swatch can be made of
    /// the sample.
    pub open spec fn word(self) -> Seq<char> {
        match self {
            KindCell::Name(name) => name@,
            KindCell::Color { .. } => "color"@,
        }
    }

    /// The word the cell shows; see [`KindCell::word`].
    pub fn text(&self) -> (out: &'a str)
        ensures
            out@ == self.word(),
    {
        match self {
            KindCell::Name(name) => *name,
            KindCell::Color { .. } => "color",
        }
    }
}

/// What a colour's cell shows on the colour as background, where its
/// sample spells a colour out: seven blanks.
pub fn swatch() -> (out: &'static str)
    ensures
        out@ == "       "@,
{
    "       "
}

/// One row of the candidate list.
#[derive(Debug, Clone, Copy, PartialEq, Eq)]
pub struct Row<'a> {
    pub label: &'a str,
    pub style: LabelStyle,
    pub kind: KindCell<'a>,
}

/// The number that stands for a kind tag on the wire; 0 for unknown ones.
pub fn kind_number(kind: ItemKind) -> (out: u8)
    ensures
        out == kind_code(kind),
{
    match kind {
        ItemKind::Text => 1,
        ItemKind::Method => 2,
        ItemKind::Function => 3,
        ItemKind::Constructor => 4,
        ItemKind::Field => 5,
        ItemKind::Variable => 6,
        ItemKind::Class => 7,
        ItemKind::Interface => 8,
        ItemKind::Module => 9,
        ItemKind::Property => 10,
        ItemKind::Unit => 11,
        ItemKind::Value => 12,
        ItemKind::Enum => 13,
        ItemKind::Keyword => 14,
        ItemKind::Snippet => 15,
        ItemKind::Color => 16,
        ItemKind::File => 17,
        ItemKind::Reference => 18,
        ItemKind::Folder => 19,
        ItemKind::EnumMember => 20,
        ItemKind::Constant => 21,
        ItemKind::Struct => 22,
        ItemKind::Event => 23,
        ItemKind::Operator => 24,
        ItemKind::TypeParameter => 25,
        ItemKind::Unknown => 0,
    }
}

/// The number that stands for a kind tag on the wire; each tag has its
/// own.
pub open spec fn kind_code(kind: ItemKind) -> u8 {
    match kind {
        ItemKind::Text => 1,
        ItemKind::Method => 2,
        ItemKind::Function => 3,
        ItemKind::Constructor => 4,
        ItemKind::Field => 5,
        ItemKind::Variable => 6,
        ItemKind::Class => 7,
        ItemKind::Interface => 8,
        ItemKind::Module => 9,
        ItemKind::Property => 10,
        ItemKind::Unit => 11,
        ItemKind::Value => 12,
        ItemKind::Enum => 13,
        ItemKind::Keyword => 14,
        ItemKind::Snippet => 15,
        ItemKind::Color => 16,
        ItemKind::File => 17,
        ItemKind::Reference => 18,
        ItemKind::Folder => 19,
        ItemKind::EnumMember => 20,
        ItemKind::Constant => 21,
        ItemKind::Struct => 22,
        ItemKind::Event => 23,
        ItemKind::Operator => 24,
        ItemKind::TypeParameter => 25,
        ItemKind::Unknown => 0,
    }
}

/// The word shown for a kind tag; empty for none and for unknown ones.
pub open spec fn kind_word(kind: Option<ItemKind>) -> Seq<char> {
    match kind {
        Some(ItemKind::Text) => "text"@,
        Some(ItemKind::Method) => "method"@,
        Some(ItemKind::Function) => "function"@,
        Some(ItemKind::Constructor) => "constructor"@,
        Some(ItemKind::Field) => "field"@,
        Some(ItemKind::Variable) => "variable"@,
        Some(ItemKind::Class) => "class"@,
        Some(ItemKind::Interface) => "interface"@,
        Some(ItemKind::Module) => "module"@,
        Some(ItemKind::Property) => "property"@,
        Some(ItemKind::Unit) => "unit"@,
        Some(ItemKind::Value) => "value"@,
        Some(ItemKind::Enum) => "enum"@,
        Some(ItemKind::Keyword) => "keyword"@,
        Some(ItemKind::Snippet) => "snippet"@,
        Some(ItemKind::Color) => "color"@,
        Some(ItemKind::File) => "file"@,
        Some(ItemKind::Reference) => "reference"@,
        Some(ItemKind::Folder) => "folder"@,
        Some(ItemKind::EnumMember) => "enum_member"@,
        Some(ItemKind::Constant) => "constant"@,
        Some(ItemKind::Struct) => "struct"@,
        Some(ItemKind::Event) => "event"@,
        Some(ItemKind::Operator) => "operator"@,
        Some(ItemKind::TypeParameter) => "type_param"@,
        Some(ItemKind::Unknown) => ""@,
        None => ""@,
    }
}

/// The word shown for a kind tag.
pub fn kind_name(kind: Option<ItemKind>) -> (out: &'static str)
    ensures
        out@ == kind_word(kind),
{
    match kind {
        Some(ItemKind::Text) => "text",
        Some(ItemKind::Method) => "method",
        Some(ItemKind::Function) => "function",
        Some(ItemKind::Constructor) => "constructor",
        Some(ItemKind::Field) => "field",
        Some(ItemKind::Variable) => "variable",
        Some(ItemKind::Class) => "class",
        Some(ItemKind::Interface) => "interface",
        Some(ItemKind::Module) => "module",
        Some(ItemKind::Property) => "property",
        Some(ItemKind::Unit) => "unit",
        Some(ItemKind::Value) => "value",
        Some(ItemKind::Enum) => "enum",
        Some(ItemKind::Keyword) => "keyword",
        Some(ItemKind::Snippet) => "snippet",
        Some(ItemKind::Color) => "color",
        Some(ItemKind::File) => "file",
        Some(ItemKind::Reference) => "reference",
        Some(ItemKind::Folder) => "folder",
        Some(ItemKind::EnumMember) => "enum_member",
        Some(ItemKind::Constant) => "constant",
        Some(ItemKind::Struct) => "struct",
        Some(ItemKind::Event) => "event",
        Some(ItemKind::Operator) => "operator",
        Some(ItemKind::TypeParameter) => "type_param",
        Some(ItemKind::Unknown) => "",
        None => "",
    }
}

impl Documentation {
    /// The text, whatever its markup.
    pub open spec fn text(&self) -> Seq<char> {
        match self {
            Documentation::PlainText(t) => t@,
            Documentation::Markdown(t) => t@,
        }
    }

    /// The text, whatever its markup.
    pub fn as_str(&self) -> (out: &str)
        ensures
            out@ == self.text(),
    {
        match self {
            Documentation::PlainText(t) => t.as_str(),
            Documentation::Markdown(t) => t.as_str(),
        }
    }
}

impl RawItem {
    /// An item that inserts its label as plain text and says nothing else.
    pub fn new(label: String) -> (out: Self)
        ensures
            out.label == label,
            out.kind is None,
            out.detail is None,
            out.documentation is None,
            !out.deprecated,
            !out.preselect,
            out.filter_text is None,
            out.edit == (EditDescription::PlainText { insert_text: None }),
            !out.snippet_format,
            out.tags@.len() == 0,
            out.additional_edits@.len() == 0,
    {
        RawItem {
            label,
            kind: None,
            detail: None,
            documentation: None,
            deprecated: false,
            preselect: false,
            filter_text: None,
            edit: EditDescription::PlainText { insert_text: None },
            snippet_format: false,
            tags: Vec::new(),
            additional_edits: Vec::new(),
        }
    }

    /// Marked as deprecated, by the flag or by a tag.
    pub open spec fn is_deprecated(&self) -> bool {
        self.deprecated || self.tags@.contains(ItemTag::Deprecated)
    }

    /// Marked as deprecated, by the flag or by a tag.
    pub fn deprecated(&self) -> (out: bool)
        ensures
            out == self.is_deprecated(),
    {
        if self.deprecated {
            return true;
        }
        let mut i: usize = 0;
        while i < self.tags.len()
            invariant
                i <= self.tags.len(),
                forall|k: int| 0 <= k < i ==> self.tags@[k] != ItemTag::Deprecated,
            decreases self.tags.len() - i,
        {
            match self.tags[i] {
                ItemTag::Deprecated => {
                    return true;
                },
                ItemTag::Unknown => {},
            }
            i += 1;
        }
        false
    }

    /// The text the item is matched by: its override, else its label.
    pub open spec fn match_text(&self) -> Seq<char> {
        match self.filter_text {
            Some(t) => t@,
            None => self.label@,
        }
    }

    /// The text that goes into the buffer when the item is accepted.
    pub open spec fn new_text(&self) -> Seq<char> {
        match self.edit {
            EditDescription::Structured { new_text, .. } => new_text@,
            EditDescription::PlainText { insert_text: Some(t) } => t@,
            EditDescription::PlainText { insert_text: None } => self.label@,
        }
    }

    /// Whether the new text is a snippet: by the format flag or by kind.
    pub open spec fn is_snippet(&self) -> bool {
        self.snippet_format || self.kind == Some(ItemKind::Snippet)
    }
}

impl Candidate {
    /// The text shown in the list.
    pub open spec fn label_text(&self) -> Seq<char> {
        match self {
            Candidate::Protocol(p) => p.item.label@,
            Candidate::Local(l) => l.label@,
        }
    }

    /// The text the candidate is matched and ordered by.
    pub open spec fn match_text(&self) -> Seq<char> {
        match self {
            Candidate::Protocol(p) => p.item.match_text(),
            Candidate::Local(l) => l.label@,
        }
    }

    /// Whether the provider asked for the candidate to be selected first.
    pub open spec fn is_preselected(&self) -> bool {
        match self {
            Candidate::Protocol(p) => p.item.preselect,
            Candidate::Local(_) => false,
        }
    }

    /// Whether the candidate is drawn as deprecated.
    pub open spec fn is_deprecated(&self) -> bool {
        match self {
            Candidate::Protocol(p) => p.item.is_deprecated(),
            Candidate::Local(_) => false,
        }
    }

    /// The word in the second cell of the candidate's row.
    pub open spec fn kind_text(&self) -> Seq<char> {
        match self {
            Candidate::Protocol(p) => kind_word(p.item.kind),
            Candidate::Local(l) => l.kind@,
        }
    }

    /// How the label is drawn: crossed out when deprecated, as a directory
    /// when the kind is a folder.
    pub open spec fn label_style(&self) -> LabelStyle {
        if self.is_deprecated() {
            LabelStyle::CrossedOut
        } else if self.kind_text() == "folder"@ {
            LabelStyle::Directory
        } else {
            LabelStyle::Plain
        }
    }

    /// The text shown in the list.
    pub fn label(&self) -> (out: &str)
        ensures
            out@ == self.label_text(),
    {
        match self {
            Candidate::Protocol(p) => p.item.label.as_str(),
            Candidate::Local(l) => l.label.as_str(),
        }
    }

    /// The text the candidate is matched by.
    pub fn filter_text(&self) -> (out: &str)
        ensures
            out@ == self.match_text(),
    {
        match self {
            Candidate::Protocol(p) => match &p.item.filter_text {
                Some(t) => t.as_str(),
                None => p.item.label.as_str(),
            },
            Candidate::Local(l) => l.label.as_str(),
        }
    }

    /// The text the candidate is ordered by: the one it is matched by.
    pub fn sort_text(&self) -> (out: &str)
        ensures
            out@ == self.match_text(),
    {
        self.filter_text()
    }

    /// Whether the provider asked for the candidate to be selected first.
    pub fn preselect(&self) -> (out: bool)
        ensures
            out == self.is_preselected(),
    {
        match self {
            Candidate::Protocol(p) => p.item.preselect,
            Candidate::Local(_) => false,
        }
    }

    /// The candidate's row in the list.
    pub fn format(&self) -> (out: Row<'_>)
        ensures
            out.label@ == self.label_text(),
            out.style == self.label_style(),
            match self {
                Candidate::Protocol(p) if p.item.kind == Some(ItemKind::Color) => {
                    &&& out.kind is Color
                    &&& match (p.item.documentation, out.kind->sample) {
                        (Some(d), Some(s)) => s@ == d.text(),
                        (None, None) => true,
                        _ => false,
                    }
                },
                _ => out.kind is Name && out.kind->0@ == self.kind_text(),
            },
    {
        let label = self.label();
        match self {
            Candidate::Protocol(p) => {
                let deprecated = p.item.deprecated();
                let word = kind_name(p.item.kind);
                let style = if deprecated {
                    LabelStyle::CrossedOut
                } else if is_folder(word) {
                    LabelStyle::Directory
                } else {
                    LabelStyle::Plain
                };
                let kind = match p.item.kind {
                    Some(ItemKind::Color) => {
                        let sample = match &p.item.documentation {
                            Some(d) => Some(d.as_str()),
                            None => None,
                        };
                        KindCell::Color { sample }
                    },
                    _ => KindCell::Name(word),
                };
                Row { label, style, kind }
            },
            Candidate::Local(l) => {
                let word = l.kind.as_str();
                let style = if is_folder(word) {
                    LabelStyle::Directory
                } else {
                    LabelStyle::Plain
                };
                Row { label, style, kind: KindCell::Name(word) }
            },
        }
    }
}

/// Whether `word` is the word for folders.
pub fn is_folder(word: &str) -> (out: bool)
    ensures
        out == (word@ == "folder"@),
{
    proof {
        reveal_strlit("folder");
    }
    if word.unicode_len() != 6 {
        return false;
    }
    let out = word.get_char(0) == 'f' && word.get_char(1) == 'o' && word.get_char(2) == 'l'
        && word.get_char(3) == 'd' && word.get_char(4) == 'e' && word.get_char(5) == 'r';
    proof {
        if out {
            assert(word@ =~= "folder"@);
        }
    }
    out
}

} // verus!
