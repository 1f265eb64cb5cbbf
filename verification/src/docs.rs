//! The text of the panel that shows a candidate's details.

use crate::item::Candidate;
use vstd::prelude::*;
use vstd::string::StringExecFns;

verus! {

/// `detail` as a fenced block of code in `language`.
pub open spec fn fenced(language: Seq<char>, detail: Seq<char>) -> Seq<char> {
    "```"@ + language + "\n"@ + detail + "\n```"@
}

/// The panel's text: the detail as a block of code, then the
/// documentation, each where there is one.
pub open spec fn markdown_of(
    language: Seq<char>,
    detail: Option<Seq<char>>,
    documentation: Option<Seq<char>>,
) -> Seq<char> {
    match (detail, documentation) {
        (Some(d), Some(text)) => fenced(language, d) + "\n"@ + text,
        (Some(d), None) => fenced(language, d),
        (None, Some(text)) => text,
        (None, None) => Seq::empty(),
    }
}

/// The panel's text; see [`markdown_of`].
pub fn markdowned(language: &str, detail: Option<&str>, documentation: Option<&str>) -> (out: String)
    ensures
        out@ == markdown_of(
            language@,
            match detail {
                Some(d) => Some(d@),
                None => None,
            },
            match documentation {
                Some(d) => Some(d@),
                None => None,
            },
        ),
{
    let mut out = String::new();
    match detail {
        Some(d) => {
            out.append("```");
            out.append(language);
            out.append("\n");
            out.append(d);
            out.append("\n```");
            assert(out@ =~= fenced(language@, d@));
            match documentation {
                Some(text) => {
                    out.append("\n");
                    out.append(text);
                    assert(out@ =~= fenced(language@, d@) + "\n"@ + text@);
                },
                None => {},
            }
        },
        None => {
            match documentation {
                Some(text) => {
                    out.append(text);
                    assert(out@ =~= text@);
                },
                None => {},
            }
        },
    }
    out
}

impl Candidate {
    /// The text of the candidate's panel, in a buffer of `language`; `None`
    /// where a protocol item has neither documentation nor detail.
    pub open spec fn panel_text(&self, language: Seq<char>) -> Option<Seq<char>> {
        match self {
            Candidate::Protocol(p) => match (p.item.documentation, p.item.detail) {
                (Some(d), Some(detail)) => Some(markdown_of(language, Some(detail@), Some(d.text()))),
                (Some(d), None) => Some(markdown_of(language, None, Some(d.text()))),
                (None, Some(detail)) => Some(markdown_of(language, Some(detail@), None)),
                (None, None) => None,
            },
            Candidate::Local(l) => Some(markdown_of(language, None, Some(l.documentation@))),
        }
    }

    /// The text of the candidate's panel; see [`Candidate::panel_text`].
    pub fn documentation_markdown(&self, language: &str) -> (out: Option<String>)
        ensures
            match (out, self.panel_text(language@)) {
                (Some(s), Some(t)) => s@ == t,
                (None, None) => true,
                _ => false,
            },
    {
        match self {
            Candidate::Protocol(p) => {
                let detail = match &p.item.detail {
                    Some(d) => Some(d.as_str()),
                    None => None,
                };
                match &p.item.documentation {
                    Some(d) => Some(markdowned(language, detail, Some(d.as_str()))),
                    None => match detail {
                        Some(_) => Some(markdowned(language, detail, None)),
                        None => None,
                    },
                }
            },
            Candidate::Local(l) => Some(markdowned(language, None, Some(l.documentation.as_str()))),
        }
    }
}

} // verus!
