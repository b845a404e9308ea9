//! Markdown formatting actions of the toolbar.

use vstd::prelude::*;

verus! {

/// Markdown formatting actions that can be applied to selected text.
#[derive(Debug, Clone, Copy, PartialEq, Eq, Structural)]
pub enum FormatAction {
    /// Wrap selection with `**` for bold.
    Bold,
    /// Wrap selection with `*` for italic.
    Italic,
    /// Wrap selection with `` ` `` for inline code.
    InlineCode,
    /// Prefix line with `# ` for heading.
    Heading,
    /// Prefix line with `- ` for a bullet list item.
    BulletList,
    /// Prefix line with `1. ` for a numbered list item.
    NumberedList,
    /// Prefix line with `> ` for a blockquote.
    Quote,
    /// Insert a horizontal rule `---`.
    HorizontalRule,
    /// Insert a link template `[text](url)`.
    Link,
}

/// The text an action produces for the selection `sel`.
pub open spec fn apply_spec(action: FormatAction, sel: Seq<char>) -> Seq<char> {
    match action {
        FormatAction::Bold => "**"@ + sel + "**"@,
        FormatAction::Italic => "*"@ + sel + "*"@,
        FormatAction::InlineCode => "`"@ + sel + "`"@,
        FormatAction::Heading => "# "@ + sel,
        FormatAction::BulletList => "- "@ + sel,
        FormatAction::NumberedList => "1. "@ + sel,
        FormatAction::Quote => "> "@ + sel,
        FormatAction::HorizontalRule => "\n---\n"@,
        FormatAction::Link => "["@ + sel + "](url)"@,
    }
}

/// `a` followed by `b` and `c`.
fn concat3(a: &str, b: &str, c: &str) -> (r: String)
    ensures
        r@ == a@ + b@ + c@,
{
    let mut out = String::from_str(a);
    out.append(b);
    out.append(c);
    out
}

impl FormatAction {
    /// Return the prefix/suffix pair for wrapping, or the text to insert.
    pub fn apply(&self, selected_text: &str) -> (r: String)
        ensures
            r@ == apply_spec(*self, selected_text@),
    {
        match self {
            FormatAction::Bold => concat3("**", selected_text, "**"),
            FormatAction::Italic => concat3("*", selected_text, "*"),
            FormatAction::InlineCode => concat3("`", selected_text, "`"),
            FormatAction::Heading => {
                let r = concat3("# ", selected_text, "");
                assert(r@ =~= "# "@ + selected_text@) by {
                    reveal_strlit("");
                }
                r
            },
            FormatAction::BulletList => {
                let r = concat3("- ", selected_text, "");
                assert(r@ =~= "- "@ + selected_text@) by {
                    reveal_strlit("");
                }
                r
            },
            FormatAction::NumberedList => {
                let r = concat3("1. ", selected_text, "");
                assert(r@ =~= "1. "@ + selected_text@) by {
                    reveal_strlit("");
                }
                r
            },
            FormatAction::Quote => {
                let r = concat3("> ", selected_text, "");
                assert(r@ =~= "> "@ + selected_text@) by {
                    reveal_strlit("");
                }
                r
            },
            FormatAction::HorizontalRule => String::from_str("\n---\n"),
            FormatAction::Link => concat3("[", selected_text, "](url)"),
        }
    }
}

} // verus!
