//! Document-aware key bindings of the raw editor in Insert mode, and the
//! window title.

use vstd::prelude::*;
use crate::editor::Editor;
use crate::text::from_chars;
use crate::vim_edit::concat_chars;

verus! {

/// The keys that Insert mode binds specially; every other key is `Other`.
#[derive(Debug, Clone, Copy, PartialEq, Eq, Structural)]
pub enum EditKey {
    Escape,
    Enter,
    Backspace,
    Delete,
    ArrowUp,
    ArrowDown,
    PageUp,
    PageDown,
    Home,
    End,
    Other,
}

/// What a key press in Insert mode does.
#[derive(Debug, Clone, Copy, PartialEq, Eq, Structural)]
pub enum InsertBinding {
    /// Leave Insert mode (the Vim Esc key).
    Escape,
    /// Split the standalone line at the cursor.
    SplitLine,
    /// Merge the region's first line into the line above.
    MergeWithPrevious,
    /// Merge the line below into the region's last line.
    MergeWithNext,
    /// Move the active line up.
    MoveUp,
    /// Move the active line down.
    MoveDown,
    /// Move the active line up a page.
    PageUp,
    /// Move the active line down a page.
    PageDown,
    /// Jump to the start of the document.
    JumpToStart,
    /// Jump to the end of the document.
    JumpToEnd,
    /// The raw editor's own binding for the key.
    Default,
}

/// Where the cursor stands, as the Insert-mode bindings need it.
#[derive(Debug, Clone, Copy, PartialEq, Eq, Structural)]
pub struct BindingContext {
    /// The raw region spans more than one line (i.e. an entire table).
    pub multiline: bool,
    /// The cursor is on the region's first line.
    pub at_editor_top: bool,
    /// The cursor is on the region's last line.
    pub at_editor_bottom: bool,
    /// The cursor is at column 0.
    pub at_line_start: bool,
    /// The cursor is at the end of its line.
    pub at_line_end: bool,
    /// The region starts at the first line of the document.
    pub at_doc_first: bool,
    /// The region ends at the last line of the document.
    pub at_doc_last: bool,
}

/// The Insert-mode binding of `key` (`command`: the platform's command
/// modifier is held) in the cursor context `ctx`: Esc leaves Insert mode,
/// Enter splits a standalone line, Backspace/Delete at the region's edges
/// merge lines, arrows leave the region at its edges, PgUp/PgDn page
/// (jump with the modifier), modified Home/End jump; anything else is the
/// raw editor's own binding.
pub open spec fn insert_binding_spec(key: EditKey, command: bool, ctx: BindingContext) -> InsertBinding {
    match key {
        EditKey::Escape => InsertBinding::Escape,
        EditKey::Enter => if !ctx.multiline {
            InsertBinding::SplitLine
        } else {
            InsertBinding::Default
        },
        EditKey::Backspace => if ctx.at_editor_top && ctx.at_line_start && !ctx.at_doc_first {
            InsertBinding::MergeWithPrevious
        } else {
            InsertBinding::Default
        },
        EditKey::Delete => if ctx.at_editor_bottom && ctx.at_line_end && !ctx.at_doc_last {
            InsertBinding::MergeWithNext
        } else {
            InsertBinding::Default
        },
        EditKey::ArrowUp => if ctx.at_editor_top && !ctx.at_doc_first {
            InsertBinding::MoveUp
        } else {
            InsertBinding::Default
        },
        EditKey::ArrowDown => if ctx.at_editor_bottom && !ctx.at_doc_last {
            InsertBinding::MoveDown
        } else {
            InsertBinding::Default
        },
        EditKey::PageUp => if command {
            InsertBinding::JumpToStart
        } else {
            InsertBinding::PageUp
        },
        EditKey::PageDown => if command {
            InsertBinding::JumpToEnd
        } else {
            InsertBinding::PageDown
        },
        EditKey::Home => if command {
            InsertBinding::JumpToStart
        } else {
            InsertBinding::Default
        },
        EditKey::End => if command {
            InsertBinding::JumpToEnd
        } else {
            InsertBinding::Default
        },
        EditKey::Other => InsertBinding::Default,
    }
}

/// The Insert-mode binding of a key press.
pub fn insert_line_binding(key: EditKey, command: bool, ctx: BindingContext) -> (r: InsertBinding)
    ensures
        r == insert_binding_spec(key, command, ctx),
{
    match key {
        EditKey::Escape => InsertBinding::Escape,
        EditKey::Enter => if !ctx.multiline {
            InsertBinding::SplitLine
        } else {
            InsertBinding::Default
        },
        EditKey::Backspace => if ctx.at_editor_top && ctx.at_line_start && !ctx.at_doc_first {
            InsertBinding::MergeWithPrevious
        } else {
            InsertBinding::Default
        },
        EditKey::Delete => if ctx.at_editor_bottom && ctx.at_line_end && !ctx.at_doc_last {
            InsertBinding::MergeWithNext
        } else {
            InsertBinding::Default
        },
        EditKey::ArrowUp => if ctx.at_editor_top && !ctx.at_doc_first {
            InsertBinding::MoveUp
        } else {
            InsertBinding::Default
        },
        EditKey::ArrowDown => if ctx.at_editor_bottom && !ctx.at_doc_last {
            InsertBinding::MoveDown
        } else {
            InsertBinding::Default
        },
        EditKey::PageUp => if command {
            InsertBinding::JumpToStart
        } else {
            InsertBinding::PageUp
        },
        EditKey::PageDown => if command {
            InsertBinding::JumpToEnd
        } else {
            InsertBinding::PageDown
        },
        EditKey::Home => if command {
            InsertBinding::JumpToStart
        } else {
            InsertBinding::Default
        },
        EditKey::End => if command {
            InsertBinding::JumpToEnd
        } else {
            InsertBinding::Default
        },
        EditKey::Other => InsertBinding::Default,
    }
}

impl Editor {
    /// The cursor context of the raw region, for the Insert-mode bindings.
    pub fn binding_context(&self) -> (r: BindingContext)
        requires
            self.wf(),
        ensures
            r.multiline == (self.active_end - self.active_start > 1),
            r.at_editor_top == (self.cursor_line == 0),
            r.at_editor_bottom == (self.cursor_line + 1 >= self.active_end - self.active_start),
            r.at_line_start == (self.cursor_col == 0),
            r.at_line_end == (self.cursor_col >= self.doc()[self.cursor_row()].len()),
            r.at_doc_first == (self.active_start == 0),
            r.at_doc_last == (self.active_end >= self.doc().len()),
    {
        let size = self.active_end - self.active_start;
        let row = self.active_start + self.cursor_line;
        BindingContext {
            multiline: size > 1,
            at_editor_top: self.cursor_line == 0,
            at_editor_bottom: self.cursor_line + 1 >= size,
            at_line_start: self.cursor_col == 0,
            at_line_end: self.cursor_col >= self.lines[row].len(),
            at_doc_first: self.active_start == 0,
            at_doc_last: self.active_end >= self.lines.len(),
        }
    }
}

/// The window title: the file's name (`Untitled` without one), ` *` when
/// the document has unsaved changes, then the application's name.
pub fn window_title(file_name: Option<&str>, dirty: bool) -> (r: String)
    ensures
        r@ == (match file_name {
            Some(n) => n@,
            None => "Untitled"@,
        }) + (if dirty {
            " *"@
        } else {
            ""@
        }) + " \u{2014} Markdown Editor"@,
{
    let name = match file_name {
        Some(n) => crate::text::to_chars(n),
        None => crate::text::to_chars("Untitled"),
    };
    let mark = if dirty {
        crate::text::to_chars(" *")
    } else {
        crate::text::to_chars("")
    };
    let tail = crate::text::to_chars(" \u{2014} Markdown Editor");
    let first = concat_chars(name.as_slice(), mark.as_slice());
    let all = concat_chars(first.as_slice(), tail.as_slice());
    from_chars(all.as_slice())
}

} // verus!
