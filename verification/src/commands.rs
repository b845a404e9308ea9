//! The editor's state transitions as one step function: each request of the
//! user interface (a click, a navigation key, an edit of the raw region, a
//! file operation, a Vim key) and what the interface has to do afterwards.

use vstd::prelude::*;
use crate::editor::{fit_vim, leave_visual, loading, merge_previous_post, min_int, split_post, Editor, PAGE_LINES};
use crate::text::{join_spec, split_seq};
use crate::vim::{Key, VimOutcome};
use crate::vim_keys::handle_post;

verus! {

/// A request to the editor.
#[derive(Debug, Clone)]
pub enum Command {
    /// Make the line at the given index the active (editable) one.
    Activate(usize),
    /// Split the active line at the cursor (Enter on a standalone line).
    SplitLine,
    /// Merge the active region into the previous line.
    MergeWithPrevious,
    /// Merge the next line into the active region.
    MergeWithNext,
    /// Move the active line up.
    MoveUp,
    /// Move the active line down.
    MoveDown,
    /// Move the active line up a page.
    PageUp,
    /// Move the active line down a page.
    PageDown,
    /// Jump to the start of the document.
    JumpToStart,
    /// Jump to the end of the document.
    JumpToEnd,
    /// The raw editor acted: whether it edited, its text (used for an edit),
    /// and its cursor (line in the region, byte column).
    Edit(bool, String, usize, usize),
    /// Start a new, empty document.
    NewFile,
    /// Start opening a file.
    Open,
    /// A file was opened with these contents, or opening failed (`None`).
    Opened(Option<String>),
    /// Start saving the document.
    Save,
    /// The save finished, successfully or not.
    Saved(bool),
    /// A key for the Vim engine.
    Key(Key),
}

/// What the user interface has to do after a request.
#[derive(Debug, Clone)]
pub struct Reply {
    /// Show the open-file dialog.
    pub open_dialog: bool,
    /// Write out this text (the document).
    pub save: Option<String>,
    /// Close the window.
    pub quit: bool,
    /// Give the raw editor keyboard focus.
    pub focus: bool,
    /// A new document replaced the old one.
    pub new_document: bool,
}

/// The reply with the given fields.
pub open spec fn reply_is(r: Reply, open_dialog: bool, save: Option<String>, quit: bool, focus: bool, new_document: bool) -> bool {
    &&& r.open_dialog == open_dialog
    &&& r.save == save
    &&& r.quit == quit
    &&& r.focus == focus
    &&& r.new_document == new_document
}

/// The reply that asks for nothing.
pub open spec fn quiet(r: Reply) -> bool {
    reply_is(r, false, None, false, false, false)
}

/// Loading state, pending quit, Vim state and history are as in `o`.
pub open spec fn keeps_rest(o: Editor, n: Editor) -> bool {
    &&& n.is_loading == o.is_loading
    &&& n.pending_quit == o.pending_quit
    &&& n.vim == o.vim
    &&& n.undo_stack == o.undo_stack
    &&& n.redo_stack == o.redo_stack
}

/// Loading state, pending quit and history are as in `o`, and the Vim state
/// is `o`'s with the Visual selection kept on `n`'s document.
pub open spec fn keeps_rest_fitted(o: Editor, n: Editor) -> bool {
    &&& n.is_loading == o.is_loading
    &&& n.pending_quit == o.pending_quit
    &&& n.vim == fit_vim(o.vim, n.doc().len() as int)
    &&& n.undo_stack == o.undo_stack
    &&& n.redo_stack == o.redo_stack
}

/// Loading state, pending quit and history are as in `o`, and the Vim state
/// is `o`'s for a replaced document (no Visual selection).
pub open spec fn keeps_rest_replaced(o: Editor, n: Editor) -> bool {
    &&& n.is_loading == o.is_loading
    &&& n.pending_quit == o.pending_quit
    &&& n.vim == leave_visual(o.vim)
    &&& n.undo_stack == o.undo_stack
    &&& n.redo_stack == o.redo_stack
}

/// Everything but the loading state is as in `o`.
pub open spec fn only_loading_changed(o: Editor, n: Editor) -> bool {
    &&& n.doc() == o.doc()
    &&& n.active_start == o.active_start
    &&& n.active_end == o.active_end
    &&& n.cursor_line == o.cursor_line
    &&& n.cursor_col == o.cursor_col
    &&& n.selection == o.selection
    &&& n.is_dirty == o.is_dirty
    &&& n.pending_quit == o.pending_quit
    &&& n.vim == o.vim
    &&& n.undo_stack == o.undo_stack
    &&& n.redo_stack == o.redo_stack
}

/// The document, region, cursor and selection are as in `o`.
pub open spec fn same_place(o: Editor, n: Editor) -> bool {
    &&& n.doc() == o.doc()
    &&& n.active_start == o.active_start
    &&& n.active_end == o.active_end
    &&& n.cursor_line == o.cursor_line
    &&& n.cursor_col == o.cursor_col
    &&& n.selection == o.selection
}

/// `n` is `o` after the raw editor acted with `text` and cursor `(line,
/// byte)`, editing when `is_edit`.
pub open spec fn edit_post(o: Editor, is_edit: bool, text: Seq<char>, line: int, byte: int, n: Editor) -> bool {
    let parts = split_seq(text, '\n');
    let d = o.doc();
    let d2 = if is_edit {
        d.subrange(0, o.active_start as int) + parts + d.subrange(o.active_end as int, d.len() as int)
    } else {
        d
    };
    let end2 = if is_edit {
        o.active_start + parts.len()
    } else {
        o.active_end as int
    };
    let l2 = min_int(line, end2 - o.active_start - 1);
    &&& n.doc() == d2
    &&& n.active_start == o.active_start
    &&& n.active_end == end2
    &&& n.cursor_line == l2
    &&& n.cursor_col == Editor::snap_col(d2[o.active_start + l2], byte)
    &&& n.selection is None
    &&& n.is_dirty == (o.is_dirty || is_edit)
    &&& keeps_rest_fitted(o, n)
}

/// `n` is `o` with the active line moved to `target`, keeping the byte
/// column of the cursor.
pub open spec fn moved_to(o: Editor, target: int, n: Editor) -> bool {
    n.activated(o.doc(), target, Editor::snap_col(o.doc()[target], o.cursor_byte()))
}

/// `n` and `reply` are what request `cmd` gives from `o`.
pub open spec fn command_post(o: Editor, cmd: Command, n: Editor, reply: Reply) -> bool {
    let d = o.doc();
    let a = o.active_start as int;
    let b = o.active_end as int;
    match cmd {
        Command::Activate(index) => {
            &&& n.same_state(&o)
            &&& if index < d.len() && (index < a || index >= b) {
                n.activated(d, index as int, 0)
            } else {
                n == o
            }
            &&& reply_is(reply, false, None, false, true, false)
        },
        Command::SplitLine => {
            &&& if b == a + 1 {
                split_post(o, n) && n.is_dirty && keeps_rest(o, n)
            } else {
                n == o
            }
            &&& quiet(reply)
        },
        Command::MergeWithPrevious => {
            &&& if a == 0 {
                n == o
            } else {
                merge_previous_post(o, n) && keeps_rest_fitted(o, n)
            }
            &&& quiet(reply)
        },
        Command::MergeWithNext => {
            &&& if b >= d.len() {
                n == o
            } else {
                let p = b - 1;
                let d2 = d.update(p, d[p] + d[p + 1]).remove(p + 1);
                &&& n.activated(d2, p, d[p].len() as int)
                &&& n.is_dirty
                &&& keeps_rest_fitted(o, n)
            }
            &&& quiet(reply)
        },
        Command::MoveUp => {
            &&& n.same_state(&o)
            &&& if a == 0 {
                n == o
            } else {
                moved_to(o, a - 1, n)
            }
            &&& quiet(reply)
        },
        Command::MoveDown => {
            &&& n.same_state(&o)
            &&& if b >= d.len() {
                n == o
            } else {
                moved_to(o, b, n)
            }
            &&& quiet(reply)
        },
        Command::PageUp => {
            &&& n.same_state(&o)
            &&& if a == 0 {
                n == o
            } else {
                moved_to(o, if a >= PAGE_LINES { a - PAGE_LINES } else { 0 }, n)
            }
            &&& quiet(reply)
        },
        Command::PageDown => {
            &&& n.same_state(&o)
            &&& if b >= d.len() {
                n == o
            } else {
                moved_to(o, min_int(a + PAGE_LINES, d.len() - 1), n)
            }
            &&& quiet(reply)
        },
        Command::JumpToStart => {
            &&& n.same_state(&o)
            &&& n.activated(d, 0, 0)
            &&& quiet(reply)
        },
        Command::JumpToEnd => {
            &&& n.same_state(&o)
            &&& n.activated(d, d.len() - 1, d[d.len() - 1].len() as int)
            &&& quiet(reply)
        },
        Command::Edit(is_edit, text, line, byte) => {
            &&& edit_post(o, is_edit, text@, line as int, byte as int, n)
            &&& quiet(reply)
        },
        Command::NewFile => {
            let started = !o.is_loading;
            &&& started ==> n.activated(seq![Seq::<char>::empty()], 0, 0) && !n.is_dirty && keeps_rest_replaced(o, n)
            &&& !started ==> n == o
            &&& reply_is(reply, false, None, false, started, started)
        },
        Command::Open => {
            &&& n.is_loading
            &&& only_loading_changed(o, n)
            &&& reply_is(reply, !o.is_loading, None, false, false, false)
        },
        Command::Opened(contents) => {
            &&& !n.is_loading
            &&& !n.is_dirty
            &&& match contents {
                Some(c) => n.activated(split_seq(c@, '\n'), 0, 0),
                None => same_place(o, n),
            }
            &&& n.pending_quit == o.pending_quit
            &&& n.vim == if contents is Some {
                leave_visual(o.vim)
            } else {
                o.vim
            }
            &&& n.undo_stack == o.undo_stack
            &&& n.redo_stack == o.redo_stack
            &&& reply_is(reply, false, None, false, contents is Some, contents is Some)
        },
        Command::Save => {
            &&& !reply.open_dialog && !reply.quit && !reply.focus && !reply.new_document
            &&& match reply.save {
                None => o.is_loading && n == o,
                Some(t) => !o.is_loading && t@ == join_spec(d) && n == loading(o),
            }
        },
        Command::Saved(ok) => {
            &&& !n.is_loading
            &&& !n.pending_quit
            &&& n.is_dirty == (o.is_dirty && !ok)
            &&& same_place(o, n)
            &&& n.vim == o.vim
            &&& n.undo_stack == o.undo_stack
            &&& n.redo_stack == o.redo_stack
            &&& reply_is(reply, false, None, ok && o.pending_quit, false, false)
        },
        Command::Key(key) => {
            exists|out: VimOutcome|
                #![trigger handle_post(o, key, n, out)]
                handle_post(o, key, n, out) && reply_is(reply, false, out.save, out.quit, out.focus, out.new_document)
        },
    }
}

impl Reply {
    /// A reply that asks for nothing.
    fn nothing() -> (r: Reply)
        ensures
            quiet(r),
    {
        Reply { open_dialog: false, save: None, quit: false, focus: false, new_document: false }
    }
}

impl Editor {
    /// Carry out the request `cmd`, keeping the editor well-formed, and say
    /// what the user interface has to do next.
    pub fn handle_command(&mut self, cmd: Command) -> (reply: Reply)
        requires
            old(self).wf(),
        ensures
            final(self).wf(),
            command_post(*old(self), cmd, *final(self), reply),
    {
        match cmd {
            Command::Activate(index) => {
                self.activate(index);
                Reply { open_dialog: false, save: None, quit: false, focus: true, new_document: false }
            },
            Command::SplitLine => {
                if self.active_end == self.active_start + 1 {
                    self.split_line();
                }
                Reply::nothing()
            },
            Command::MergeWithPrevious => {
                self.merge_with_previous();
                Reply::nothing()
            },
            Command::MergeWithNext => {
                self.merge_with_next();
                Reply::nothing()
            },
            Command::MoveUp => {
                self.move_up();
                Reply::nothing()
            },
            Command::MoveDown => {
                self.move_down();
                Reply::nothing()
            },
            Command::PageUp => {
                self.page_up();
                Reply::nothing()
            },
            Command::PageDown => {
                self.page_down();
                Reply::nothing()
            },
            Command::JumpToStart => {
                self.jump_to_start();
                Reply::nothing()
            },
            Command::JumpToEnd => {
                self.jump_to_end();
                Reply::nothing()
            },
            Command::Edit(is_edit, text, line, byte) => {
                self.editor_action(is_edit, text.as_str(), line, byte);
                Reply::nothing()
            },
            Command::NewFile => {
                let started = self.new_file();
                Reply { open_dialog: false, save: None, quit: false, focus: started, new_document: started }
            },
            Command::Open => {
                let started = self.begin_open();
                Reply { open_dialog: started, save: None, quit: false, focus: false, new_document: false }
            },
            Command::Opened(contents) => {
                let loaded = match &contents {
                    Some(c) => {
                        self.file_opened(Some(c.as_str()));
                        true
                    },
                    None => {
                        self.file_opened(None);
                        false
                    },
                };
                Reply { open_dialog: false, save: None, quit: false, focus: loaded, new_document: loaded }
            },
            Command::Save => {
                let text = self.begin_save();
                Reply { open_dialog: false, save: text, quit: false, focus: false, new_document: false }
            },
            Command::Saved(ok) => {
                let quit = self.file_saved(ok);
                Reply { open_dialog: false, save: None, quit, focus: false, new_document: false }
            },
            Command::Key(key) => {
                let out = self.handle_vim_key(key);
                Reply { open_dialog: false, save: out.save, quit: out.quit, focus: out.focus, new_document: out.new_document }
            },
        }
    }
}

} // verus!
