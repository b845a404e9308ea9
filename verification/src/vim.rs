//! State of the Vim-style modal editing engine: modes, pending commands,
//! the register, the Visual selection, the command line and undo snapshots.
//! The engine itself ([`crate::editor::Editor::handle_vim_key`]) lives in
//! `vim_engine`.

use vstd::prelude::*;

verus! {

/// The active editing mode. Command-line and search entry are represented by
/// [`VimState::command`] being `Some`, with the underlying `mode` staying
/// `Normal`.
#[derive(Debug, Clone, Copy, PartialEq, Eq, Structural)]
pub enum Mode {
    /// Default mode: keys are commands, not text.
    Normal,
    /// Text typed into the buffer is inserted.
    Insert,
    /// A selection is being extended (char-wise or line-wise).
    Visual,
}

/// A pending operator awaiting a motion (or a doubled key for line-wise).
#[derive(Debug, Clone, Copy, PartialEq, Eq, Structural)]
pub enum Operator {
    /// `d` — delete the spanned text into the register.
    Delete,
    /// `c` — delete the spanned text and enter Insert mode.
    Change,
    /// `y` — copy the spanned text into the register.
    Yank,
}

/// A single cursor motion, in document space.
#[derive(Debug, Clone, Copy, PartialEq, Eq, Structural)]
pub enum Move {
    Left,
    Right,
    Up,
    Down,
    WordFwd,
    WordBack,
    WordEnd,
    LineStart,
    FirstNonBlank,
    LineEnd,
    DocStart,
    DocEnd,
}

/// The motion spans whole lines.
pub open spec fn linewise_spec(m: Move) -> bool {
    m is Up || m is Down || m is DocStart || m is DocEnd
}

impl Move {
    /// Whether the motion spans whole lines (affects operator semantics).
    pub fn linewise(self) -> (r: bool)
        ensures
            r == linewise_spec(self),
    {
        matches!(self, Move::Up | Move::Down | Move::DocStart | Move::DocEnd)
    }
}

/// The kind of command-line entry currently open.
#[derive(Debug, Clone, Copy, PartialEq, Eq, Structural)]
pub enum CmdKind {
    /// `:` — an Ex command.
    Ex,
    /// `/` — forward search.
    SearchForward,
    /// `?` — backward search.
    SearchBackward,
}

/// An open command-line, holding what the user has typed so far.
#[derive(Debug, Clone)]
pub struct CommandLine {
    pub kind: CmdKind,
    pub buffer: Vec<char>,
}

/// The unnamed register: text yanked or deleted, ready to paste.
#[derive(Debug, Clone)]
pub struct Register {
    /// The stored text (lines joined by `\n` when `linewise`).
    pub text: Vec<char>,
    /// Whether the text represents whole lines (`p` opens new lines).
    pub linewise: bool,
    /// Set once anything has been yanked/deleted.
    pub filled: bool,
}

/// State carried between key presses while resolving a multi-key command.
#[derive(Debug, Clone, Copy, PartialEq, Eq, Structural)]
pub struct Pending {
    /// Numeric count typed before/within a command (e.g. the `3` in `3w`).
    pub count: Option<usize>,
    /// Operator awaiting a motion.
    pub operator: Option<Operator>,
    /// Count typed before the operator (the `2` in `2dw`).
    pub op_count: Option<usize>,
    /// `g` was pressed; the next `g` completes `gg`.
    pub g: bool,
    /// `r` was pressed; the next char replaces the one under the cursor.
    pub replace: bool,
}

/// Nothing pending.
pub open spec fn pending_none() -> Pending {
    Pending { count: None, operator: None, op_count: None, g: false, replace: false }
}

impl Pending {
    /// Nothing pending.
    pub fn none() -> (r: Pending)
        ensures
            r == pending_none(),
    {
        Pending { count: None, operator: None, op_count: None, g: false, replace: false }
    }
}

/// An active Visual-mode selection.
#[derive(Debug, Clone, Copy)]
pub struct Visual {
    /// Fixed end of the selection, in document `(row, col)` char coords.
    pub anchor: (usize, usize),
    /// Moving end of the selection (the cursor).
    pub head: (usize, usize),
    /// Whether whole lines are selected (`V`) vs characters (`v`).
    pub linewise: bool,
}

/// A document snapshot for undo/redo.
#[derive(Debug, Clone)]
pub struct Snapshot {
    pub lines: Vec<Vec<char>>,
    pub row: usize,
    pub col: usize,
}

/// All Vim-related state attached to the editor.
#[derive(Debug, Clone)]
pub struct VimState {
    pub mode: Mode,
    pub pending: Pending,
    pub register: Register,
    pub visual: Option<Visual>,
    pub command: Option<CommandLine>,
    /// Last search `(forward, pattern)`, for `n` / `N`.
    pub last_search: Option<(bool, Vec<char>)>,
    /// Transient status/error line (e.g. `E486: Pattern not found`).
    pub status: Option<String>,
}

impl VimState {
    /// Create the initial state: Normal mode, nothing pending.
    pub fn new() -> (r: Self)
        ensures
            r.mode == Mode::Normal,
            r.pending == pending_none(),
            !r.register.filled,
            !r.register.linewise,
            r.register.text@.len() == 0,
            r.visual is None,
            r.command is None,
            r.last_search is None,
            r.status is None,
    {
        VimState {
            mode: Mode::Normal,
            pending: Pending::none(),
            register: Register { text: Vec::new(), linewise: false, filled: false },
            visual: None,
            command: None,
            last_search: None,
            status: None,
        }
    }
}

impl Default for VimState {
    /// The initial state, as [`VimState::new`] gives it.
    fn default() -> (r: Self)
        ensures
            r.mode == Mode::Normal,
            r.pending == pending_none(),
            !r.register.filled,
            !r.register.linewise,
            r.register.text@.len() == 0,
            r.visual is None,
            r.command is None,
            r.last_search is None,
            r.status is None,
    {
        Self::new()
    }
}

/// What the application does after the engine handled a key: write the
/// document out (`save` holds its text), close the window, and/or give the
/// raw editor keyboard focus (an edit mode was entered).
#[derive(Debug, Clone)]
pub struct VimOutcome {
    pub save: Option<String>,
    pub quit: bool,
    pub focus: bool,
    /// A new, empty document replaced the old one (`:e`).
    pub new_document: bool,
}

/// Nothing for the application to do.
pub open spec fn no_effect(out: VimOutcome) -> bool {
    out.save is None && !out.quit && !out.focus && !out.new_document
}

impl VimOutcome {
    /// Nothing for the application to do.
    pub fn none() -> (r: VimOutcome)
        ensures
            no_effect(r),
    {
        VimOutcome { save: None, quit: false, focus: false, new_document: false }
    }
}

/// A keyboard event reduced to what the Vim engine cares about. Characters are
/// already shift-resolved (so `Shift+;` arrives as `Char(':')`).
#[derive(Debug, Clone, Copy, PartialEq, Eq, Structural)]
pub enum Key {
    /// A printable character (shift applied).
    Char(char),
    /// Esc.
    Esc,
    /// Enter.
    Enter,
    /// Backspace.
    Backspace,
    /// Tab.
    Tab,
    /// Arrow left.
    Left,
    /// Arrow right.
    Right,
    /// Arrow up.
    Up,
    /// Arrow down.
    Down,
    /// A `Ctrl`-modified character (e.g. `Ctrl-r`).
    Ctrl(char),
}

} // verus!
