use vstd::prelude::*;
use crate::state::{Mode, VisualMode};

verus! {

/// What an operator does to the text a motion or text object covers;
/// `Move` does nothing to it and only moves the cursor.
#[derive(Debug, Clone, Copy, PartialEq, Eq, Structural)]
pub enum Operator {
    Move,
    Delete,
    Yank,
    Change,
    Indent,
    Outdent,
    ToLower,
    ToUpper,
    SwapCase,
}

/// Where a motion takes the cursor.
#[derive(Debug, Clone, Copy, PartialEq, Eq, Structural)]
pub enum Motion {
    Left,
    Right,
    Up,
    Down,
    WordForward,
    WordForwardBlank,
    WordBackward,
    WordBackwardBlank,
    WordForwardEnd,
    WordForwardEndBlank,
    WordBackwardEnd,
    WordBackwardEndBlank,
    WordBack,
    LineStart,
    LineEnd,
    LineFirstChar,
    LineLastChar,
    LineMiddle,
    BufferStart,
    BufferEnd,
    BufferByteOffset,
    SentenceForward,
    SentenceBackward,
    ParagraphForward,
    ParagraphBackward,
    SectionForward,
    SectionBackward,
    SectionEndForward,
    SectionEndBackward,
    ParenForward,
    ParenBackward,
    BraceForward,
    BraceBackward,
    DiagnosticForward,
    DiagnosticBackward,
    PrevChange,
    NextChange,
    WindowTop,
    WindowMiddle,
    WindowBottom,
}

/// The text objects that `i` and `a` select.
#[derive(Debug, Clone, Copy, PartialEq, Eq, Structural)]
pub enum TextObject {
    Word,
    BigWord,
    Paren,
    Bracket,
    Brace,
    AngleBracket,
    Quote,
    DoubleQuote,
    Backtick,
    Sentence,
    Paragraph,
}

/// The mouse button of a mouse report.
#[derive(Debug, Clone, Copy, PartialEq, Eq, Structural)]
pub enum MouseButton {
    Left,
    Middle,
    Right,
    WheelUp,
    WheelDown,
    NoButton,
}

/// What the mouse did.
#[derive(Debug, Clone, Copy, PartialEq, Eq, Structural)]
pub enum MouseAction {
    Press,
    Release,
    Drag,
}

/// What a key asks the editor to do.
#[derive(Debug, Clone, Copy, PartialEq, Eq)]
pub enum Request {
    SetMode(Mode),
    SetVisualMode(VisualMode),
    InsertChar(char),
    ReplaceChar(char),
    ReplaceCharUnderCursor(char),
    PlayMacro(char),
    StartMacroRecord(char),
    StopMacroRecord,
    OpMotion { op: Operator, motion: Motion, count: u32 },
    OpTextObject { op: Operator, inner: bool, obj: TextObject, count: u32 },
    OpVisualSelection(Operator),
    DeleteCurrentLine { count: u32 },
    YankCurrentLine { count: u32 },
    DeleteCharAtCursor { count: u32 },
    Indent { forward: bool },
    FindChar { forward: bool, char: char, is_till: bool },
    RepeatLastCharSearch { count: u32 },
    RepeatLastChange { count: u32 },
    SplitWindow { vertical: bool },
    NextWindow,
    PrevWindow,
    ExecuteCommandFromConfig(&'static str),
    SetMark(char),
    JumpToMark(char),
    JumpToPair,
    JumpBack,
    JumpForward,
    RestoreVisualSelection,
    LspDefinition,
    LspHover,
    InsertAtFirstColumn,
    InsertAtLastInsert,
    SearchWordUnderCursor { forward: bool, whole_word: bool },
    SelectSearchMatch { forward: bool },
    SearchNext { forward: bool, count: u32 },
    CenterCursor,
    CursorToTop,
    CursorToBottom,
    CursorToTopWithCR,
    CursorToCenterWithDot,
    CursorToBottomWithMinus,
    CursorMove { row: usize, col: usize },
    Scroll { lines: i32 },
    Redraw,
    AlternateFile,
    Paste,
    PasteBefore,
    Backspace,
    SwitchCase,
    OpenLine { below: bool },
    Undo,
    Redo,
    IncrementNumber { offset: i32 },
    BlockInsert { append: bool },
    NewLine,
    InsertModeDeleteWord,
    InsertModeDeleteLine,
    InsertCopyFromLine { offset: i32 },
    TriggerCompletion { forward: bool },
    SelectPumNext,
    SelectPumPrev,
    CommitCompletion,
    CmdLineChar(char),
    CmdLineBackspace,
    CmdLineDeleteWord,
    CmdLineDeleteLine,
    CmdLineMoveCursorTo { pos: usize },
    CmdLineHistory { forward: bool },
    CmdLineTab,
    ExecuteCommand,
    ExecuteSearch,
    MouseEvent { button: MouseButton, action: MouseAction, row: usize, col: usize },
    OpenFloatWin { buf_id: i32, row: usize, col: usize, width: usize, height: usize },
    Resize { width: usize, height: usize },
    HidePum,
}

} // verus!
