use vstd::prelude::*;
use crate::window::Cursor;
use crate::state::{Mode, VisualMode};
use crate::request::{Operator, Motion, TextObject, Request};

verus! {

/// What the key processor remembers between keys: the mode, a prefix key
/// that waits for its second key, an operator that waits for its motion,
/// the count typed so far and the register named by `"`.
#[derive(Debug, Clone, Copy, PartialEq, Eq, Structural)]
pub struct KeyState {
    pub mode: Mode,
    pub pending_key: Option<char>,
    pub pending_op: Option<Operator>,
    pub pending_count: Option<u32>,
    pub pending_register: Option<char>,
}

/// What a key may read of the editor: the cursor, the height of the
/// window, the visual anchor, whether a macro is being recorded or the
/// completion menu is open, the last `f`/`t` search, and the text of the
/// register that the key names.
#[derive(Debug, Clone)]
pub struct KeyContext {
    pub cursor: Cursor,
    pub window_height: usize,
    pub visual_anchor: Option<Cursor>,
    pub recording_macro: bool,
    pub completion_menu_open: bool,
    pub last_char_search: Option<Request>,
    pub register_text: Option<String>,
}

/// Something the editor does while a key is handled, before the key's
/// request: change the mode (the state already holds the new mode; this
/// carries out the rest of the change), handle a request and ignore its
/// error, set the visual anchor, set the cursor, or move the cursor one
/// column right of where it then stands.
#[derive(Debug, Clone, Copy, PartialEq, Eq)]
pub enum Step {
    SetMode(Mode),
    Apply(Request),
    SetVisualAnchor(Option<Cursor>),
    SetCursor(Cursor),
    MoveRightOfCursor,
}

/// The steps a key takes and the request it returns, if any.
pub struct KeyOutcome {
    pub steps: Vec<Step>,
    pub request: Option<Request>,
}

/// The value of a key's handling: the state after it, its steps and its
/// request.
pub struct KeyStep {
    pub state: KeyState,
    pub steps: Seq<Step>,
    pub request: Option<Request>,
}

pub open spec fn key_step(state: KeyState, steps: Seq<Step>, request: Option<Request>) -> KeyStep {
    KeyStep { state, steps, request }
}

/// A key that changes nothing but the state and makes no steps.
pub open spec fn just(state: KeyState, request: Option<Request>) -> KeyStep {
    key_step(state, Seq::empty(), request)
}

/// The text object that a key names after `i` or `a`.
pub open spec fn text_object_of(c: char) -> Option<TextObject> {
    if c == 'w' { Some(TextObject::Word) }
    else if c == 'W' { Some(TextObject::BigWord) }
    else if c == '(' || c == ')' || c == 'b' { Some(TextObject::Paren) }
    else if c == '[' || c == ']' { Some(TextObject::Bracket) }
    else if c == '{' || c == '}' || c == 'B' { Some(TextObject::Brace) }
    else if c == '<' || c == '>' { Some(TextObject::AngleBracket) }
    else if c == '\'' { Some(TextObject::Quote) }
    else if c == '"' { Some(TextObject::DoubleQuote) }
    else if c == '`' { Some(TextObject::Backtick) }
    else if c == 's' { Some(TextObject::Sentence) }
    else if c == 'p' { Some(TextObject::Paragraph) }
    else { None }
}

/// The motion that a key names after an operator.
pub open spec fn operator_motion(c: char) -> Option<Motion> {
    if c == 'w' { Some(Motion::WordForward) }
    else if c == 'W' { Some(Motion::WordForwardBlank) }
    else if c == 'b' { Some(Motion::WordBackward) }
    else if c == 'B' { Some(Motion::WordBackwardBlank) }
    else if c == 'e' { Some(Motion::WordForwardEnd) }
    else if c == 'E' { Some(Motion::WordForwardEndBlank) }
    else if c == '$' { Some(Motion::LineEnd) }
    else if c == '0' { Some(Motion::LineStart) }
    else { None }
}

/// The motions of single keys in visual mode.
pub open spec fn visual_motion(c: char) -> Option<Motion> {
    if c == '^' { Some(Motion::LineFirstChar) }
    else if c == 'G' { Some(Motion::BufferEnd) }
    else if c == '(' { Some(Motion::SentenceBackward) }
    else if c == ')' { Some(Motion::SentenceForward) }
    else if c == '{' { Some(Motion::ParagraphBackward) }
    else if c == '}' { Some(Motion::ParagraphForward) }
    else { operator_motion(c) }
}

/// The motions of single keys in normal mode that take the count.
pub open spec fn counted_motion(c: char) -> Option<Motion> {
    if c == 'j' { Some(Motion::Down) }
    else if c == 'k' { Some(Motion::Up) }
    else if c == 'h' { Some(Motion::Left) }
    else if c == 'l' { Some(Motion::Right) }
    else if c == '(' { Some(Motion::SentenceBackward) }
    else if c == ')' { Some(Motion::SentenceForward) }
    else if c == '{' { Some(Motion::ParagraphBackward) }
    else if c == '}' { Some(Motion::ParagraphForward) }
    else if c == 'G' { Some(Motion::BufferEnd) }
    else if c == 'H' { Some(Motion::WindowTop) }
    else if c == 'M' { Some(Motion::WindowMiddle) }
    else if c == 'L' { Some(Motion::WindowBottom) }
    else if c == '0' { None }
    else { operator_motion(c) }
}

/// The motions after `[` or `]`.
pub open spec fn bracket_motion(prefix: char, c: char) -> Option<Motion> {
    if prefix == '[' {
        if c == '[' { Some(Motion::SectionBackward) }
        else if c == ']' { Some(Motion::SectionEndBackward) }
        else if c == '(' { Some(Motion::ParenBackward) }
        else if c == '{' { Some(Motion::BraceBackward) }
        else if c == 'd' { Some(Motion::DiagnosticBackward) }
        else { None }
    } else if prefix == ']' {
        if c == ']' { Some(Motion::SectionForward) }
        else if c == '[' { Some(Motion::SectionEndForward) }
        else if c == ')' { Some(Motion::ParenForward) }
        else if c == '}' { Some(Motion::BraceForward) }
        else if c == 'd' { Some(Motion::DiagnosticForward) }
        else { None }
    } else {
        None
    }
}

/// The motions after `g`, which take the count.
pub open spec fn g_motion(c: char) -> Option<Motion> {
    if c == 'm' { Some(Motion::LineMiddle) }
    else if c == 'o' { Some(Motion::BufferByteOffset) }
    else if c == 'j' { Some(Motion::Down) }
    else if c == 'k' { Some(Motion::Up) }
    else if c == '0' { Some(Motion::LineStart) }
    else if c == '^' { Some(Motion::LineFirstChar) }
    else if c == '$' { Some(Motion::LineEnd) }
    else if c == 'g' { Some(Motion::BufferStart) }
    else if c == '_' { Some(Motion::LineLastChar) }
    else if c == 'e' { Some(Motion::WordBackwardEnd) }
    else if c == 'E' { Some(Motion::WordBackwardEndBlank) }
    else if c == ';' { Some(Motion::PrevChange) }
    else if c == ',' { Some(Motion::NextChange) }
    else { None }
}

/// The operators after `g`.
pub open spec fn g_operator(c: char) -> Option<Operator> {
    if c == 'u' { Some(Operator::ToLower) }
    else if c == 'U' { Some(Operator::ToUpper) }
    else if c == '~' { Some(Operator::SwapCase) }
    else { None }
}

/// The other requests after `g`.
pub open spec fn g_request(c: char) -> Option<Request> {
    if c == 'a' { Some(Request::ExecuteCommandFromConfig("ascii")) }
    else if c == '&' { Some(Request::ExecuteCommandFromConfig("%&")) }
    else if c == 'v' { Some(Request::RestoreVisualSelection) }
    else if c == 'd' { Some(Request::LspDefinition) }
    else if c == 'I' { Some(Request::InsertAtFirstColumn) }
    else if c == 'i' { Some(Request::InsertAtLastInsert) }
    else if c == 'J' { Some(Request::ExecuteCommandFromConfig("join!")) }
    else if c == '*' { Some(Request::SearchWordUnderCursor { forward: true, whole_word: false }) }
    else if c == '#' { Some(Request::SearchWordUnderCursor { forward: false, whole_word: false }) }
    else if c == 'n' { Some(Request::SelectSearchMatch { forward: true }) }
    else if c == 'N' { Some(Request::SelectSearchMatch { forward: false }) }
    else { None }
}

/// The requests after `z`.
pub open spec fn z_request(c: char) -> Option<Request> {
    if c == 'z' { Some(Request::CenterCursor) }
    else if c == 't' { Some(Request::CursorToTop) }
    else if c == 'b' { Some(Request::CursorToBottom) }
    else if c == '\r' || c == '\n' { Some(Request::CursorToTopWithCR) }
    else if c == '.' { Some(Request::CursorToCenterWithDot) }
    else if c == '-' { Some(Request::CursorToBottomWithMinus) }
    else { None }
}

/// The requests after `Z`.
pub open spec fn big_z_request(c: char) -> Option<Request> {
    if c == 'Z' { Some(Request::ExecuteCommandFromConfig("x")) }
    else if c == 'Q' { Some(Request::ExecuteCommandFromConfig("qa!")) }
    else { None }
}

/// The requests after `<C-W>`.
pub open spec fn window_request(c: char) -> Option<Request> {
    if c == 's' { Some(Request::SplitWindow { vertical: false }) }
    else if c == 'v' { Some(Request::SplitWindow { vertical: true }) }
    else if c == 'w' || c == 'j' { Some(Request::NextWindow) }
    else if c == 'W' || c == 'k' { Some(Request::PrevWindow) }
    else if c == 'h' { Some(Request::OpMotion { op: Operator::Move, motion: Motion::Left, count: 1 }) }
    else if c == 'l' { Some(Request::OpMotion { op: Operator::Move, motion: Motion::Right, count: 1 }) }
    else if c == 'q' || c == 'c' { Some(Request::ExecuteCommandFromConfig("close")) }
    else if c == 'o' { Some(Request::ExecuteCommandFromConfig("only")) }
    else { None }
}

/// The keys of normal mode that wait for a second key.
pub open spec fn is_prefix_key(c: char) -> bool {
    c == 'f' || c == 'F' || c == 't' || c == 'T' || c == 'g' || c == 'm' || c == '\''
        || c == '`' || c == '"' || c == '\x17' || c == 'z' || c == '[' || c == ']' || c == 'Z'
}

/// The `f`/`t` search that `,` repeats: the last one turned around.
pub open spec fn reversed_char_search(last: Option<Request>) -> Option<Request> {
    match last {
        Some(Request::FindChar { forward, char, is_till }) => Some(
            Request::FindChar { forward: !forward, char, is_till },
        ),
        _ => None,
    }
}

/// The operators of single keys in normal mode.
pub open spec fn plain_operator(c: char) -> Option<Operator> {
    if c == 'd' { Some(Operator::Delete) }
    else if c == 'y' { Some(Operator::Yank) }
    else if c == 'c' { Some(Operator::Change) }
    else if c == '>' { Some(Operator::Indent) }
    else if c == '<' { Some(Operator::Outdent) }
    else { None }
}

/// The operators of single keys in visual mode, on the selection.
pub open spec fn visual_operator(c: char) -> Option<Operator> {
    if c == 'd' || c == 'x' { Some(Operator::Delete) }
    else if c == 'y' { Some(Operator::Yank) }
    else if c == 'c' { Some(Operator::Change) }
    else if c == 'u' { Some(Operator::ToLower) }
    else if c == 'U' { Some(Operator::ToUpper) }
    else if c == '~' { Some(Operator::SwapCase) }
    else if c == '>' { Some(Operator::Indent) }
    else if c == '<' { Some(Operator::Outdent) }
    else { None }
}

/// The single keys of normal mode that make one request and change nothing
/// else, given the count.
pub open spec fn plain_request(c: char, count: u32) -> Option<Request> {
    if c == 'D' { Some(Request::OpMotion { op: Operator::Delete, motion: Motion::LineEnd, count }) }
    else if c == 'Y' { Some(Request::OpMotion { op: Operator::Yank, motion: Motion::LineEnd, count }) }
    else if c == 'J' { Some(Request::ExecuteCommandFromConfig("join")) }
    else if c == '\x05' { Some(Request::Scroll { lines: count as i32 }) }
    else if c == '\x19' { Some(Request::Scroll { lines: (-(count as i32)) as i32 }) }
    else if c == 'K' { Some(Request::LspHover) }
    else if c == 'p' { Some(Request::Paste) }
    else if c == 'P' { Some(Request::PasteBefore) }
    else if c == 'x' { Some(Request::DeleteCharAtCursor { count }) }
    else if c == 'X' { Some(Request::Backspace) }
    else if c == '~' { Some(Request::SwitchCase) }
    else if c == '&' { Some(Request::ExecuteCommandFromConfig("&")) }
    else if c == ';' { Some(Request::RepeatLastCharSearch { count }) }
    else if c == '%' { Some(Request::JumpToPair) }
    else if c == '*' { Some(Request::SearchWordUnderCursor { forward: true, whole_word: true }) }
    else if c == '#' { Some(Request::SearchWordUnderCursor { forward: false, whole_word: true }) }
    else if c == 'n' { Some(Request::SearchNext { forward: true, count }) }
    else if c == 'N' { Some(Request::SearchNext { forward: false, count }) }
    else if c == '\x0C' { Some(Request::Redraw) }
    else if c == '\x1E' { Some(Request::AlternateFile) }
    else if c == '\x07' { Some(Request::ExecuteCommandFromConfig("file")) }
    else if c == '\x0f' { Some(Request::JumpBack) }
    else if c == '\x09' { Some(Request::JumpForward) }
    else if c == 'u' { Some(Request::Undo) }
    else if c == '\x12' { Some(Request::Redo) }
    else if c == 'o' { Some(Request::OpenLine { below: true }) }
    else if c == 'O' { Some(Request::OpenLine { below: false }) }
    else if c == 'i' { Some(Request::SetMode(Mode::Insert)) }
    else if c == '\x01' { Some(Request::IncrementNumber { offset: count as i32 }) }
    else if c == '\x18' { Some(Request::IncrementNumber { offset: (-(count as i32)) as i32 }) }
    else if c == ':' { Some(Request::SetMode(Mode::CommandLine)) }
    else if c == '/' || c == '?' { Some(Request::SetMode(Mode::Search)) }
    else if c == '.' { Some(Request::RepeatLastChange { count }) }
    else if c == 'v' { Some(Request::SetVisualMode(VisualMode::Char)) }
    else if c == 'V' { Some(Request::SetVisualMode(VisualMode::Line)) }
    else if c == '\x16' { Some(Request::SetVisualMode(VisualMode::Block)) }
    else { None }
}

/// The scroll of the page keys, by the window's height (`<C-F>`, `<C-B>`)
/// or half of it (`<C-D>`, `<C-U>`), times the count.
pub open spec fn page_scroll(c: char, height: usize, count: u32) -> Option<Request> {
    if c == '\x06' { Some(Request::Scroll { lines: (height * count) as i32 }) }
    else if c == '\x02' { Some(Request::Scroll { lines: (-((height * count) as i32)) as i32 }) }
    else if c == '\x04' { Some(Request::Scroll { lines: ((height / 2) * count) as i32 }) }
    else if c == '\x15' { Some(Request::Scroll { lines: (-(((height / 2) * count) as i32)) as i32 }) }
    else { None }
}

/// Whether a key adds a digit to the count: any digit but a leading `0`.
pub open spec fn is_count_key(s: KeyState, key: char) -> bool {
    '0' <= key <= '9' && (key != '0' || s.pending_count is Some)
}

/// The count with the digit of `key` appended.
pub open spec fn extended_count(count: Option<u32>, key: char) -> int {
    let current: int = match count { Some(n) => n as int, None => 0 };
    current * 10 + (key as int - '0' as int)
}

/// The count a command takes: the one typed, else 1.
pub open spec fn count_or_one(count: Option<u32>) -> u32 {
    match count { Some(n) => n, None => 1 }
}

/// The state in the mode `m`, with a step that changes the mode.
pub open spec fn mode_change(s: KeyState, m: Mode) -> KeyStep {
    key_step(KeyState { mode: m, ..s }, seq![Step::SetMode(m)], None)
}

/// A key in normal mode after an operator, with no prefix key.
pub open spec fn operator_key(s: KeyState, op: Operator, key: char, count: u32) -> KeyStep {
    let cleared = KeyState { pending_op: None, ..s };
    if op == Operator::Delete && key == 'd' {
        just(cleared, Some(Request::DeleteCurrentLine { count }))
    } else if op == Operator::Yank && key == 'y' {
        just(cleared, Some(Request::YankCurrentLine { count }))
    } else if op == Operator::Indent && key == '>' {
        just(cleared, Some(Request::Indent { forward: true }))
    } else if op == Operator::Outdent && key == '<' {
        just(cleared, Some(Request::Indent { forward: false }))
    } else {
        match operator_motion(key) {
            Some(m) => just(cleared, Some(Request::OpMotion { op, motion: m, count })),
            None => just(s, None),
        }
    }
}

/// A key in normal mode after the prefix key `p`, with no operator.
pub open spec fn prefixed_key(s: KeyState, p: char, key: char, count: u32) -> KeyStep {
    let cleared = KeyState { pending_key: None, ..s };
    if p == 'f' || p == 'F' || p == 't' || p == 'T' {
        just(cleared, Some(Request::FindChar { forward: p == 'f' || p == 't', char: key, is_till: p == 't' || p == 'T' }))
    } else if p == '\x17' {
        just(cleared, window_request(key))
    } else if p == 'm' {
        just(cleared, Some(Request::SetMark(key)))
    } else if p == '\'' || p == '`' {
        just(cleared, Some(Request::JumpToMark(key)))
    } else if p == 'g' {
        match g_request(key) {
            Some(r) => just(cleared, Some(r)),
            None => match g_motion(key) {
                Some(m) => just(cleared, Some(Request::OpMotion { op: Operator::Move, motion: m, count })),
                None => match g_operator(key) {
                    Some(op) => just(KeyState { pending_op: Some(op), ..cleared }, None),
                    None => just(s, None),
                },
            },
        }
    } else if p == 'z' {
        match z_request(key) { Some(r) => just(cleared, Some(r)), None => just(s, None) }
    } else if p == 'Z' {
        match big_z_request(key) { Some(r) => just(cleared, Some(r)), None => just(s, None) }
    } else if p == '[' || p == ']' {
        match bracket_motion(p, key) {
            Some(m) => just(cleared, Some(Request::OpMotion { op: Operator::Move, motion: m, count })),
            None => just(s, None),
        }
    } else if p == 'q' {
        just(cleared, Some(Request::StartMacroRecord(key)))
    } else {
        just(s, None)
    }
}

/// A key in normal mode with neither a prefix key nor an operator waiting.
pub open spec fn plain_key(s: KeyState, ctx: KeyContext, key: char, count: u32) -> KeyStep {
    let to_insert = Some(Request::SetMode(Mode::Insert));
    if key == 'r' {
        mode_change(s, Mode::WaitReplaceChar)
    } else if key == 'R' {
        mode_change(s, Mode::Replace)
    } else if key == '@' {
        mode_change(s, Mode::WaitMacroReg)
    } else if plain_operator(key) is Some {
        just(KeyState { pending_op: plain_operator(key), ..s }, None)
    } else if is_prefix_key(key) {
        just(KeyState { pending_key: Some(key), ..s }, None)
    } else if counted_motion(key) is Some {
        just(s, Some(Request::OpMotion { op: Operator::Move, motion: counted_motion(key)->0, count }))
    } else if key == '0' {
        just(s, Some(Request::OpMotion { op: Operator::Move, motion: Motion::LineStart, count: 1 }))
    } else if key == '^' {
        just(s, Some(Request::OpMotion { op: Operator::Move, motion: Motion::LineFirstChar, count: 1 }))
    } else if plain_request(key, count) is Some {
        just(s, plain_request(key, count))
    } else if page_scroll(key, ctx.window_height, count) is Some {
        just(s, page_scroll(key, ctx.window_height, count))
    } else if key == 'C' {
        key_step(s, seq![Step::Apply(Request::OpMotion { op: Operator::Delete, motion: Motion::LineEnd, count: 1 })], to_insert)
    } else if key == 's' {
        key_step(s, seq![Step::Apply(Request::DeleteCharAtCursor { count: 1 })], to_insert)
    } else if key == 'S' {
        key_step(s, seq![Step::Apply(Request::DeleteCurrentLine { count: 1 }), Step::Apply(Request::OpenLine { below: false })], to_insert)
    } else if key == 'I' {
        key_step(s, seq![Step::Apply(Request::OpMotion { op: Operator::Move, motion: Motion::LineFirstChar, count: 1 })], to_insert)
    } else if key == 'a' {
        key_step(s, seq![Step::Apply(Request::OpMotion { op: Operator::Move, motion: Motion::Right, count: 1 })], to_insert)
    } else if key == 'A' {
        key_step(s, seq![Step::Apply(Request::OpMotion { op: Operator::Move, motion: Motion::LineEnd, count: 1 }), Step::MoveRightOfCursor], to_insert)
    } else if key == ',' {
        just(s, reversed_char_search(ctx.last_char_search))
    } else if key == 'q' {
        if ctx.recording_macro {
            just(s, Some(Request::StopMacroRecord))
        } else {
            just(KeyState { pending_key: Some('q'), ..s }, None)
        }
    } else {
        just(s, None)
    }
}

/// A key in normal mode: a digit adds to the count; any other key takes
/// the count (1 if none was typed) and acts by what waits before it.
pub open spec fn normal_key(s: KeyState, ctx: KeyContext, key: char) -> KeyStep {
    if is_count_key(s, key) {
        just(KeyState { pending_count: Some(extended_count(s.pending_count, key) as u32), ..s }, None)
    } else {
        let count = count_or_one(s.pending_count);
        let s = KeyState { pending_count: None, ..s };
        if s.pending_key == Some('"') {
            just(KeyState { pending_key: None, pending_register: Some(key), ..s }, None)
        } else {
            match (s.pending_op, s.pending_key) {
                (Some(op), Some(p)) => if (p == 'i' || p == 'a') && text_object_of(key) is Some {
                    just(
                        KeyState { pending_op: None, pending_key: None, ..s },
                        Some(Request::OpTextObject { op, inner: p == 'i', obj: text_object_of(key)->0, count }),
                    )
                } else {
                    just(s, None)
                },
                (Some(op), None) => operator_key(s, op, key, count),
                (None, Some(p)) => prefixed_key(s, p, key, count),
                (None, None) => plain_key(s, ctx, key, count),
            }
        }
    }
}

/// The keys of visual mode that wait for a second key.
pub open spec fn is_visual_prefix_key(c: char) -> bool {
    c == 'i' || c == 'a' || c == '[' || c == ']' || c == 'g' || c == 'f' || c == 'F' || c == 't' || c == 'T'
}

/// A key in visual mode.
pub open spec fn visual_key(s: KeyState, ctx: KeyContext, key: char) -> KeyStep {
    let cur = ctx.cursor;
    match s.pending_key {
        None => {
            if key == '\x1B' {
                key_step(s, seq![Step::SetVisualAnchor(None)], Some(Request::SetMode(Mode::Normal)))
            } else if key == 'j' {
                just(s, Some(Request::CursorMove { row: (cur.row + 1) as usize, col: cur.col }))
            } else if key == 'k' {
                just(s, Some(Request::CursorMove { row: if cur.row > 1 { (cur.row - 1) as usize } else { 1 }, col: cur.col }))
            } else if key == 'h' {
                just(s, Some(Request::CursorMove { row: cur.row, col: if cur.col > 0 { (cur.col - 1) as usize } else { 0 } }))
            } else if key == 'l' {
                just(s, Some(Request::CursorMove { row: cur.row, col: (cur.col + 1) as usize }))
            } else if visual_motion(key) is Some {
                just(s, Some(Request::OpMotion { op: Operator::Move, motion: visual_motion(key)->0, count: 1 }))
            } else if visual_operator(key) is Some {
                just(s, Some(Request::OpVisualSelection(visual_operator(key)->0)))
            } else if key == 'I' || key == 'A' {
                just(s, Some(Request::BlockInsert { append: key == 'A' }))
            } else if key == 'o' || key == 'O' {
                let anchor = match ctx.visual_anchor { Some(a) => a, None => cur };
                key_step(s, seq![Step::SetVisualAnchor(Some(cur)), Step::SetCursor(anchor)], None)
            } else if is_visual_prefix_key(key) {
                just(KeyState { pending_key: Some(key), ..s }, None)
            } else if key == ';' {
                just(s, Some(Request::RepeatLastCharSearch { count: 1 }))
            } else if key == ',' {
                just(s, reversed_char_search(ctx.last_char_search))
            } else if key == 'n' || key == 'N' {
                just(s, Some(Request::SearchNext { forward: key == 'n', count: 1 }))
            } else {
                just(s, None)
            }
        },
        Some(p) => {
            let cleared = KeyState { pending_key: None, ..s };
            if p == 'f' || p == 'F' || p == 't' || p == 'T' {
                just(cleared, Some(Request::FindChar { forward: p == 'f' || p == 't', char: key, is_till: p == 't' || p == 'T' }))
            } else if p == 'g' && key == 'g' {
                just(cleared, Some(Request::OpMotion { op: Operator::Move, motion: Motion::BufferStart, count: 1 }))
            } else if bracket_motion(p, key) is Some {
                just(cleared, Some(Request::OpMotion { op: Operator::Move, motion: bracket_motion(p, key)->0, count: 1 }))
            } else if (p == 'i' || p == 'a') && text_object_of(key) is Some {
                just(cleared, Some(Request::OpTextObject { op: Operator::Move, inner: p == 'i', obj: text_object_of(key)->0, count: 1 }))
            } else {
                just(s, None)
            }
        },
    }
}

/// A key in insert mode.
pub open spec fn insert_key(s: KeyState, ctx: KeyContext, key: char) -> KeyStep {
    let menu = ctx.completion_menu_open;
    if key == '\x1B' { just(s, Some(Request::SetMode(Mode::Normal))) }
    else if key == '\x7F' || key == '\x08' { just(s, Some(Request::Backspace)) }
    else if key == '\x17' { just(s, Some(Request::InsertModeDeleteWord)) }
    else if key == '\x15' { just(s, Some(Request::InsertModeDeleteLine)) }
    else if key == '\x12' { mode_change(s, Mode::InsertWaitRegister) }
    else if key == '\x19' { just(s, Some(Request::InsertCopyFromLine { offset: -1i32 })) }
    else if key == '\x05' { just(s, Some(Request::InsertCopyFromLine { offset: 1i32 })) }
    else if key == '\x14' { just(s, Some(Request::Indent { forward: true })) }
    else if key == '\x04' { just(s, Some(Request::Indent { forward: false })) }
    else if key == '\x16' { mode_change(s, Mode::InsertLiteral) }
    else if key == '\x0B' { mode_change(s, Mode::InsertDigraph1('\0')) }
    else if key == '\x0E' { just(s, Some(if menu { Request::SelectPumNext } else { Request::TriggerCompletion { forward: true } })) }
    else if key == '\x10' { just(s, Some(if menu { Request::SelectPumPrev } else { Request::TriggerCompletion { forward: false } })) }
    else if key == '\x0f' { mode_change(s, Mode::InsertOnce) }
    else if key == '\r' || key == '\n' { just(s, Some(if menu { Request::CommitCompletion } else { Request::NewLine })) }
    else { just(s, Some(Request::InsertChar(key))) }
}

/// A key in replace mode.
pub open spec fn replace_key(s: KeyState, ctx: KeyContext, key: char) -> KeyStep {
    let cur = ctx.cursor;
    if key == '\x1B' { just(s, Some(Request::SetMode(Mode::Normal))) }
    else if key == '\x7F' || key == '\x08' {
        just(s, if cur.col > 0 { Some(Request::CursorMove { row: cur.row, col: (cur.col - 1) as usize }) } else { None })
    } else { just(s, Some(Request::ReplaceCharUnderCursor(key))) }
}

/// A key on the command line, of an Ex command or of a search.
pub open spec fn cmdline_key(s: KeyState, key: char) -> KeyStep {
    if key == '\x1B' { just(s, Some(Request::SetMode(Mode::Normal))) }
    else if key == '\x7F' || key == '\x08' { just(s, Some(Request::CmdLineBackspace)) }
    else if key == '\x17' { just(s, Some(Request::CmdLineDeleteWord)) }
    else if key == '\x15' { just(s, Some(Request::CmdLineDeleteLine)) }
    else if key == '\x12' { mode_change(s, Mode::CommandLineWaitRegister) }
    else if key == '\x02' || key == '\x01' { just(s, Some(Request::CmdLineMoveCursorTo { pos: 0 })) }
    else if key == '\x05' { just(s, Some(Request::CmdLineMoveCursorTo { pos: 9999 })) }
    else if key == '\x10' { just(s, Some(Request::CmdLineHistory { forward: false })) }
    else if key == '\x0E' { just(s, Some(Request::CmdLineHistory { forward: true })) }
    else if key == '\t' { just(s, Some(Request::CmdLineTab)) }
    else if key == '\r' || key == '\n' {
        just(s, Some(if s.mode == Mode::CommandLine { Request::ExecuteCommand } else { Request::ExecuteSearch }))
    } else { just(s, Some(Request::CmdLineChar(key))) }
}

/// The text of the register that the key names; empty where there is none.
pub open spec fn register_chars(ctx: KeyContext) -> Seq<char> {
    match ctx.register_text { Some(t) => t@, None => Seq::empty() }
}

/// Each character of `text` handled as a typed character, on the command
/// line or in the buffer.
pub open spec fn char_steps(text: Seq<char>, on_cmdline: bool) -> Seq<Step>
    decreases text.len(),
{
    if text.len() == 0 {
        Seq::empty()
    } else {
        char_steps(text.drop_last(), on_cmdline).push(typed_char(text.last(), on_cmdline))
    }
}

/// A character typed on the command line or in the buffer.
pub open spec fn typed_char(c: char, on_cmdline: bool) -> Step {
    Step::Apply(if on_cmdline { Request::CmdLineChar(c) } else { Request::InsertChar(c) })
}

/// The character of a digraph: for now `?` for every pair.
pub open spec fn digraph_of(c1: char, c2: char) -> char {
    '?'
}

/// A key handled by the mode the editor is in.
pub open spec fn mode_key(s: KeyState, ctx: KeyContext, key: char) -> KeyStep {
    match s.mode {
        Mode::InsertLiteral => key_step(
            KeyState { mode: Mode::Insert, ..s }, seq![Step::SetMode(Mode::Insert)], Some(Request::InsertChar(key))),
        Mode::InsertDigraph1(c1) => if c1 == '\0' {
            just(KeyState { mode: Mode::InsertDigraph1(key), ..s }, None)
        } else {
            key_step(KeyState { mode: Mode::Insert, ..s }, seq![Step::SetMode(Mode::Insert)],
                Some(Request::InsertChar(digraph_of(c1, key))))
        },
        Mode::InsertOnce => {
            let r = normal_key(s, ctx, key);
            key_step(KeyState { mode: Mode::Insert, ..r.state }, r.steps.push(Step::SetMode(Mode::Insert)), r.request)
        },
        Mode::BlockInsert { .. } => if key == '\x1B' {
            mode_change(s, Mode::Normal)
        } else {
            just(s, Some(Request::InsertChar(key)))
        },
        Mode::Normal | Mode::OperatorPending => normal_key(s, ctx, key),
        Mode::Insert => insert_key(s, ctx, key),
        Mode::Replace | Mode::VirtualReplace => replace_key(s, ctx, key),
        Mode::InsertWaitRegister => key_step(
            KeyState { mode: Mode::Insert, ..s },
            seq![Step::SetMode(Mode::Insert)] + char_steps(register_chars(ctx), false), None),
        Mode::Visual(_) => visual_key(s, ctx, key),
        Mode::CommandLine | Mode::Search => cmdline_key(s, key),
        Mode::CommandLineWaitRegister => key_step(
            KeyState { mode: Mode::CommandLine, ..s },
            seq![Step::SetMode(Mode::CommandLine)] + char_steps(register_chars(ctx), true), None),
        Mode::WaitMacroReg => key_step(
            KeyState { mode: Mode::Normal, ..s }, seq![Step::SetMode(Mode::Normal)], Some(Request::PlayMacro(key))),
        Mode::WaitReplaceChar => key_step(
            KeyState { mode: Mode::Normal, ..s }, seq![Step::SetMode(Mode::Normal)], Some(Request::ReplaceChar(key))),
        Mode::Terminal => just(s, None),
    }
}

/// A key: `<C-\>` waits for a second key, and `<C-\><C-N>` goes to normal
/// mode from any mode; any other key is handled by the mode.
pub open spec fn handle_key(s: KeyState, ctx: KeyContext, key: char) -> KeyStep {
    if s.pending_key == Some('\x1C') {
        let s1 = KeyState { pending_key: None, ..s };
        if key == '\x0E' {
            just(s1, Some(Request::SetMode(Mode::Normal)))
        } else {
            mode_key(s1, ctx, key)
        }
    } else if key == '\x1C' {
        just(KeyState { pending_key: Some('\x1C'), ..s }, None)
    } else {
        mode_key(s, ctx, key)
    }
}

/// The arithmetic of a key in normal mode with nothing waiting fits its
/// integer types: the scroll amounts that negate or multiply the count.
pub open spec fn plain_key_fits(ctx: KeyContext, key: char, count: u32) -> bool {
    let h = ctx.window_height;
    &&& (key == '\x19' || key == '\x18') ==> count as i32 != i32::MIN
    &&& (key == '\x06' || key == '\x02') ==> h * count <= usize::MAX
    &&& key == '\x02' ==> (h * count) as i32 != i32::MIN
    &&& (key == '\x04' || key == '\x15') ==> (h / 2) * count <= usize::MAX
    &&& key == '\x15' ==> ((h / 2) * count) as i32 != i32::MIN
}

/// The arithmetic of a key in normal mode fits its integer types: the
/// count, and what a key with nothing waiting computes from it.
pub open spec fn normal_key_fits(s: KeyState, ctx: KeyContext, key: char) -> bool {
    if is_count_key(s, key) {
        extended_count(s.pending_count, key) <= u32::MAX
    } else {
        (s.pending_op is None && s.pending_key is None) ==> plain_key_fits(ctx, key, count_or_one(s.pending_count))
    }
}

/// The arithmetic of a key in the mode the editor is in fits its types.
pub open spec fn mode_key_fits(s: KeyState, ctx: KeyContext, key: char) -> bool {
    match s.mode {
        Mode::Normal | Mode::OperatorPending | Mode::InsertOnce => normal_key_fits(s, ctx, key),
        Mode::Visual(_) => s.pending_key is None ==> {
            &&& key == 'j' ==> ctx.cursor.row < usize::MAX
            &&& key == 'l' ==> ctx.cursor.col < usize::MAX
        },
        _ => true,
    }
}

/// The arithmetic of a key fits its integer types.
pub open spec fn key_fits(s: KeyState, ctx: KeyContext, key: char) -> bool {
    if s.pending_key == Some('\x1C') {
        key == '\x0E' || mode_key_fits(KeyState { pending_key: None, ..s }, ctx, key)
    } else {
        key == '\x1C' || mode_key_fits(s, ctx, key)
    }
}

pub fn text_object_for(c: char) -> (r: Option<TextObject>)
    ensures
        r == text_object_of(c),
{
    if c == 'w' { Some(TextObject::Word) }
    else if c == 'W' { Some(TextObject::BigWord) }
    else if c == '(' || c == ')' || c == 'b' { Some(TextObject::Paren) }
    else if c == '[' || c == ']' { Some(TextObject::Bracket) }
    else if c == '{' || c == '}' || c == 'B' { Some(TextObject::Brace) }
    else if c == '<' || c == '>' { Some(TextObject::AngleBracket) }
    else if c == '\'' { Some(TextObject::Quote) }
    else if c == '"' { Some(TextObject::DoubleQuote) }
    else if c == '`' { Some(TextObject::Backtick) }
    else if c == 's' { Some(TextObject::Sentence) }
    else if c == 'p' { Some(TextObject::Paragraph) }
    else { None }
}

/// The state and outcome are those that `k` describes.
pub open spec fn produces(s: KeyState, o: KeyOutcome, k: KeyStep) -> bool {
    &&& s == k.state
    &&& o.steps@ == k.steps
    &&& o.request == k.request
}

fn only(s: KeyState, request: Option<Request>) -> (r: (KeyState, KeyOutcome))
    ensures
        produces(r.0, r.1, just(s, request)),
{
    (s, KeyOutcome { steps: Vec::new(), request })
}

fn with_steps(s: KeyState, steps: Vec<Step>, request: Option<Request>) -> (r: (KeyState, KeyOutcome))
    ensures
        produces(r.0, r.1, key_step(s, steps@, request)),
{
    (s, KeyOutcome { steps, request })
}

fn change_mode(s: KeyState, m: Mode) -> (r: (KeyState, KeyOutcome))
    ensures
        produces(r.0, r.1, mode_change(s, m)),
{
    let mut steps: Vec<Step> = Vec::new();
    steps.push(Step::SetMode(m));
    assert(steps@ == seq![Step::SetMode(m)]);
    (KeyState { mode: m, ..s }, KeyOutcome { steps, request: None })
}

fn operator_motion_for(c: char) -> (r: Option<Motion>)
    ensures
        r == operator_motion(c),
{
    if c == 'w' { Some(Motion::WordForward) }
    else if c == 'W' { Some(Motion::WordForwardBlank) }
    else if c == 'b' { Some(Motion::WordBackward) }
    else if c == 'B' { Some(Motion::WordBackwardBlank) }
    else if c == 'e' { Some(Motion::WordForwardEnd) }
    else if c == 'E' { Some(Motion::WordForwardEndBlank) }
    else if c == '$' { Some(Motion::LineEnd) }
    else if c == '0' { Some(Motion::LineStart) }
    else { None }
}

fn visual_motion_for(c: char) -> (r: Option<Motion>)
    ensures
        r == visual_motion(c),
{
    if c == '^' { Some(Motion::LineFirstChar) }
    else if c == 'G' { Some(Motion::BufferEnd) }
    else if c == '(' { Some(Motion::SentenceBackward) }
    else if c == ')' { Some(Motion::SentenceForward) }
    else if c == '{' { Some(Motion::ParagraphBackward) }
    else if c == '}' { Some(Motion::ParagraphForward) }
    else { operator_motion_for(c) }
}

fn counted_motion_for(c: char) -> (r: Option<Motion>)
    ensures
        r == counted_motion(c),
{
    if c == 'j' { Some(Motion::Down) }
    else if c == 'k' { Some(Motion::Up) }
    else if c == 'h' { Some(Motion::Left) }
    else if c == 'l' { Some(Motion::Right) }
    else if c == '(' { Some(Motion::SentenceBackward) }
    else if c == ')' { Some(Motion::SentenceForward) }
    else if c == '{' { Some(Motion::ParagraphBackward) }
    else if c == '}' { Some(Motion::ParagraphForward) }
    else if c == 'G' { Some(Motion::BufferEnd) }
    else if c == 'H' { Some(Motion::WindowTop) }
    else if c == 'M' { Some(Motion::WindowMiddle) }
    else if c == 'L' { Some(Motion::WindowBottom) }
    else if c == '0' { None }
    else { operator_motion_for(c) }
}

fn bracket_motion_for(prefix: char, c: char) -> (r: Option<Motion>)
    ensures
        r == bracket_motion(prefix, c),
{
    if prefix == '[' {
        if c == '[' { Some(Motion::SectionBackward) }
        else if c == ']' { Some(Motion::SectionEndBackward) }
        else if c == '(' { Some(Motion::ParenBackward) }
        else if c == '{' { Some(Motion::BraceBackward) }
        else if c == 'd' { Some(Motion::DiagnosticBackward) }
        else { None }
    } else if prefix == ']' {
        if c == ']' { Some(Motion::SectionForward) }
        else if c == '[' { Some(Motion::SectionEndForward) }
        else if c == ')' { Some(Motion::ParenForward) }
        else if c == '}' { Some(Motion::BraceForward) }
        else if c == 'd' { Some(Motion::DiagnosticForward) }
        else { None }
    } else {
        None
    }
}

fn g_motion_for(c: char) -> (r: Option<Motion>)
    ensures
        r == g_motion(c),
{
    if c == 'm' { Some(Motion::LineMiddle) }
    else if c == 'o' { Some(Motion::BufferByteOffset) }
    else if c == 'j' { Some(Motion::Down) }
    else if c == 'k' { Some(Motion::Up) }
    else if c == '0' { Some(Motion::LineStart) }
    else if c == '^' { Some(Motion::LineFirstChar) }
    else if c == '$' { Some(Motion::LineEnd) }
    else if c == 'g' { Some(Motion::BufferStart) }
    else if c == '_' { Some(Motion::LineLastChar) }
    else if c == 'e' { Some(Motion::WordBackwardEnd) }
    else if c == 'E' { Some(Motion::WordBackwardEndBlank) }
    else if c == ';' { Some(Motion::PrevChange) }
    else if c == ',' { Some(Motion::NextChange) }
    else { None }
}

fn g_operator_for(c: char) -> (r: Option<Operator>)
    ensures
        r == g_operator(c),
{
    if c == 'u' { Some(Operator::ToLower) }
    else if c == 'U' { Some(Operator::ToUpper) }
    else if c == '~' { Some(Operator::SwapCase) }
    else { None }
}

fn g_request_for(c: char) -> (r: Option<Request>)
    ensures
        r == g_request(c),
{
    if c == 'a' { Some(Request::ExecuteCommandFromConfig("ascii")) }
    else if c == '&' { Some(Request::ExecuteCommandFromConfig("%&")) }
    else if c == 'v' { Some(Request::RestoreVisualSelection) }
    else if c == 'd' { Some(Request::LspDefinition) }
    else if c == 'I' { Some(Request::InsertAtFirstColumn) }
    else if c == 'i' { Some(Request::InsertAtLastInsert) }
    else if c == 'J' { Some(Request::ExecuteCommandFromConfig("join!")) }
    else if c == '*' { Some(Request::SearchWordUnderCursor { forward: true, whole_word: false }) }
    else if c == '#' { Some(Request::SearchWordUnderCursor { forward: false, whole_word: false }) }
    else if c == 'n' { Some(Request::SelectSearchMatch { forward: true }) }
    else if c == 'N' { Some(Request::SelectSearchMatch { forward: false }) }
    else { None }
}

fn z_request_for(c: char) -> (r: Option<Request>)
    ensures
        r == z_request(c),
{
    if c == 'z' { Some(Request::CenterCursor) }
    else if c == 't' { Some(Request::CursorToTop) }
    else if c == 'b' { Some(Request::CursorToBottom) }
    else if c == '\r' || c == '\n' { Some(Request::CursorToTopWithCR) }
    else if c == '.' { Some(Request::CursorToCenterWithDot) }
    else if c == '-' { Some(Request::CursorToBottomWithMinus) }
    else { None }
}

fn big_z_request_for(c: char) -> (r: Option<Request>)
    ensures
        r == big_z_request(c),
{
    if c == 'Z' { Some(Request::ExecuteCommandFromConfig("x")) }
    else if c == 'Q' { Some(Request::ExecuteCommandFromConfig("qa!")) }
    else { None }
}

fn window_request_for(c: char) -> (r: Option<Request>)
    ensures
        r == window_request(c),
{
    if c == 's' { Some(Request::SplitWindow { vertical: false }) }
    else if c == 'v' { Some(Request::SplitWindow { vertical: true }) }
    else if c == 'w' || c == 'j' { Some(Request::NextWindow) }
    else if c == 'W' || c == 'k' { Some(Request::PrevWindow) }
    else if c == 'h' { Some(Request::OpMotion { op: Operator::Move, motion: Motion::Left, count: 1 }) }
    else if c == 'l' { Some(Request::OpMotion { op: Operator::Move, motion: Motion::Right, count: 1 }) }
    else if c == 'q' || c == 'c' { Some(Request::ExecuteCommandFromConfig("close")) }
    else if c == 'o' { Some(Request::ExecuteCommandFromConfig("only")) }
    else { None }
}

fn plain_operator_for(c: char) -> (r: Option<Operator>)
    ensures
        r == plain_operator(c),
{
    if c == 'd' { Some(Operator::Delete) }
    else if c == 'y' { Some(Operator::Yank) }
    else if c == 'c' { Some(Operator::Change) }
    else if c == '>' { Some(Operator::Indent) }
    else if c == '<' { Some(Operator::Outdent) }
    else { None }
}

fn visual_operator_for(c: char) -> (r: Option<Operator>)
    ensures
        r == visual_operator(c),
{
    if c == 'd' || c == 'x' { Some(Operator::Delete) }
    else if c == 'y' { Some(Operator::Yank) }
    else if c == 'c' { Some(Operator::Change) }
    else if c == 'u' { Some(Operator::ToLower) }
    else if c == 'U' { Some(Operator::ToUpper) }
    else if c == '~' { Some(Operator::SwapCase) }
    else if c == '>' { Some(Operator::Indent) }
    else if c == '<' { Some(Operator::Outdent) }
    else { None }
}

fn is_prefix(c: char) -> (r: bool)
    ensures
        r == is_prefix_key(c),
{
    c == 'f' || c == 'F' || c == 't' || c == 'T' || c == 'g' || c == 'm' || c == '\''
        || c == '`' || c == '"' || c == '\x17' || c == 'z' || c == '[' || c == ']' || c == 'Z'
}

fn is_visual_prefix(c: char) -> (r: bool)
    ensures
        r == is_visual_prefix_key(c),
{
    c == 'i' || c == 'a' || c == '[' || c == ']' || c == 'g' || c == 'f' || c == 'F' || c == 't' || c == 'T'
}

fn reversed_search(last: &Option<Request>) -> (r: Option<Request>)
    ensures
        r == reversed_char_search(*last),
{
    match last {
        Some(Request::FindChar { forward, char, is_till }) => Some(
            Request::FindChar { forward: !*forward, char: *char, is_till: *is_till },
        ),
        _ => None,
    }
}

fn plain_request_for(c: char, count: u32) -> (r: Option<Request>)
    requires
        (c == '\x19' || c == '\x18') ==> count as i32 != i32::MIN,
    ensures
        r == plain_request(c, count),
{
    if c == 'D' { Some(Request::OpMotion { op: Operator::Delete, motion: Motion::LineEnd, count }) }
    else if c == 'Y' { Some(Request::OpMotion { op: Operator::Yank, motion: Motion::LineEnd, count }) }
    else if c == 'J' { Some(Request::ExecuteCommandFromConfig("join")) }
    else if c == '\x05' { Some(Request::Scroll { lines: count as i32 }) }
    else if c == '\x19' { Some(Request::Scroll { lines: -(count as i32) }) }
    else if c == 'K' { Some(Request::LspHover) }
    else if c == 'p' { Some(Request::Paste) }
    else if c == 'P' { Some(Request::PasteBefore) }
    else if c == 'x' { Some(Request::DeleteCharAtCursor { count }) }
    else if c == 'X' { Some(Request::Backspace) }
    else if c == '~' { Some(Request::SwitchCase) }
    else if c == '&' { Some(Request::ExecuteCommandFromConfig("&")) }
    else if c == ';' { Some(Request::RepeatLastCharSearch { count }) }
    else if c == '%' { Some(Request::JumpToPair) }
    else if c == '*' { Some(Request::SearchWordUnderCursor { forward: true, whole_word: true }) }
    else if c == '#' { Some(Request::SearchWordUnderCursor { forward: false, whole_word: true }) }
    else if c == 'n' { Some(Request::SearchNext { forward: true, count }) }
    else if c == 'N' { Some(Request::SearchNext { forward: false, count }) }
    else if c == '\x0C' { Some(Request::Redraw) }
    else if c == '\x1E' { Some(Request::AlternateFile) }
    else if c == '\x07' { Some(Request::ExecuteCommandFromConfig("file")) }
    else if c == '\x0f' { Some(Request::JumpBack) }
    else if c == '\x09' { Some(Request::JumpForward) }
    else if c == 'u' { Some(Request::Undo) }
    else if c == '\x12' { Some(Request::Redo) }
    else if c == 'o' { Some(Request::OpenLine { below: true }) }
    else if c == 'O' { Some(Request::OpenLine { below: false }) }
    else if c == 'i' { Some(Request::SetMode(Mode::Insert)) }
    else if c == '\x01' { Some(Request::IncrementNumber { offset: count as i32 }) }
    else if c == '\x18' { Some(Request::IncrementNumber { offset: -(count as i32) }) }
    else if c == ':' { Some(Request::SetMode(Mode::CommandLine)) }
    else if c == '/' || c == '?' { Some(Request::SetMode(Mode::Search)) }
    else if c == '.' { Some(Request::RepeatLastChange { count }) }
    else if c == 'v' { Some(Request::SetVisualMode(VisualMode::Char)) }
    else if c == 'V' { Some(Request::SetVisualMode(VisualMode::Line)) }
    else if c == '\x16' { Some(Request::SetVisualMode(VisualMode::Block)) }
    else { None }
}

fn page_scroll_for(c: char, height: usize, count: u32) -> (r: Option<Request>)
    requires
        (c == '\x06' || c == '\x02') ==> height * count <= usize::MAX,
        c == '\x02' ==> (height * count) as i32 != i32::MIN,
        (c == '\x04' || c == '\x15') ==> (height / 2) * count <= usize::MAX,
        c == '\x15' ==> ((height / 2) * count) as i32 != i32::MIN,
    ensures
        r == page_scroll(c, height, count),
{
    if c == '\x06' { Some(Request::Scroll { lines: (height * count as usize) as i32 }) }
    else if c == '\x02' { Some(Request::Scroll { lines: -((height * count as usize) as i32) }) }
    else if c == '\x04' { Some(Request::Scroll { lines: ((height / 2) * count as usize) as i32 }) }
    else if c == '\x15' { Some(Request::Scroll { lines: -(((height / 2) * count as usize) as i32) }) }
    else { None }
}

/// The character of a digraph; no table of digraphs is kept, so every
/// pair gives `?`.
fn digraph_lookup(c1: char, c2: char) -> (r: char)
    ensures
        r == digraph_of(c1, c2),
{
    '?'
}

fn operator_key_exec(s: KeyState, op: Operator, key: char, count: u32) -> (r: (KeyState, KeyOutcome))
    ensures
        produces(r.0, r.1, operator_key(s, op, key, count)),
{
    let cleared = KeyState { pending_op: None, ..s };
    if op == Operator::Delete && key == 'd' {
        only(cleared, Some(Request::DeleteCurrentLine { count }))
    } else if op == Operator::Yank && key == 'y' {
        only(cleared, Some(Request::YankCurrentLine { count }))
    } else if op == Operator::Indent && key == '>' {
        only(cleared, Some(Request::Indent { forward: true }))
    } else if op == Operator::Outdent && key == '<' {
        only(cleared, Some(Request::Indent { forward: false }))
    } else {
        match operator_motion_for(key) {
            Some(m) => only(cleared, Some(Request::OpMotion { op, motion: m, count })),
            None => only(s, None),
        }
    }
}

fn prefixed_key_exec(s: KeyState, p: char, key: char, count: u32) -> (r: (KeyState, KeyOutcome))
    ensures
        produces(r.0, r.1, prefixed_key(s, p, key, count)),
{
    let cleared = KeyState { pending_key: None, ..s };
    if p == 'f' || p == 'F' || p == 't' || p == 'T' {
        only(cleared, Some(Request::FindChar { forward: p == 'f' || p == 't', char: key, is_till: p == 't' || p == 'T' }))
    } else if p == '\x17' {
        only(cleared, window_request_for(key))
    } else if p == 'm' {
        only(cleared, Some(Request::SetMark(key)))
    } else if p == '\'' || p == '`' {
        only(cleared, Some(Request::JumpToMark(key)))
    } else if p == 'g' {
        match g_request_for(key) {
            Some(r) => only(cleared, Some(r)),
            None => match g_motion_for(key) {
                Some(m) => only(cleared, Some(Request::OpMotion { op: Operator::Move, motion: m, count })),
                None => match g_operator_for(key) {
                    Some(op) => only(KeyState { pending_op: Some(op), ..cleared }, None),
                    None => only(s, None),
                },
            },
        }
    } else if p == 'z' {
        match z_request_for(key) { Some(r) => only(cleared, Some(r)), None => only(s, None) }
    } else if p == 'Z' {
        match big_z_request_for(key) { Some(r) => only(cleared, Some(r)), None => only(s, None) }
    } else if p == '[' || p == ']' {
        match bracket_motion_for(p, key) {
            Some(m) => only(cleared, Some(Request::OpMotion { op: Operator::Move, motion: m, count })),
            None => only(s, None),
        }
    } else if p == 'q' {
        only(cleared, Some(Request::StartMacroRecord(key)))
    } else {
        only(s, None)
    }
}

fn one_step(step: Step) -> (v: Vec<Step>)
    ensures
        v@ == seq![step],
{
    let mut v: Vec<Step> = Vec::new();
    v.push(step);
    assert(v@ =~= seq![step]);
    v
}

fn two_steps(first: Step, second: Step) -> (v: Vec<Step>)
    ensures
        v@ == seq![first, second],
{
    let mut v: Vec<Step> = Vec::new();
    v.push(first);
    v.push(second);
    assert(v@ =~= seq![first, second]);
    v
}

fn plain_key_exec(s: KeyState, ctx: &KeyContext, key: char, count: u32) -> (r: (KeyState, KeyOutcome))
    requires
        plain_key_fits(*ctx, key, count),
    ensures
        produces(r.0, r.1, plain_key(s, *ctx, key, count)),
{
    let to_insert = Some(Request::SetMode(Mode::Insert));
    if key == 'r' {
        return change_mode(s, Mode::WaitReplaceChar);
    } else if key == 'R' {
        return change_mode(s, Mode::Replace);
    } else if key == '@' {
        return change_mode(s, Mode::WaitMacroReg);
    }
    let op = plain_operator_for(key);
    if op.is_some() {
        return only(KeyState { pending_op: op, ..s }, None);
    }
    if is_prefix(key) {
        return only(KeyState { pending_key: Some(key), ..s }, None);
    }
    match counted_motion_for(key) {
        Some(m) => {
            return only(s, Some(Request::OpMotion { op: Operator::Move, motion: m, count }));
        },
        None => {},
    }
    if key == '0' {
        return only(s, Some(Request::OpMotion { op: Operator::Move, motion: Motion::LineStart, count: 1 }));
    } else if key == '^' {
        return only(s, Some(Request::OpMotion { op: Operator::Move, motion: Motion::LineFirstChar, count: 1 }));
    }
    let req = plain_request_for(key, count);
    if req.is_some() {
        return only(s, req);
    }
    let scroll = page_scroll_for(key, ctx.window_height, count);
    if scroll.is_some() {
        return only(s, scroll);
    }
    if key == 'C' {
        with_steps(s, one_step(Step::Apply(Request::OpMotion { op: Operator::Delete, motion: Motion::LineEnd, count: 1 })), to_insert)
    } else if key == 's' {
        with_steps(s, one_step(Step::Apply(Request::DeleteCharAtCursor { count: 1 })), to_insert)
    } else if key == 'S' {
        with_steps(s, two_steps(Step::Apply(Request::DeleteCurrentLine { count: 1 }), Step::Apply(Request::OpenLine { below: false })), to_insert)
    } else if key == 'I' {
        with_steps(s, one_step(Step::Apply(Request::OpMotion { op: Operator::Move, motion: Motion::LineFirstChar, count: 1 })), to_insert)
    } else if key == 'a' {
        with_steps(s, one_step(Step::Apply(Request::OpMotion { op: Operator::Move, motion: Motion::Right, count: 1 })), to_insert)
    } else if key == 'A' {
        with_steps(s, two_steps(Step::Apply(Request::OpMotion { op: Operator::Move, motion: Motion::LineEnd, count: 1 }), Step::MoveRightOfCursor), to_insert)
    } else if key == ',' {
        only(s, reversed_search(&ctx.last_char_search))
    } else if key == 'q' {
        if ctx.recording_macro {
            only(s, Some(Request::StopMacroRecord))
        } else {
            only(KeyState { pending_key: Some('q'), ..s }, None)
        }
    } else {
        only(s, None)
    }
}

fn normal_key_exec(s: KeyState, ctx: &KeyContext, key: char) -> (r: (KeyState, KeyOutcome))
    requires
        normal_key_fits(s, *ctx, key),
    ensures
        produces(r.0, r.1, normal_key(s, *ctx, key)),
{
    let k: u32 = key as u32;
    let is_digit = 48 <= k && k <= 57;
    if is_digit && (key != '0' || s.pending_count.is_some()) {
        let current: u32 = match s.pending_count { Some(n) => n, None => 0 };
        let count = current * 10 + (k - 48);
        return only(KeyState { pending_count: Some(count), ..s }, None);
    }
    let count: u32 = match s.pending_count { Some(n) => n, None => 1 };
    let s = KeyState { pending_count: None, ..s };
    let after_quote = match s.pending_key { Some(c) => c == '"', None => false };
    if after_quote {
        return only(KeyState { pending_key: None, pending_register: Some(key), ..s }, None);
    }
    match (s.pending_op, s.pending_key) {
        (Some(op), Some(p)) => {
            let obj = text_object_for(key);
            if (p == 'i' || p == 'a') && obj.is_some() {
                only(
                    KeyState { pending_op: None, pending_key: None, ..s },
                    Some(Request::OpTextObject { op, inner: p == 'i', obj: obj.unwrap(), count }),
                )
            } else {
                only(s, None)
            }
        },
        (Some(op), None) => operator_key_exec(s, op, key, count),
        (None, Some(p)) => prefixed_key_exec(s, p, key, count),
        (None, None) => plain_key_exec(s, ctx, key, count),
    }
}

fn visual_key_exec(s: KeyState, ctx: &KeyContext, key: char) -> (r: (KeyState, KeyOutcome))
    requires
        s.pending_key is None ==> {
            &&& key == 'j' ==> ctx.cursor.row < usize::MAX
            &&& key == 'l' ==> ctx.cursor.col < usize::MAX
        },
    ensures
        produces(r.0, r.1, visual_key(s, *ctx, key)),
{
    let cur = ctx.cursor;
    match s.pending_key {
        None => {
            if key == '\x1B' {
                with_steps(s, one_step(Step::SetVisualAnchor(None)), Some(Request::SetMode(Mode::Normal)))
            } else if key == 'j' {
                only(s, Some(Request::CursorMove { row: cur.row + 1, col: cur.col }))
            } else if key == 'k' {
                only(s, Some(Request::CursorMove { row: if cur.row > 1 { cur.row - 1 } else { 1 }, col: cur.col }))
            } else if key == 'h' {
                only(s, Some(Request::CursorMove { row: cur.row, col: if cur.col > 0 { cur.col - 1 } else { 0 } }))
            } else if key == 'l' {
                only(s, Some(Request::CursorMove { row: cur.row, col: cur.col + 1 }))
            } else {
                match visual_motion_for(key) {
                    Some(m) => {
                        return only(s, Some(Request::OpMotion { op: Operator::Move, motion: m, count: 1 }));
                    },
                    None => {},
                }
                match visual_operator_for(key) {
                    Some(op) => {
                        return only(s, Some(Request::OpVisualSelection(op)));
                    },
                    None => {},
                }
                if key == 'I' || key == 'A' {
                    only(s, Some(Request::BlockInsert { append: key == 'A' }))
                } else if key == 'o' || key == 'O' {
                    let anchor = match ctx.visual_anchor { Some(a) => a, None => cur };
                    with_steps(s, two_steps(Step::SetVisualAnchor(Some(cur)), Step::SetCursor(anchor)), None)
                } else if is_visual_prefix(key) {
                    only(KeyState { pending_key: Some(key), ..s }, None)
                } else if key == ';' {
                    only(s, Some(Request::RepeatLastCharSearch { count: 1 }))
                } else if key == ',' {
                    only(s, reversed_search(&ctx.last_char_search))
                } else if key == 'n' || key == 'N' {
                    only(s, Some(Request::SearchNext { forward: key == 'n', count: 1 }))
                } else {
                    only(s, None)
                }
            }
        },
        Some(p) => {
            let cleared = KeyState { pending_key: None, ..s };
            if p == 'f' || p == 'F' || p == 't' || p == 'T' {
                only(cleared, Some(Request::FindChar { forward: p == 'f' || p == 't', char: key, is_till: p == 't' || p == 'T' }))
            } else if p == 'g' && key == 'g' {
                only(cleared, Some(Request::OpMotion { op: Operator::Move, motion: Motion::BufferStart, count: 1 }))
            } else {
                match bracket_motion_for(p, key) {
                    Some(m) => {
                        return only(cleared, Some(Request::OpMotion { op: Operator::Move, motion: m, count: 1 }));
                    },
                    None => {},
                }
                let obj = text_object_for(key);
                if (p == 'i' || p == 'a') && obj.is_some() {
                    only(cleared, Some(Request::OpTextObject { op: Operator::Move, inner: p == 'i', obj: obj.unwrap(), count: 1 }))
                } else {
                    only(s, None)
                }
            }
        },
    }
}

fn insert_key_exec(s: KeyState, ctx: &KeyContext, key: char) -> (r: (KeyState, KeyOutcome))
    ensures
        produces(r.0, r.1, insert_key(s, *ctx, key)),
{
    let menu = ctx.completion_menu_open;
    if key == '\x1B' { only(s, Some(Request::SetMode(Mode::Normal))) }
    else if key == '\x7F' || key == '\x08' { only(s, Some(Request::Backspace)) }
    else if key == '\x17' { only(s, Some(Request::InsertModeDeleteWord)) }
    else if key == '\x15' { only(s, Some(Request::InsertModeDeleteLine)) }
    else if key == '\x12' { change_mode(s, Mode::InsertWaitRegister) }
    else if key == '\x19' { only(s, Some(Request::InsertCopyFromLine { offset: -1 })) }
    else if key == '\x05' { only(s, Some(Request::InsertCopyFromLine { offset: 1 })) }
    else if key == '\x14' { only(s, Some(Request::Indent { forward: true })) }
    else if key == '\x04' { only(s, Some(Request::Indent { forward: false })) }
    else if key == '\x16' { change_mode(s, Mode::InsertLiteral) }
    else if key == '\x0B' { change_mode(s, Mode::InsertDigraph1('\0')) }
    else if key == '\x0E' { only(s, Some(if menu { Request::SelectPumNext } else { Request::TriggerCompletion { forward: true } })) }
    else if key == '\x10' { only(s, Some(if menu { Request::SelectPumPrev } else { Request::TriggerCompletion { forward: false } })) }
    else if key == '\x0f' { change_mode(s, Mode::InsertOnce) }
    else if key == '\r' || key == '\n' { only(s, Some(if menu { Request::CommitCompletion } else { Request::NewLine })) }
    else { only(s, Some(Request::InsertChar(key))) }
}

fn replace_key_exec(s: KeyState, ctx: &KeyContext, key: char) -> (r: (KeyState, KeyOutcome))
    ensures
        produces(r.0, r.1, replace_key(s, *ctx, key)),
{
    let cur = ctx.cursor;
    if key == '\x1B' {
        only(s, Some(Request::SetMode(Mode::Normal)))
    } else if key == '\x7F' || key == '\x08' {
        only(s, if cur.col > 0 { Some(Request::CursorMove { row: cur.row, col: cur.col - 1 }) } else { None })
    } else {
        only(s, Some(Request::ReplaceCharUnderCursor(key)))
    }
}

fn cmdline_key_exec(s: KeyState, key: char) -> (r: (KeyState, KeyOutcome))
    ensures
        produces(r.0, r.1, cmdline_key(s, key)),
{
    if key == '\x1B' { only(s, Some(Request::SetMode(Mode::Normal))) }
    else if key == '\x7F' || key == '\x08' { only(s, Some(Request::CmdLineBackspace)) }
    else if key == '\x17' { only(s, Some(Request::CmdLineDeleteWord)) }
    else if key == '\x15' { only(s, Some(Request::CmdLineDeleteLine)) }
    else if key == '\x12' { change_mode(s, Mode::CommandLineWaitRegister) }
    else if key == '\x02' || key == '\x01' { only(s, Some(Request::CmdLineMoveCursorTo { pos: 0 })) }
    else if key == '\x05' { only(s, Some(Request::CmdLineMoveCursorTo { pos: 9999 })) }
    else if key == '\x10' { only(s, Some(Request::CmdLineHistory { forward: false })) }
    else if key == '\x0E' { only(s, Some(Request::CmdLineHistory { forward: true })) }
    else if key == '\t' { only(s, Some(Request::CmdLineTab)) }
    else if key == '\r' || key == '\n' {
        only(s, Some(if s.mode == Mode::CommandLine { Request::ExecuteCommand } else { Request::ExecuteSearch }))
    } else { only(s, Some(Request::CmdLineChar(key))) }
}

/// The mode change `first`, then each character of the key's register
/// typed on the command line or in the buffer.
fn register_steps(ctx: &KeyContext, first: Step, on_cmdline: bool) -> (v: Vec<Step>)
    ensures
        v@ == seq![first] + char_steps(register_chars(*ctx), on_cmdline),
{
    let mut v: Vec<Step> = Vec::new();
    v.push(first);
    let text: Vec<char> = match &ctx.register_text {
        Some(t) => crate::text::chars_of(t.as_str()),
        None => Vec::new(),
    };
    assert(text@ == register_chars(*ctx));
    let mut i: usize = 0;
    while i < text.len()
        invariant
            i <= text.len(),
            v@ == seq![first] + char_steps(text@.take(i as int), on_cmdline),
        decreases text.len() - i,
    {
        let c = text[i];
        v.push(Step::Apply(if on_cmdline { Request::CmdLineChar(c) } else { Request::InsertChar(c) }));
        assert(text@.take(i as int + 1).drop_last() =~= text@.take(i as int));
        i = i + 1;
        assert(v@ =~= seq![first] + char_steps(text@.take(i as int), on_cmdline));
    }
    assert(text@.take(i as int) =~= text@);
    v
}

fn mode_key_exec(s: KeyState, ctx: &KeyContext, key: char) -> (r: (KeyState, KeyOutcome))
    requires
        mode_key_fits(s, *ctx, key),
    ensures
        produces(r.0, r.1, mode_key(s, *ctx, key)),
{
    match s.mode {
        Mode::InsertLiteral => with_steps(
            KeyState { mode: Mode::Insert, ..s }, one_step(Step::SetMode(Mode::Insert)), Some(Request::InsertChar(key))),
        Mode::InsertDigraph1(c1) => if c1 == '\0' {
            only(KeyState { mode: Mode::InsertDigraph1(key), ..s }, None)
        } else {
            with_steps(KeyState { mode: Mode::Insert, ..s }, one_step(Step::SetMode(Mode::Insert)),
                Some(Request::InsertChar(digraph_lookup(c1, key))))
        },
        Mode::InsertOnce => {
            let (next, mut out) = normal_key_exec(s, ctx, key);
            out.steps.push(Step::SetMode(Mode::Insert));
            (KeyState { mode: Mode::Insert, ..next }, out)
        },
        Mode::BlockInsert { .. } => if key == '\x1B' {
            change_mode(s, Mode::Normal)
        } else {
            only(s, Some(Request::InsertChar(key)))
        },
        Mode::Normal => normal_key_exec(s, ctx, key),
        Mode::OperatorPending => normal_key_exec(s, ctx, key),
        Mode::Insert => insert_key_exec(s, ctx, key),
        Mode::Replace => replace_key_exec(s, ctx, key),
        Mode::VirtualReplace => replace_key_exec(s, ctx, key),
        Mode::InsertWaitRegister => with_steps(
            KeyState { mode: Mode::Insert, ..s }, register_steps(ctx, Step::SetMode(Mode::Insert), false), None),
        Mode::Visual(_) => visual_key_exec(s, ctx, key),
        Mode::CommandLine => cmdline_key_exec(s, key),
        Mode::Search => cmdline_key_exec(s, key),
        Mode::CommandLineWaitRegister => with_steps(
            KeyState { mode: Mode::CommandLine, ..s }, register_steps(ctx, Step::SetMode(Mode::CommandLine), true), None),
        Mode::WaitMacroReg => with_steps(
            KeyState { mode: Mode::Normal, ..s }, one_step(Step::SetMode(Mode::Normal)), Some(Request::PlayMacro(key))),
        Mode::WaitReplaceChar => with_steps(
            KeyState { mode: Mode::Normal, ..s }, one_step(Step::SetMode(Mode::Normal)), Some(Request::ReplaceChar(key))),
        Mode::Terminal => only(s, None),
    }
}

impl KeyState {
    /// Normal mode with nothing waiting.
    pub fn new() -> (s: KeyState)
        ensures
            is_idle_normal(s),
            s.pending_register is None,
    {
        KeyState { mode: Mode::Normal, pending_key: None, pending_op: None, pending_count: None, pending_register: None }
    }
}

/// The request that `Step::MoveRightOfCursor` makes: the cursor one column
/// right of where it stands.
pub fn move_right_of(cursor: Cursor) -> (r: Request)
    requires
        cursor.col < usize::MAX,
    ensures
        r == (Request::CursorMove { row: cursor.row, col: (cursor.col + 1) as usize }),
{
    Request::CursorMove { row: cursor.row, col: cursor.col + 1 }
}

/// A state in normal mode with nothing waiting.
pub open spec fn is_idle_normal(s: KeyState) -> bool {
    &&& s.mode == Mode::Normal
    &&& s.pending_key is None
    &&& s.pending_op is None
    &&& s.pending_count is None
}

/// `<C-\><C-N>` asks for normal mode from any mode, and leaves the rest of
/// the state as it was.
pub proof fn law_ctrl_backslash_ctrl_n(s: KeyState, ctx1: KeyContext, ctx2: KeyContext)
    requires
        s.pending_key != Some('\x1C'),
    ensures
        handle_key(s, ctx1, '\x1C').request is None,
        handle_key(s, ctx1, '\x1C').steps.len() == 0,
        handle_key(handle_key(s, ctx1, '\x1C').state, ctx2, '\x0E')
            == just(KeyState { pending_key: None, ..s }, Some(Request::SetMode(Mode::Normal))),
{
}

/// Escape asks for normal mode from insert, replace, visual and command-line
/// modes, and in a block insert changes to normal mode.
pub proof fn law_escape_returns_to_normal(s: KeyState, ctx: KeyContext)
    requires
        s.pending_key is None,
    ensures
        (s.mode == Mode::Insert || s.mode == Mode::Replace || s.mode == Mode::VirtualReplace
            || s.mode is Visual || s.mode == Mode::CommandLine || s.mode == Mode::Search)
            ==> handle_key(s, ctx, '\x1B').request == Some(Request::SetMode(Mode::Normal)),
        s.mode is BlockInsert ==> handle_key(s, ctx, '\x1B') == mode_change(s, Mode::Normal),
{
}

/// A digit from 1 to 9 typed before a motion is the motion's count, and the
/// count is gone afterwards.
pub proof fn law_count_then_motion(s: KeyState, ctx1: KeyContext, ctx2: KeyContext, digit: char, key: char)
    requires
        is_idle_normal(s),
        '1' <= digit <= '9',
        counted_motion(key) is Some,
    ensures
        ({
            let first = handle_key(s, ctx1, digit);
            let second = handle_key(first.state, ctx2, key);
            &&& first.request is None
            &&& second.request == Some(Request::OpMotion {
                op: Operator::Move,
                motion: counted_motion(key)->0,
                count: (digit as u32 - '0' as u32) as u32,
            })
            &&& second.state == s
        }),
{
}

/// An operator key followed by a motion key asks for the operator over the
/// motion once, and leaves the state as it was.
pub proof fn law_operator_then_motion(s: KeyState, ctx1: KeyContext, ctx2: KeyContext, op_key: char, key: char)
    requires
        is_idle_normal(s),
        plain_operator(op_key) is Some,
        operator_motion(key) is Some,
    ensures
        ({
            let first = handle_key(s, ctx1, op_key);
            let second = handle_key(first.state, ctx2, key);
            &&& first.request is None
            &&& second.request == Some(Request::OpMotion {
                op: plain_operator(op_key)->0,
                motion: operator_motion(key)->0,
                count: 1,
            })
            &&& second.state == s
        }),
{
}

/// `dd` asks to delete the current line and `yy` to yank it.
pub proof fn law_doubled_operator(s: KeyState, ctx1: KeyContext, ctx2: KeyContext)
    requires
        is_idle_normal(s),
    ensures
        handle_key(handle_key(s, ctx1, 'd').state, ctx2, 'd').request == Some(Request::DeleteCurrentLine { count: 1 }),
        handle_key(handle_key(s, ctx1, 'y').state, ctx2, 'y').request == Some(Request::YankCurrentLine { count: 1 }),
        handle_key(handle_key(s, ctx1, 'd').state, ctx2, 'd').state == s,
{
}

/// The keys of normal mode that make one request, with nothing waiting but
/// a count: `p` pastes after the cursor and `P` before it, `x` deletes
/// characters and `X` the one before the cursor, `u` undoes and `<C-R>`
/// redoes, `o`/`O` open a line below/above, `i` enters insert mode, `:` the
/// command line, `/` and `?` search mode, `v`/`V`/`<C-V>` the three visual
/// modes, `J` joins lines, `K` asks for hover, `D`/`Y` delete/yank to the end
/// of the line, `n`/`N` repeat the search forward/backward, `*`/`#` search
/// the word under the cursor forward/backward, `%` jumps to the pair, `;`
/// repeats the character search, `.` the last change, `~` switches case, `&`
/// repeats the substitution, `<C-L>` redraws, `<C-^>` goes to the alternate
/// file, `<C-G>` shows the file, `<C-O>`/`<C-I>` go back/forward in the
/// jump list, `<C-E>` scrolls down and `<C-A>` adds; the count is used up.
pub proof fn law_normal_single_key_requests(s: KeyState, ctx: KeyContext)
    requires
        s.mode == Mode::Normal,
        s.pending_key is None,
        s.pending_op is None,
    ensures
        ({
            let n: u32 = match s.pending_count { Some(k) => k, None => 1 };
            let s0 = KeyState { pending_count: None, ..s };
            &&& handle_key(s, ctx, 'p') == just(s0, Some(Request::Paste))
            &&& handle_key(s, ctx, 'P') == just(s0, Some(Request::PasteBefore))
            &&& handle_key(s, ctx, 'x') == just(s0, Some(Request::DeleteCharAtCursor { count: n }))
            &&& handle_key(s, ctx, 'X') == just(s0, Some(Request::Backspace))
            &&& handle_key(s, ctx, 'u') == just(s0, Some(Request::Undo))
            &&& handle_key(s, ctx, '\x12') == just(s0, Some(Request::Redo))
            &&& handle_key(s, ctx, 'o') == just(s0, Some(Request::OpenLine { below: true }))
            &&& handle_key(s, ctx, 'O') == just(s0, Some(Request::OpenLine { below: false }))
            &&& handle_key(s, ctx, 'i') == just(s0, Some(Request::SetMode(Mode::Insert)))
            &&& handle_key(s, ctx, ':') == just(s0, Some(Request::SetMode(Mode::CommandLine)))
            &&& handle_key(s, ctx, '/') == just(s0, Some(Request::SetMode(Mode::Search)))
            &&& handle_key(s, ctx, '?') == just(s0, Some(Request::SetMode(Mode::Search)))
            &&& handle_key(s, ctx, 'v') == just(s0, Some(Request::SetVisualMode(VisualMode::Char)))
            &&& handle_key(s, ctx, 'V') == just(s0, Some(Request::SetVisualMode(VisualMode::Line)))
            &&& handle_key(s, ctx, '\x16') == just(s0, Some(Request::SetVisualMode(VisualMode::Block)))
            &&& handle_key(s, ctx, 'J') == just(s0, Some(Request::ExecuteCommandFromConfig("join")))
            &&& handle_key(s, ctx, 'K') == just(s0, Some(Request::LspHover))
            &&& handle_key(s, ctx, 'D') == just(s0, Some(Request::OpMotion { op: Operator::Delete, motion: Motion::LineEnd, count: n }))
            &&& handle_key(s, ctx, 'Y') == just(s0, Some(Request::OpMotion { op: Operator::Yank, motion: Motion::LineEnd, count: n }))
            &&& handle_key(s, ctx, 'n') == just(s0, Some(Request::SearchNext { forward: true, count: n }))
            &&& handle_key(s, ctx, 'N') == just(s0, Some(Request::SearchNext { forward: false, count: n }))
            &&& handle_key(s, ctx, '*') == just(s0, Some(Request::SearchWordUnderCursor { forward: true, whole_word: true }))
            &&& handle_key(s, ctx, '#') == just(s0, Some(Request::SearchWordUnderCursor { forward: false, whole_word: true }))
            &&& handle_key(s, ctx, '%') == just(s0, Some(Request::JumpToPair))
            &&& handle_key(s, ctx, ';') == just(s0, Some(Request::RepeatLastCharSearch { count: n }))
            &&& handle_key(s, ctx, '.') == just(s0, Some(Request::RepeatLastChange { count: n }))
            &&& handle_key(s, ctx, '~') == just(s0, Some(Request::SwitchCase))
            &&& handle_key(s, ctx, '&') == just(s0, Some(Request::ExecuteCommandFromConfig("&")))
            &&& handle_key(s, ctx, '\x0C') == just(s0, Some(Request::Redraw))
            &&& handle_key(s, ctx, '\x1E') == just(s0, Some(Request::AlternateFile))
            &&& handle_key(s, ctx, '\x07') == just(s0, Some(Request::ExecuteCommandFromConfig("file")))
            &&& handle_key(s, ctx, '\x0f') == just(s0, Some(Request::JumpBack))
            &&& handle_key(s, ctx, '\x09') == just(s0, Some(Request::JumpForward))
            &&& handle_key(s, ctx, '\x05') == just(s0, Some(Request::Scroll { lines: n as i32 }))
            &&& handle_key(s, ctx, '\x01') == just(s0, Some(Request::IncrementNumber { offset: n as i32 }))
        }),
{
}

/// `p` and `P` paste on different sides of the cursor: with nothing
/// waiting, the two keys never ask for the same request.
pub proof fn law_paste_keys_differ(s: KeyState, ctx: KeyContext)
    requires
        s.mode == Mode::Normal,
        s.pending_key is None,
        s.pending_op is None,
    ensures
        handle_key(s, ctx, 'p').request != handle_key(s, ctx, 'P').request,
{
}

/// The motion keys of normal mode, with nothing waiting but a count: `h`,
/// `j`, `k`, `l` move left, down, up and right, `w`/`W`/`b`/`B`/`e`/`E` by
/// words, `$` to the line's end, `(`/`)` by sentences, `{`/`}` by
/// paragraphs, `G` to the end of the buffer, `H`/`M`/`L` to the top,
/// middle and bottom of the window, all counted; `^` to the first
/// character of the line, once. The count is used up.
pub proof fn law_normal_motion_keys(s: KeyState, ctx: KeyContext)
    requires
        s.mode == Mode::Normal,
        s.pending_key is None,
        s.pending_op is None,
    ensures
        ({
            let n: u32 = match s.pending_count { Some(k) => k, None => 1 };
            let s0 = KeyState { pending_count: None, ..s };
            let mv = |m: Motion, c: u32| just(s0, Some(Request::OpMotion { op: Operator::Move, motion: m, count: c }));
            &&& handle_key(s, ctx, 'h') == mv(Motion::Left, n)
            &&& handle_key(s, ctx, 'j') == mv(Motion::Down, n)
            &&& handle_key(s, ctx, 'k') == mv(Motion::Up, n)
            &&& handle_key(s, ctx, 'l') == mv(Motion::Right, n)
            &&& handle_key(s, ctx, 'w') == mv(Motion::WordForward, n)
            &&& handle_key(s, ctx, 'W') == mv(Motion::WordForwardBlank, n)
            &&& handle_key(s, ctx, 'b') == mv(Motion::WordBackward, n)
            &&& handle_key(s, ctx, 'B') == mv(Motion::WordBackwardBlank, n)
            &&& handle_key(s, ctx, 'e') == mv(Motion::WordForwardEnd, n)
            &&& handle_key(s, ctx, 'E') == mv(Motion::WordForwardEndBlank, n)
            &&& handle_key(s, ctx, '$') == mv(Motion::LineEnd, n)
            &&& handle_key(s, ctx, '(') == mv(Motion::SentenceBackward, n)
            &&& handle_key(s, ctx, ')') == mv(Motion::SentenceForward, n)
            &&& handle_key(s, ctx, '{') == mv(Motion::ParagraphBackward, n)
            &&& handle_key(s, ctx, '}') == mv(Motion::ParagraphForward, n)
            &&& handle_key(s, ctx, 'G') == mv(Motion::BufferEnd, n)
            &&& handle_key(s, ctx, 'H') == mv(Motion::WindowTop, n)
            &&& handle_key(s, ctx, 'M') == mv(Motion::WindowMiddle, n)
            &&& handle_key(s, ctx, 'L') == mv(Motion::WindowBottom, n)
            &&& handle_key(s, ctx, '^') == mv(Motion::LineFirstChar, 1)
        }),
{
}

/// The keys after `<C-W>`: `s` splits the window horizontally and `v`
/// vertically, `w`/`j` go to the next window and `W`/`k` to the previous
/// one, `h`/`l` move left/right, `q`/`c` close the window and `o` keeps only
/// it; the prefix and the count are used up.
pub proof fn law_window_keys(s: KeyState, ctx: KeyContext)
    requires
        s.mode == Mode::Normal,
        s.pending_key == Some('\x17'),
        s.pending_op is None,
    ensures
        ({
            let s0 = KeyState { pending_key: None, pending_count: None, ..s };
            &&& handle_key(s, ctx, 's') == just(s0, Some(Request::SplitWindow { vertical: false }))
            &&& handle_key(s, ctx, 'v') == just(s0, Some(Request::SplitWindow { vertical: true }))
            &&& handle_key(s, ctx, 'w') == just(s0, Some(Request::NextWindow))
            &&& handle_key(s, ctx, 'j') == just(s0, Some(Request::NextWindow))
            &&& handle_key(s, ctx, 'W') == just(s0, Some(Request::PrevWindow))
            &&& handle_key(s, ctx, 'k') == just(s0, Some(Request::PrevWindow))
            &&& handle_key(s, ctx, 'h') == just(s0, Some(Request::OpMotion { op: Operator::Move, motion: Motion::Left, count: 1 }))
            &&& handle_key(s, ctx, 'l') == just(s0, Some(Request::OpMotion { op: Operator::Move, motion: Motion::Right, count: 1 }))
            &&& handle_key(s, ctx, 'q') == just(s0, Some(Request::ExecuteCommandFromConfig("close")))
            &&& handle_key(s, ctx, 'c') == just(s0, Some(Request::ExecuteCommandFromConfig("close")))
            &&& handle_key(s, ctx, 'o') == just(s0, Some(Request::ExecuteCommandFromConfig("only")))
        }),
{
}

/// `<C-W>s` and `<C-W>v` typed in normal mode split the window, the first
/// horizontally and the second vertically, and leave nothing waiting.
pub proof fn law_window_split_keys(s: KeyState, ctx1: KeyContext, ctx2: KeyContext)
    requires
        is_idle_normal(s),
    ensures
        ({
            let w = handle_key(s, ctx1, '\x17');
            &&& w.request is None
            &&& handle_key(w.state, ctx2, 's').request == Some(Request::SplitWindow { vertical: false })
            &&& handle_key(w.state, ctx2, 'v').request == Some(Request::SplitWindow { vertical: true })
            &&& handle_key(w.state, ctx2, 's').state == s
            &&& handle_key(w.state, ctx2, 'v').state == s
        }),
{
}

/// The keys after `z`, `Z`, `[` and `]`: `zz`, `zt`, `zb` put the cursor
/// line at the middle, top and bottom of the window (`z<CR>`, `z.`, `z-`
/// the same with the cursor on the first character), `ZZ` writes and
/// quits and `ZQ` quits all; `[[`/`]]` go by sections, `[]`/`][` by section
/// ends, `[(`/`])` and `[{`/`]}` to unclosed brackets and `[d`/`]d` by
/// diagnostics, backward and forward.
pub proof fn law_z_and_bracket_keys(s: KeyState, ctx: KeyContext)
    requires
        s.mode == Mode::Normal,
        s.pending_op is None,
        s.pending_count is None,
    ensures
        ({
            let s0 = KeyState { pending_key: None, ..s };
            let mv = |m: Motion| just(s0, Some(Request::OpMotion { op: Operator::Move, motion: m, count: 1 }));
            &&& s.pending_key == Some('z') ==> {
                &&& handle_key(s, ctx, 'z') == just(s0, Some(Request::CenterCursor))
                &&& handle_key(s, ctx, 't') == just(s0, Some(Request::CursorToTop))
                &&& handle_key(s, ctx, 'b') == just(s0, Some(Request::CursorToBottom))
                &&& handle_key(s, ctx, '\r') == just(s0, Some(Request::CursorToTopWithCR))
                &&& handle_key(s, ctx, '\n') == just(s0, Some(Request::CursorToTopWithCR))
                &&& handle_key(s, ctx, '.') == just(s0, Some(Request::CursorToCenterWithDot))
                &&& handle_key(s, ctx, '-') == just(s0, Some(Request::CursorToBottomWithMinus))
            }
            &&& s.pending_key == Some('Z') ==> {
                &&& handle_key(s, ctx, 'Z') == just(s0, Some(Request::ExecuteCommandFromConfig("x")))
                &&& handle_key(s, ctx, 'Q') == just(s0, Some(Request::ExecuteCommandFromConfig("qa!")))
            }
            &&& s.pending_key == Some('[') ==> {
                &&& handle_key(s, ctx, '[') == mv(Motion::SectionBackward)
                &&& handle_key(s, ctx, ']') == mv(Motion::SectionEndBackward)
                &&& handle_key(s, ctx, '(') == mv(Motion::ParenBackward)
                &&& handle_key(s, ctx, '{') == mv(Motion::BraceBackward)
                &&& handle_key(s, ctx, 'd') == mv(Motion::DiagnosticBackward)
            }
            &&& s.pending_key == Some(']') ==> {
                &&& handle_key(s, ctx, ']') == mv(Motion::SectionForward)
                &&& handle_key(s, ctx, '[') == mv(Motion::SectionEndForward)
                &&& handle_key(s, ctx, ')') == mv(Motion::ParenForward)
                &&& handle_key(s, ctx, '}') == mv(Motion::BraceForward)
                &&& handle_key(s, ctx, 'd') == mv(Motion::DiagnosticForward)
            }
        }),
{
}

/// The keys after `g`: `ga` shows the character, `g&` repeats the
/// substitution on all lines, `gv` reselects, `gd` goes to the definition,
/// `gI` inserts at the first column and `gi` where insert mode was left,
/// `gJ` joins without spaces, `g*`/`g#` search the word under the cursor
/// without word bounds, `gn`/`gN` select the next/previous match; `gg`
/// goes to the first line, `gj`/`gk` down/up, `g0`/`g^`/`g$`/`g_` to the
/// line's start, first and last character, `gm` to its middle, `go` to a
/// byte offset, `ge`/`gE` back to word ends, `g;`/`g,` through the change
/// list; `gu`/`gU`/`g~` wait for a motion to lower, raise or switch case.
pub proof fn law_g_keys(s: KeyState, ctx: KeyContext)
    requires
        s.mode == Mode::Normal,
        s.pending_key == Some('g'),
        s.pending_op is None,
        s.pending_count is None,
    ensures
        ({
            let s0 = KeyState { pending_key: None, ..s };
            let mv = |m: Motion| just(s0, Some(Request::OpMotion { op: Operator::Move, motion: m, count: 1 }));
            &&& handle_key(s, ctx, 'a') == just(s0, Some(Request::ExecuteCommandFromConfig("ascii")))
            &&& handle_key(s, ctx, '&') == just(s0, Some(Request::ExecuteCommandFromConfig("%&")))
            &&& handle_key(s, ctx, 'v') == just(s0, Some(Request::RestoreVisualSelection))
            &&& handle_key(s, ctx, 'd') == just(s0, Some(Request::LspDefinition))
            &&& handle_key(s, ctx, 'I') == just(s0, Some(Request::InsertAtFirstColumn))
            &&& handle_key(s, ctx, 'i') == just(s0, Some(Request::InsertAtLastInsert))
            &&& handle_key(s, ctx, 'J') == just(s0, Some(Request::ExecuteCommandFromConfig("join!")))
            &&& handle_key(s, ctx, '*') == just(s0, Some(Request::SearchWordUnderCursor { forward: true, whole_word: false }))
            &&& handle_key(s, ctx, '#') == just(s0, Some(Request::SearchWordUnderCursor { forward: false, whole_word: false }))
            &&& handle_key(s, ctx, 'n') == just(s0, Some(Request::SelectSearchMatch { forward: true }))
            &&& handle_key(s, ctx, 'N') == just(s0, Some(Request::SelectSearchMatch { forward: false }))
            &&& handle_key(s, ctx, 'g') == mv(Motion::BufferStart)
            &&& handle_key(s, ctx, 'j') == mv(Motion::Down)
            &&& handle_key(s, ctx, 'k') == mv(Motion::Up)
            &&& handle_key(s, ctx, 'm') == mv(Motion::LineMiddle)
            &&& handle_key(s, ctx, 'o') == mv(Motion::BufferByteOffset)
            &&& handle_key(s, ctx, '^') == mv(Motion::LineFirstChar)
            &&& handle_key(s, ctx, '$') == mv(Motion::LineEnd)
            &&& handle_key(s, ctx, '_') == mv(Motion::LineLastChar)
            &&& handle_key(s, ctx, 'e') == mv(Motion::WordBackwardEnd)
            &&& handle_key(s, ctx, 'E') == mv(Motion::WordBackwardEndBlank)
            &&& handle_key(s, ctx, ';') == mv(Motion::PrevChange)
            &&& handle_key(s, ctx, ',') == mv(Motion::NextChange)
            &&& handle_key(s, ctx, 'u') == just(KeyState { pending_op: Some(Operator::ToLower), ..s0 }, None)
            &&& handle_key(s, ctx, 'U') == just(KeyState { pending_op: Some(Operator::ToUpper), ..s0 }, None)
            &&& handle_key(s, ctx, '~') == just(KeyState { pending_op: Some(Operator::SwapCase), ..s0 }, None)
        }),
{
}

/// After an operator, the motion keys `w`, `W`, `b`, `B`, `e`, `E`, `$`
/// and `0` ask for the operator over that motion, counted, and `i`/`a`
/// followed by a text object key ask for the operator over the inner or
/// whole object: `w` a word, `W` a WORD, `(`/`)`/`b` parentheses,
/// `[`/`]` brackets, `{`/`}`/`B` braces, `<`/`>` angle brackets, `'`, `"`
/// and `` ` `` quotes, `s` a sentence, `p` a paragraph.
pub proof fn law_operator_pending_keys(s: KeyState, ctx: KeyContext, op: Operator)
    requires
        s.mode == Mode::Normal,
        s.pending_op == Some(op),
        s.pending_count is None,
    ensures
        ({
            let s0 = KeyState { pending_op: None, ..s };
            let om = |m: Motion| just(s0, Some(Request::OpMotion { op, motion: m, count: 1 }));
            &&& s.pending_key is None ==> {
                &&& handle_key(s, ctx, 'W') == om(Motion::WordForwardBlank)
                &&& handle_key(s, ctx, 'b') == om(Motion::WordBackward)
                &&& handle_key(s, ctx, 'B') == om(Motion::WordBackwardBlank)
                &&& handle_key(s, ctx, 'e') == om(Motion::WordForwardEnd)
                &&& handle_key(s, ctx, 'E') == om(Motion::WordForwardEndBlank)
                &&& handle_key(s, ctx, '$') == om(Motion::LineEnd)
                &&& handle_key(s, ctx, '0') == om(Motion::LineStart)
                &&& handle_key(s, ctx, 'w') == om(Motion::WordForward)
            }
            &&& (s.pending_key == Some('i') || s.pending_key == Some('a')) ==> {
                let inner = s.pending_key == Some('i');
                let s1 = KeyState { pending_op: None, pending_key: None, ..s };
                let to = |o: TextObject| just(s1, Some(Request::OpTextObject { op, inner, obj: o, count: 1 }));
                &&& handle_key(s, ctx, 'w') == to(TextObject::Word)
                &&& handle_key(s, ctx, 'W') == to(TextObject::BigWord)
                &&& handle_key(s, ctx, '(') == to(TextObject::Paren)
                &&& handle_key(s, ctx, ')') == to(TextObject::Paren)
                &&& handle_key(s, ctx, 'b') == to(TextObject::Paren)
                &&& handle_key(s, ctx, '[') == to(TextObject::Bracket)
                &&& handle_key(s, ctx, ']') == to(TextObject::Bracket)
                &&& handle_key(s, ctx, '{') == to(TextObject::Brace)
                &&& handle_key(s, ctx, '}') == to(TextObject::Brace)
                &&& handle_key(s, ctx, 'B') == to(TextObject::Brace)
                &&& handle_key(s, ctx, '<') == to(TextObject::AngleBracket)
                &&& handle_key(s, ctx, '>') == to(TextObject::AngleBracket)
                &&& handle_key(s, ctx, '\'') == to(TextObject::Quote)
                &&& handle_key(s, ctx, '"') == to(TextObject::DoubleQuote)
                &&& handle_key(s, ctx, '`') == to(TextObject::Backtick)
                &&& handle_key(s, ctx, 's') == to(TextObject::Sentence)
                &&& handle_key(s, ctx, 'p') == to(TextObject::Paragraph)
            }
        }),
{
}

/// The keys of insert mode: escape asks for normal mode, backspace
/// (`<BS>`, `<C-H>`) deletes before the cursor, `<C-W>` a word and `<C-U>`
/// the line before the cursor, `<C-Y>`/`<C-E>` copy the character above or
/// below, `<C-T>`/`<C-D>` indent or outdent, `<C-N>`/`<C-P>` complete
/// forward/backward or, with the menu open, select the next/previous item,
/// Enter starts a new line or, with the menu open, takes the item; `<C-R>`,
/// `<C-V>`, `<C-K>` and `<C-O>` wait for a register, a literal, a digraph
/// or one normal-mode command; any other key is typed.
pub proof fn law_insert_keys(s: KeyState, ctx: KeyContext, c: char)
    requires
        s.mode == Mode::Insert,
        s.pending_key is None,
    ensures
        ({
            let menu = ctx.completion_menu_open;
            &&& handle_key(s, ctx, '\x1B') == just(s, Some(Request::SetMode(Mode::Normal)))
            &&& handle_key(s, ctx, '\x7F') == just(s, Some(Request::Backspace))
            &&& handle_key(s, ctx, '\x08') == just(s, Some(Request::Backspace))
            &&& handle_key(s, ctx, '\x17') == just(s, Some(Request::InsertModeDeleteWord))
            &&& handle_key(s, ctx, '\x15') == just(s, Some(Request::InsertModeDeleteLine))
            &&& handle_key(s, ctx, '\x19') == just(s, Some(Request::InsertCopyFromLine { offset: -1i32 }))
            &&& handle_key(s, ctx, '\x05') == just(s, Some(Request::InsertCopyFromLine { offset: 1i32 }))
            &&& handle_key(s, ctx, '\x14') == just(s, Some(Request::Indent { forward: true }))
            &&& handle_key(s, ctx, '\x04') == just(s, Some(Request::Indent { forward: false }))
            &&& handle_key(s, ctx, '\x0E').request == Some(if menu { Request::SelectPumNext } else { Request::TriggerCompletion { forward: true } })
            &&& handle_key(s, ctx, '\x10').request == Some(if menu { Request::SelectPumPrev } else { Request::TriggerCompletion { forward: false } })
            &&& handle_key(s, ctx, '\r').request == Some(if menu { Request::CommitCompletion } else { Request::NewLine })
            &&& handle_key(s, ctx, '\n').request == Some(if menu { Request::CommitCompletion } else { Request::NewLine })
            &&& handle_key(s, ctx, '\x12').state.mode == Mode::InsertWaitRegister
            &&& handle_key(s, ctx, '\x16').state.mode == Mode::InsertLiteral
            &&& handle_key(s, ctx, '\x0B').state.mode == Mode::InsertDigraph1('\0')
            &&& handle_key(s, ctx, '\x0f').state.mode == Mode::InsertOnce
            &&& (('a' <= c <= 'z') || ('A' <= c <= 'Z') || ('0' <= c <= '9') || c == ' ')
                ==> handle_key(s, ctx, c) == just(s, Some(Request::InsertChar(c)))
        }),
{
}

/// The keys of the command line: escape asks for normal mode, backspace
/// deletes a character, `<C-W>` a word, `<C-U>` the line; `<C-B>`/`<C-A>`
/// go to its start and `<C-E>` to its end; `<C-P>`/`<C-N>` go back and
/// forward in the history; Tab completes; Enter runs the command (or, in
/// search mode, the search); any other key is typed.
pub proof fn law_cmdline_keys(s: KeyState, ctx: KeyContext, c: char)
    requires
        s.mode == Mode::CommandLine || s.mode == Mode::Search,
        s.pending_key is None,
    ensures
        handle_key(s, ctx, '\x1B') == just(s, Some(Request::SetMode(Mode::Normal))),
        handle_key(s, ctx, '\x7F') == just(s, Some(Request::CmdLineBackspace)),
        handle_key(s, ctx, '\x08') == just(s, Some(Request::CmdLineBackspace)),
        handle_key(s, ctx, '\x17') == just(s, Some(Request::CmdLineDeleteWord)),
        handle_key(s, ctx, '\x15') == just(s, Some(Request::CmdLineDeleteLine)),
        handle_key(s, ctx, '\x02') == just(s, Some(Request::CmdLineMoveCursorTo { pos: 0 })),
        handle_key(s, ctx, '\x01') == just(s, Some(Request::CmdLineMoveCursorTo { pos: 0 })),
        handle_key(s, ctx, '\x05') == just(s, Some(Request::CmdLineMoveCursorTo { pos: 9999 })),
        handle_key(s, ctx, '\x10') == just(s, Some(Request::CmdLineHistory { forward: false })),
        handle_key(s, ctx, '\x0E') == just(s, Some(Request::CmdLineHistory { forward: true })),
        handle_key(s, ctx, '\t') == just(s, Some(Request::CmdLineTab)),
        s.mode == Mode::CommandLine ==> handle_key(s, ctx, '\r') == just(s, Some(Request::ExecuteCommand)),
        s.mode == Mode::Search ==> handle_key(s, ctx, '\r') == just(s, Some(Request::ExecuteSearch)),
        handle_key(s, ctx, '\x12').state.mode == Mode::CommandLineWaitRegister,
        (('a' <= c <= 'z') || ('A' <= c <= 'Z') || ('0' <= c <= '9') || c == ' ')
            ==> handle_key(s, ctx, c) == just(s, Some(Request::CmdLineChar(c))),
{
}

/// The keys of visual mode with nothing waiting: the motions `w`, `W`,
/// `b`, `B`, `e`, `E`, `0`, `$`, `^`, `G`, `(`, `)`, `{`, `}` move once;
/// `d`/`x`, `y`, `c`, `u`, `U`, `~`, `>`, `<` act on the selection (delete,
/// yank, change, lower, upper, switch case, indent, outdent); `I`/`A` start
/// a block insert before/after it; `n`/`N` repeat the search.
pub proof fn law_visual_keys(s: KeyState, ctx: KeyContext)
    requires
        s.mode is Visual,
        s.pending_key is None,
    ensures
        ({
            let mv = |m: Motion| just(s, Some(Request::OpMotion { op: Operator::Move, motion: m, count: 1 }));
            let sel = |o: Operator| just(s, Some(Request::OpVisualSelection(o)));
            &&& handle_key(s, ctx, 'w') == mv(Motion::WordForward)
            &&& handle_key(s, ctx, 'W') == mv(Motion::WordForwardBlank)
            &&& handle_key(s, ctx, 'b') == mv(Motion::WordBackward)
            &&& handle_key(s, ctx, 'B') == mv(Motion::WordBackwardBlank)
            &&& handle_key(s, ctx, 'e') == mv(Motion::WordForwardEnd)
            &&& handle_key(s, ctx, 'E') == mv(Motion::WordForwardEndBlank)
            &&& handle_key(s, ctx, '0') == mv(Motion::LineStart)
            &&& handle_key(s, ctx, '$') == mv(Motion::LineEnd)
            &&& handle_key(s, ctx, '^') == mv(Motion::LineFirstChar)
            &&& handle_key(s, ctx, 'G') == mv(Motion::BufferEnd)
            &&& handle_key(s, ctx, '(') == mv(Motion::SentenceBackward)
            &&& handle_key(s, ctx, ')') == mv(Motion::SentenceForward)
            &&& handle_key(s, ctx, '{') == mv(Motion::ParagraphBackward)
            &&& handle_key(s, ctx, '}') == mv(Motion::ParagraphForward)
            &&& handle_key(s, ctx, 'd') == sel(Operator::Delete)
            &&& handle_key(s, ctx, 'x') == sel(Operator::Delete)
            &&& handle_key(s, ctx, 'y') == sel(Operator::Yank)
            &&& handle_key(s, ctx, 'c') == sel(Operator::Change)
            &&& handle_key(s, ctx, 'u') == sel(Operator::ToLower)
            &&& handle_key(s, ctx, 'U') == sel(Operator::ToUpper)
            &&& handle_key(s, ctx, '~') == sel(Operator::SwapCase)
            &&& handle_key(s, ctx, '>') == sel(Operator::Indent)
            &&& handle_key(s, ctx, '<') == sel(Operator::Outdent)
            &&& handle_key(s, ctx, 'I') == just(s, Some(Request::BlockInsert { append: false }))
            &&& handle_key(s, ctx, 'A') == just(s, Some(Request::BlockInsert { append: true }))
            &&& handle_key(s, ctx, 'n') == just(s, Some(Request::SearchNext { forward: true, count: 1 }))
            &&& handle_key(s, ctx, 'N') == just(s, Some(Request::SearchNext { forward: false, count: 1 }))
        }),
{
}

/// Whether `c` is a hexadecimal digit, of either case.
pub open spec fn is_hex_digit(c: char) -> bool {
    ('0' <= c <= '9') || ('a' <= c <= 'f') || ('A' <= c <= 'F')
}

/// The value of a hexadecimal digit.
pub open spec fn hex_digit_value(c: char) -> int {
    if '0' <= c <= '9' {
        c as int - '0' as int
    } else if 'a' <= c <= 'f' {
        c as int - 'a' as int + 10
    } else {
        c as int - 'A' as int + 10
    }
}

/// The number that at most two characters spell in base 16, an optional
/// `+` before the digits; `None` where they spell none.
pub open spec fn hex_byte(h: Seq<char>) -> Option<u8> {
    let d = if h.len() > 0 && h[0] == '+' { h.skip(1) } else { h };
    if d.len() == 1 && is_hex_digit(d[0]) {
        Some(hex_digit_value(d[0]) as u8)
    } else if d.len() == 2 && is_hex_digit(d[0]) && is_hex_digit(d[1]) {
        Some((16 * hex_digit_value(d[0]) + hex_digit_value(d[1])) as u8)
    } else {
        None
    }
}

/// Keys written with escapes: `\xNN` is the character with code `NN` (the
/// two characters after `x` are taken whatever they are, and dropped if
/// they are no number), `\n` a newline, `\r` a carriage return; any other
/// character stands for itself.
pub open spec fn decoded_keys(s: Seq<char>) -> Seq<char>
    decreases s.len(),
{
    if s.len() == 0 {
        Seq::empty()
    } else if s[0] == '\\' && s.len() >= 2 && s[1] == 'x' {
        let end: int = if s.len() >= 4 { 4 } else { s.len() as int };
        let rest = decoded_keys(s.skip(end));
        match hex_byte(s.subrange(2, end)) {
            Some(v) => seq![v as char] + rest,
            None => rest,
        }
    } else if s[0] == '\\' && s.len() >= 2 && s[1] == 'n' {
        seq!['\n'] + decoded_keys(s.skip(2))
    } else if s[0] == '\\' && s.len() >= 2 && s[1] == 'r' {
        seq!['\r'] + decoded_keys(s.skip(2))
    } else {
        seq![s[0]] + decoded_keys(s.skip(1))
    }
}

fn hex_digit(c: char) -> (r: Option<u32>)
    ensures
        r is Some <==> is_hex_digit(c),
        r is Some ==> r->0 == hex_digit_value(c) && r->0 < 16,
{
    let k: u32 = c as u32;
    if 48 <= k && k <= 57 {
        Some(k - 48)
    } else if 97 <= k && k <= 102 {
        Some(k - 97 + 10)
    } else if 65 <= k && k <= 70 {
        Some(k - 65 + 10)
    } else {
        None
    }
}

/// The number spelled by `v[start..end]` in base 16, as `hex_byte`.
fn parse_hex_byte(v: &Vec<char>, start: usize, end: usize) -> (r: Option<u8>)
    requires
        start <= end <= v.len(),
        end - start <= 2,
    ensures
        r == hex_byte(v@.subrange(start as int, end as int)),
{
    let ghost h = v@.subrange(start as int, end as int);
    let mut from = start;
    if from < end && v[from] == '+' {
        from = from + 1;
    }
    let ghost d = if h.len() > 0 && h[0] == '+' { h.skip(1) } else { h };
    assert(d =~= v@.subrange(from as int, end as int));
    if end - from == 1 {
        match hex_digit(v[from]) {
            Some(x) => Some(x as u8),
            None => None,
        }
    } else if end - from == 2 {
        match (hex_digit(v[from]), hex_digit(v[from + 1])) {
            (Some(x), Some(y)) => Some((16 * x + y) as u8),
            _ => None,
        }
    } else {
        None
    }
}

proof fn lemma_decoded_step(s: Seq<char>, i: int, k: int)
    requires
        0 <= i,
        0 < k,
        i + k <= s.len(),
    ensures
        s.skip(i).skip(k) =~= s.skip(i + k),
{
}

/// Decodes the escapes of keys given as text, as `decoded_keys` says.
pub fn decode_key_escapes(keys: &str) -> (r: String)
    ensures
        r@ == decoded_keys(keys@),
{
    let cs = crate::text::chars_of(keys);
    let mut out: Vec<char> = Vec::new();
    let mut i: usize = 0;
    assert(out@ + decoded_keys(cs@.skip(0)) =~= decoded_keys(cs@)) by {
        assert(cs@.skip(0) =~= cs@);
    }
    while i < cs.len()
        invariant
            i <= cs.len(),
            out@ + decoded_keys(cs@.skip(i as int)) == decoded_keys(cs@),
        decreases cs.len() - i,
    {
        let ghost t = cs@.skip(i as int);
        let c = cs[i];
        let escape = c == '\\' && i + 1 < cs.len();
        if escape && cs[i + 1] == 'x' {
            let end: usize = if cs.len() - i >= 4 { i + 4 } else { cs.len() };
            proof {
                lemma_decoded_step(cs@, i as int, (end - i) as int);
                assert(t.subrange(2, (end - i) as int) =~= cs@.subrange(i + 2, end as int));
            }
            match parse_hex_byte(&cs, i + 2, end) {
                Some(v) => {
                    out.push(v as char);
                },
                None => {},
            }
            i = end;
        } else if escape && (cs[i + 1] == 'n' || cs[i + 1] == 'r') {
            proof { lemma_decoded_step(cs@, i as int, 2); }
            out.push(if cs[i + 1] == 'n' { '\n' } else { '\r' });
            i = i + 2;
        } else {
            proof { lemma_decoded_step(cs@, i as int, 1); }
            out.push(c);
            i = i + 1;
        }
        assert(out@ + decoded_keys(cs@.skip(i as int)) =~= decoded_keys(cs@));
    }
    crate::text::string_from_chars(&out)
}

/// Turns keys into requests.
pub struct KeyProcessor;

impl KeyProcessor {
    pub fn new() -> KeyProcessor {
        KeyProcessor
    }

    /// Handles one key: updates the state and says what the editor is to
    /// do, the steps first and then the request, if any.
    pub fn process_key(&self, state: &mut KeyState, ctx: &KeyContext, key: char) -> (out: KeyOutcome)
        requires
            key_fits(*old(state), *ctx, key),
        ensures
            produces(*final(state), out, handle_key(*old(state), *ctx, key)),
    {
        let s = *state;
        let after_ctrl_backslash = match s.pending_key { Some(c) => c == '\x1C', None => false };
        let (next, out) = if after_ctrl_backslash {
            let s1 = KeyState { pending_key: None, ..s };
            if key == '\x0E' {
                only(s1, Some(Request::SetMode(Mode::Normal)))
            } else {
                mode_key_exec(s1, ctx, key)
            }
        } else if key == '\x1C' {
            only(KeyState { pending_key: Some('\x1C'), ..s }, None)
        } else {
            mode_key_exec(s, ctx, key)
        };
        *state = next;
        out
    }
}

} // verus!
