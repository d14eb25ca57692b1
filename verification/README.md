# rneovim_core

The core of a small Vim-like editor, written in Verus: every function in
`src/` carries a contract that Verus proves.

- `memline` — the lines of a buffer in a B-tree of line blocks.
- `undo` — the undo history, a tree of states with grouped changes.
- `buffer`, `textobj` — buffers: editing, undo and redo of edits, marks,
  and the text objects and motions (words, sentences, paragraphs, sections,
  brackets, quotes, character search).
- `extmark` — extended marks that move with the text.
- `keymap` — key mappings, resolved by longest prefix.
- `diff` — a line diff by longest common subsequence.
- `grid`, `terminal`, `syntax` — the screen grid and its escape codes, a
  parser of terminal escape sequences, regex-based syntax highlighting.
- `spell`, `strings`, `regexp`, `charset`, `math`, `text` — spell checking,
  string helpers, pattern conversion, character classes, integer helpers.
- `key_processor`, `request` — the key state machine of each mode: from a
  key and what waits before it to the requests the editor carries out.
- `search`, `edit`, `excmd` — buffer search, `<C-A>`/`<C-X>` on numbers,
  abbreviations and block inserts, and the parsing and decisions of Ex
  commands.
- `options`, `autocmd` — the option table with its defaults and runtime
  path, and which autocommands fire for an event.
- `screen`, `statusline` — window borders and the status line.
- `lsp`, `lsp_reply` — framing of language-server messages, and what a
  reply asks of the editor (sending `initialized`, going to a definition).
- `editor` — the editor's state (buffers, tab pages and windows, the
  grid, the completion menu, the command line and its history, the
  messages, the mode) and the requests it carries out: window splits and
  moves, floating windows, resizing, scrolling and mouse clicks, the
  completion menu's selection, cursor moves and motions within the text,
  `zz`/`zt`/`zb`, typed text with abbreviations, new lines, `o`/`O`, `x`
  and `dd` with a count, `r`, backspace, `<C-U>`, undo and redo, indenting,
  `<C-A>`/`<C-X>`, setting and jumping to marks, entering visual mode,
  editing the command line and its history and running it, the undo
  groups that changes of mode open and close. Ex commands: tab pages,
  buffer switching and `:enew`, `:undo`, `:redo`, `:join`, `:ascii`,
  `:marks`, `:jumps`, `:ls`, `:echomsg`, `:messages` and `:quit`; the
  commands that write files, read the environment or run scripts are
  refused with an error, and the rest (such as `:set`) are accepted and
  do nothing. The buffer and window calls of the editor's API: reading
  and replacing ranges of lines, reading and moving a window's cursor by
  id, setting and reading extended marks. Requests that the state does
  not carry out are refused with an error and leave it as it was.
- `csi` — the terminal sequences after `ESC [`: arrow keys and SGR mouse
  reports.
- `window`, `state`, `event_loop`, `error`, and small data types.

`app/` is the program around the library: files, the terminal, the event
loop's channel, the swap file, the serialised forms of session data, the
language-server process, and a small driver that feeds keys through the
key processor into the editor state.

Not part of this project: the Lua runtime and its API, plugins and
autocommand callbacks, tree-sitter, the clipboard, jobs and terminals,
the expression evaluator, the request handlers beyond those listed under
`editor` (operators over motions and text objects, yanks and puts, which
need the registers, the motions that search the text,
visual-mode operations, macros, search), and the Ex commands that read or
write files or run scripts.

The laws that the library states are proof functions named `law_*`; for
example `buffer::law_undo_all_reverts` says that undoing a group of changes
that applied gives back the lines it started from, and
`key_processor::law_ctrl_backslash_ctrl_n` that `<C-\><C-N>` asks for normal
mode from any mode.
