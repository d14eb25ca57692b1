use vstd::prelude::*;

pub mod charset;
pub mod math;
pub mod memline;
pub mod text;
pub mod undo;
pub mod strings;
pub mod regexp;
pub mod terminal;
pub mod grid;
pub mod diff;
pub mod assoc;
pub mod keymap;
pub mod extmark;
pub mod spell;
pub mod syntax;
pub mod window;
pub mod error;
pub mod buffer;
pub mod textobj;
pub mod state;
pub mod event_loop;
pub mod session;
pub mod shada;
pub mod rpc;
pub mod request;
pub mod key_processor;
pub mod lsp;
pub mod search;
pub mod edit;
pub mod screen;
pub mod statusline;
pub mod excmd;
pub mod options;
pub mod autocmd;
pub mod csi;
pub mod editor;
pub mod lsp_reply;
