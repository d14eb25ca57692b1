use vstd::prelude::*;
use vstd::string::StringExecFns;

verus! {

#[verifier::external_type_specification]
#[verifier::external_body]
pub struct ExIoError(std::io::Error);

/// The errors of editor operations.
#[derive(Debug)]
pub enum NvimError {
    /// An error of the operating system.
    Io(std::io::Error),
    /// A buffer operation failed (such as a line number out of range).
    Buffer(String),
    /// A window operation failed.
    Window(String),
    /// A request was malformed.
    Api(String),
    /// The script runtime failed.
    Lua(String),
    /// The buffer may not be changed.
    ReadOnly,
}

/// `<std::io::Error as Display>::fmt`: the error's message. Nothing is
/// stated of the text: it comes from the operating system.
#[verifier::external_body]
fn io_error_text(e: &std::io::Error) -> String {
    format!("{}", e)
}

/// The text that introduces each kind of error, before its message.
pub open spec fn error_prefix(e: NvimError) -> Seq<char> {
    match e {
        NvimError::Io(_) => "I/O error: "@,
        NvimError::Buffer(_) => "Buffer error: "@,
        NvimError::Window(_) => "Window error: "@,
        NvimError::Api(_) => "API error: "@,
        NvimError::Lua(_) => "Lua error: "@,
        NvimError::ReadOnly => "Error: Buffer is readonly"@,
    }
}

/// The message that an error carries, where it carries one of its own.
pub open spec fn error_detail(e: NvimError) -> Seq<char> {
    match e {
        NvimError::Buffer(m) => m@,
        NvimError::Window(m) => m@,
        NvimError::Api(m) => m@,
        NvimError::Lua(m) => m@,
        _ => Seq::empty(),
    }
}

impl NvimError {
    /// The error as a line of text: the kind, then the message.
    pub fn message(&self) -> (s: String)
        ensures
            !(self is Io) ==> s@ == error_prefix(*self) + error_detail(*self),
            self is Io ==> s@.take(error_prefix(*self).len() as int) == error_prefix(*self),
    {
        let mut s = String::new();
        match self {
            NvimError::Io(e) => {
                s.append("I/O error: ");
                let t = io_error_text(e);
                let ghost before = s@;
                s.append(t.as_str());
                assert(s@.take(before.len() as int) =~= before);
            },
            NvimError::Buffer(m) => {
                s.append("Buffer error: ");
                s.append(m.as_str());
            },
            NvimError::Window(m) => {
                s.append("Window error: ");
                s.append(m.as_str());
            },
            NvimError::Api(m) => {
                s.append("API error: ");
                s.append(m.as_str());
            },
            NvimError::Lua(m) => {
                s.append("Lua error: ");
                s.append(m.as_str());
            },
            NvimError::ReadOnly => {
                s.append("Error: Buffer is readonly");
                assert(s@ =~= error_prefix(*self) + error_detail(*self));
            },
        }
        s
    }
}

impl From<std::io::Error> for NvimError {
    fn from(err: std::io::Error) -> (r: NvimError) {
        NvimError::Io(err)
    }
}

impl vstd::std_specs::convert::FromSpecImpl<std::io::Error> for NvimError {
    open spec fn obeys_from_spec() -> bool {
        true
    }

    open spec fn from_spec(v: std::io::Error) -> NvimError {
        NvimError::Io(v)
    }
}

} // verus!
