//! A command-line option parser: declare the options, flags and sub-commands a
//! program accepts, tokenize the argument vector, validate the tokens against
//! the declared grammar, and read back per-option occurrence counts and values
//! through plain index handles.

pub mod context;
pub mod errors;
pub mod flags;
pub mod laws;
pub mod model;
pub mod registry;
pub mod token;
pub mod value;

pub use context::{Cmd, CmdRes, Context, Opt, OptDecl, OptGroup};
pub use errors::ParseError;
pub use flags::Flags;
pub use registry::{LocalContext, OptEntry};
pub use token::RawArg;
pub use value::OptValue;
