//! A command-line argument parsing engine.
//!
//! An application declares a set of destination variables, binds options,
//! positional arguments and environment-variable fallbacks to them, and then
//! resolves a raw token list against those declarations.  Resolution updates
//! the destinations in place and reports success, a request to print help,
//! an explicit early exit, or a descriptive parse error.

pub mod action;
pub mod convert;
pub mod engine;
pub mod help;
pub mod laws;
pub mod parser;
pub mod tokens;
pub mod usage;

pub use action::{
    Action, Collect, DecrBy, DestKind, DestValue, FlagOp, IFlagAction, IncrBy, List, Parse,
    ParseCollect, ParseList, ParseOption, ParseResult, Print, PushConst, Store, StoreConst,
    StoreFalse, StoreOption, StoreTrue, TypedAction, action_compat, kind_of,
};
pub use convert::{FromCommandLine, format_bool, format_int, parse_bool, parse_int};
pub use help::{HelpAction, wrap_text};
pub use parser::{ArgumentParser, Ref, Var};
pub use tokens::ArgKind;
