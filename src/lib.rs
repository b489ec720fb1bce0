//! Verified core of a `#[log]` function attribute: the directive parser,
//! the template scanner and the body rewriter.

pub mod config;
pub mod fmt_args;
pub mod fn_processor;
pub mod grammar;

pub use config::{Config, ConfigError, MetaArg, Severity};
pub use fmt_args::{FmtArg, FmtArgs};
pub use grammar::Piece;
pub use fn_processor::{
    capitalize, FieldSpec, FieldValue, FnProcessor, LogCall, LogField, Stmt, StmtSpec,
};
