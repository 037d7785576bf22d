//! Looks up community-curated usage snippets for shell commands and lays them out for a
//! terminal. The library holds the decisions: which request to make, how to order and
//! merge the records that come back, how colour, paging and theme resolve, and what to
//! do after each step. Network, terminal and argument handling are left to the caller.

pub mod cli;
pub mod config;
pub mod formatter;
pub mod ranking;
pub mod text;

pub use cli::{Action, Cli, FetchError, Mode, SearchRecord};
pub use config::{Config, Pager, SyntaxHighlight};
pub use ranking::{rank, LookupRecord};
pub use text::{decimal, is_blank};
