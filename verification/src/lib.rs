//! A compile-time-style macro dispatcher, modelled as a verified token
//! rewriter.
//!
//! An item declaration (an `enum`, `struct` or `trait`), given as a sequence
//! of token trees, may carry attribute blocks.  Ordinary attributes and
//! derive entries pass through unchanged; each derive entry whose name ends
//! with a `!` marker is collected as a separate macro invocation that
//! receives the entry's arguments (normalized to empty parentheses when
//! absent) together with the bare item: its visibility, keyword and body,
//! with no attributes attached.
//!
//! [`expand`](expand::expand) performs the whole split and returns an
//! [`Expansion`](expand::Expansion): the synthesized standard-derive list,
//! the passed-through attributes, the macro invocations in source order, and
//! the item shell they all share.

pub mod derive;
pub mod emit;
pub mod expand;
pub mod item;
pub mod laws;
pub mod text;
pub mod token;

pub use derive::DeriveEntry;
pub use derive::MacroEntry;
pub use emit::emitted_item;
pub use emit::invocation_tokens;
pub use emit::shell_tokens;
pub use expand::ExpandError;
pub use expand::Expansion;
pub use expand::expand;
pub use item::ItemShell;
pub use item::Kw;
pub use item::Vis;
pub use text::tokens_text;
pub use text::vis_text;
pub use token::Delim;
pub use token::Tree;
