//! Core of a command palette widget: a fuzzy-match ranking engine, an
//! asynchronous query lifecycle with staleness protection, and the
//! merge/selection state machine that drives the result list.
//!
//! The palette presents a searchable list of [`types::CommandPaletteItem`]s.
//! Matching is done by one of two interchangeable fuzzy back-ends, or by a
//! caller-supplied strategy implementing [`types::CommandMatcher`] — such a
//! strategy is itself verified code, since the state machine's guarantees
//! rest on the matcher contract.  The [`state::CommandPaletteState`] machine
//! owns the current query, the ranked and truncated result list, and the
//! selection.

pub mod matcher;
pub mod order;
pub mod presence;
pub mod ranges;
pub mod rows;
pub mod state;
pub mod text;
pub mod theme;
pub mod types;
