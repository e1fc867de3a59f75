//! A declarative command-line token classifier.
//!
//! A [`Parser`] describes the flags (marker-prefixed, optionally carrying a
//! single option value) and positional arguments a program accepts.  Its
//! `parse` method walks a raw token sequence once, left to right, and either
//! produces a [`ParsedArgs`] record, a help request, or a validation failure
//! paired with the rendered usage text.  The caller owns all input and output
//! and decides how to display text or terminate.

mod laws;
mod model;
mod parse;
mod text;
mod usage;

pub use laws::lemma_duplicate_argument_rejected;
pub use laws::lemma_duplicate_argument_yields_duplicate_argument;
pub use laws::lemma_duplicate_flag_rejected;
pub use laws::lemma_duplicate_flag_yields_duplicate_flag;
pub use laws::lemma_unknown_argument_rejected;
pub use laws::lemma_unknown_argument_yields_unknown_argument;
pub use laws::lemma_unknown_flag_rejected;
pub use laws::lemma_unknown_flag_yields_unknown_flag;
pub use laws::lemma_value_after_zero_slot_flag_refused;
pub use laws::lemma_zero_slot_flag_records_empty_value;
pub use laws::success_args;
pub use laws::success_flags;
pub use model::Argument;
pub use model::ArgumentView;
pub use model::Flag;
pub use model::FlagView;
pub use model::Parser;
pub use model::ParserView;
pub use model::create_arg;
pub use model::create_flag;
pub use model::create_parser;
pub use model::distinct_titles;
pub use parse::ErrorKind;
pub use parse::MachState;
pub use parse::ParseError;
pub use parse::ParseOutcome;
pub use parse::ParsedArgs;
pub use parse::SpecMode;
pub use parse::SpecOutcome;
pub use parse::outcome_matches;
pub use parse::spec_parse;
pub use text::is_flag_token;
pub use text::lower;
pub use text::lower_char;
pub use text::starts_marker;
pub use usage::spec_usage;
