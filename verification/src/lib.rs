//! Compiles filter lists in the EasyList syntax into content-blocking rules.
//!
//! The pipeline runs from text to rules:
//!
//! - `parse` classifies each line and parses network and cosmetic filters
//!   (`options` reads the option list of a network filter, `hosts` the lines
//!   of a hosts file);
//! - `filter_set` collects the filters of all documents, each once, in the
//!   fingerprint order of `model`;
//! - `optimizer` merges the filters that differ in their domain sets alone
//!   and drops the filters that another filter covers;
//! - `emitter` turns each filter into a rule, orders the rules so that an
//!   exception follows what it overrides, and applies the ceiling on the
//!   number of rules;
//! - `compile` puts these together and reports, line by line, what it left
//!   out.
//!
//! Every function is verified against its contract, and `laws` proves what
//! holds of every compilation: a document taken twice changes nothing, the
//! order of the documents does not matter, and the optimizer changes nothing
//! in what is matched.
//!
//! One thing is taken on trust. The URL pattern of a rule, in the syntax of
//! the target, comes from the `adblock` crate: `emitter::url_filter_of` names
//! what that crate gives for a pattern, and nothing is proved of its
//! characters.

pub mod compile;
pub mod domains;
pub mod emitter;
pub mod filter;
pub mod filter_set;
pub mod hosts;
pub mod laws;
pub mod model;
pub mod optimizer;
pub mod options;
pub mod order;
pub mod parse;
pub mod text;
