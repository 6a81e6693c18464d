//! A compiler and matcher for route patterns such as
//! `/user/{id}?sort={field}(/extra)`.
//!
//! A pattern is compiled once, by [`parse_str_and_optimize_tokens`], into a
//! sequence of [`MatcherToken`]s: literals, captures and optional groups.
//! [`match_route`] then decides whether a route is described by the tokens,
//! and returns the values of the captures as [`Captures`].
//!
//! The modules, from the leaves up:
//!
//! - [`text`]: strings read by character, and decimal numerals;
//! - [`token`]: the tokens and their models;
//! - [`parser`]: the grammar of patterns and the tokenizer;
//! - [`token_optimizer`]: from the tokens of the tokenizer to matcher tokens;
//! - [`captures`]: the captured values;
//! - [`matcher`]: matching tokens against a route.
//!
//! Three modules state what holds of compiling and matching together:
//!
//! - [`idempotence`]: optimizing optimized tokens changes nothing;
//! - [`literal_patterns`]: a pattern without captures matches the text it
//!   describes;
//! - [`round_trip`]: a route made by filling values into the captures of a
//!   pattern is matched, and gives the values back.
pub mod captures;
pub mod idempotence;
pub mod literal_patterns;
pub mod matcher;
pub mod parser;
pub mod round_trip;
pub mod text;
pub mod token;
pub mod token_optimizer;

pub use captures::Captures;
pub use matcher::match_route;
pub use parser::error::{ErrorContext, ParseError};
pub use token::{Capture, CaptureOrMatch, CaptureVariant, MatcherToken, RouteParserToken};
pub use token_optimizer::{optimize_tokens, parse_str_and_optimize_tokens};
