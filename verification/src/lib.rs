//! # Expression Rewriting System
//!
//! The Expression Rewriting System provides the tools to create and
//! transform expressions based on patterns and rewriting rules.
//!
//! An [`Expression`] is a tree of atoms and lists, written as an
//! S-expression such as `(x (y z))`. The other kinds of expression are the
//! wildcards `_`, `__` and `___` and the variables `x_`, `x__` and `x___`,
//! which stand in a pattern for one element, for one or more elements and
//! for zero or more elements.
//!
//! Matching an expression against a pattern ([`Match`]) gives the bindings of
//! the pattern's variables; binding ([`Bind`]) puts them in place of the atoms
//! of that name in a template. [`Expression::replace`],
//! [`Expression::replace_all`] and [`Expression::replace_repeated`] do both,
//! at the root, all over the tree, and until nothing changes.
//!
//! Every function states what it returns over a mathematical model of the
//! expressions, [`term::Term`], and is proved to return it. Beside the
//! functions stand the laws that hold of them:
//!
//! - a subject matches a pattern exactly where some assignment of the
//!   pattern's variables makes the pattern the subject, and binding the
//!   pattern by the bindings of the match gives the subject again
//!   ([`assignment`]);
//! - a sequence variable takes the shortest run that lets the rest match
//!   ([`matching::first_fit_is_least`]);
//! - splicing a run of `k` elements into a list makes the list longer by
//!   `k - 1` ([`binding::spliced_length`]);
//! - nothing is replaced where nothing matches, the same arguments give the
//!   same replacement, and what repeated rewriting returns is a fixpoint
//!   ([`rewriting`]);
//! - the text of an expression reads back as that expression
//!   ([`round_trip`]), and no text is read with an internal error
//!   ([`grammar::parsed_is_no_internal_error`]).
//!
//! A pattern may name a variable twice. The matcher does not ask that both
//! places match the same: the binding made last wins.

pub mod assignment;
pub mod binding;
pub mod expression;
pub mod grammar;
pub mod matching;
pub mod parser;
pub mod render;
pub mod rewriting;
pub mod round_trip;
pub mod shared;
pub mod subject;
pub mod term;

pub use binding::Bind;
pub use binding::Binding;
pub use binding::Bindings;
pub use expression::Expression;
pub use matching::Match;
