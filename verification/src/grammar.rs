//! The grammar of expressions: what a text holds.
//!
//! A list is written `( expr* )` with white space between its elements as
//! needed. An atom is a run of characters that holds no white space, no
//! parenthesis and no underscore. The wildcards are `_`, `__` and `___`, and a
//! name followed by one of them is a variable.

use vstd::prelude::*;
use crate::parser::{ErrorCode, ParserError};
use crate::term::Term;

verus! {

/// Whether `c` is white space: a character with the Unicode property
/// `White_Space`.
pub open spec fn is_whitespace(c: char) -> bool {
    ||| '\u{9}' <= c <= '\u{d}'
    ||| c == ' '
    ||| c == '\u{85}'
    ||| c == '\u{a0}'
    ||| c == '\u{1680}'
    ||| '\u{2000}' <= c <= '\u{200a}'
    ||| c == '\u{2028}'
    ||| c == '\u{2029}'
    ||| c == '\u{202f}'
    ||| c == '\u{205f}'
    ||| c == '\u{3000}'
}

/// Whether `c` ends a word: white space or a parenthesis.
pub open spec fn is_terminator(c: char) -> bool {
    is_whitespace(c) || c == '(' || c == ')'
}

/// Whether a word that reaches up to `i` in `s` ends there: at the end of the
/// text or before a terminator.
pub open spec fn ends_word(s: Seq<char>, i: int) -> bool {
    i >= s.len() || is_terminator(s[i])
}

/// The first place in `s` from `i` on that holds no white space.
pub open spec fn skip_blanks(s: Seq<char>, i: int) -> int
    decreases s.len() - i,
{
    if 0 <= i < s.len() && is_whitespace(s[i]) {
        skip_blanks(s, i + 1)
    } else {
        i
    }
}

/// The first place in `s` from `i` on that holds a terminator or an
/// underscore, or the end of `s`.
pub open spec fn word_end(s: Seq<char>, i: int) -> int
    decreases s.len() - i,
{
    if 0 <= i < s.len() && !is_terminator(s[i]) && s[i] != '_' {
        word_end(s, i + 1)
    } else {
        i
    }
}

/// The wildcard, or the variable of the name `name`, that is written with
/// `underscores` underscores.
pub open spec fn marker(name: Seq<char>, underscores: int) -> Term {
    if name.len() == 0 {
        if underscores == 1 {
            Term::Blank
        } else if underscores == 2 {
            Term::BlankSeq
        } else {
            Term::BlankNullSeq
        }
    } else {
        if underscores == 1 {
            Term::Pattern(name)
        } else if underscores == 2 {
            Term::PatternSeq(name)
        } else {
            Term::PatternNullSeq(name)
        }
    }
}

/// What is read at `i` in `s` after `name` and `seen` underscores: up to
/// three underscores in all, after which the word has to end.
pub open spec fn marker_after(s: Seq<char>, i: int, name: Seq<char>, seen: int) -> Result<
    (Term, int),
    ParserError,
>
    decreases 3 - seen,
{
    if seen < 3 && i < s.len() && s[i] == '_' {
        marker_after(s, i + 1, name, seen + 1)
    } else if !ends_word(s, i) {
        Err(ParserError::SyntaxError(ErrorCode::InvalidPattern))
    } else {
        Ok((marker(name, seen), i))
    }
}

/// What is read at `i` in `s` where a word starts: an atom, a wildcard or a
/// variable, and the place behind it.
pub open spec fn word_at(s: Seq<char>, i: int) -> Result<(Term, int), ParserError> {
    let j = word_end(s, i);
    let name = s.subrange(i, j);
    if j < s.len() && s[j] == '_' {
        marker_after(s, j + 1, name, 1)
    } else if name.len() == 0 {
        Err(ParserError::InternalError)
    } else {
        Ok((Term::Atom(name), j))
    }
}

/// What is read at `i` in `s` where an expression starts, and the place
/// behind it.
pub open spec fn expression_at(s: Seq<char>, i: int) -> Result<(Term, int), ParserError>
    decreases s.len() - i, 0nat,
{
    if i >= s.len() {
        Err(ParserError::SyntaxError(ErrorCode::EmptyInput))
    } else if s[i] == '(' {
        match items_at(s, i + 1) {
            Ok((ts, j)) => Ok((Term::List(ts), j)),
            Err(e) => Err(e),
        }
    } else if s[i] == ')' {
        Err(ParserError::SyntaxError(ErrorCode::UnbalancedParens))
    } else {
        word_at(s, i)
    }
}

/// What is read from `i` in `s` inside a list: its remaining elements up to
/// the closing parenthesis, and the place behind that.
///
/// An element that is read takes at least one character
/// (`expression_at_advances`), so the internal error that stands here for an
/// element that takes none never comes about
/// (`items_at_is_no_internal_error`).
pub open spec fn items_at(s: Seq<char>, i: int) -> Result<(Seq<Term>, int), ParserError>
    decreases s.len() - i, 1nat,
{
    let j = skip_blanks(s, i);
    if j >= s.len() {
        Err(ParserError::SyntaxError(ErrorCode::UnbalancedParens))
    } else if s[j] == ')' {
        Ok((Seq::empty(), j + 1))
    } else {
        proof {
            skip_blanks_bounds(s, i);
        }
        match expression_at(s, j) {
            Ok((t, k)) => if j < k <= s.len() {
                match items_at(s, k) {
                    Ok((ts, m)) => Ok((seq![t] + ts, m)),
                    Err(e) => Err(e),
                }
            } else {
                Err(ParserError::InternalError)
            },
            Err(e) => Err(e),
        }
    }
}

/// The elements `ts` that were read before, followed by what is read next.
pub open spec fn after(ts: Seq<Term>, next: Result<(Seq<Term>, int), ParserError>) -> Result<
    (Seq<Term>, int),
    ParserError,
> {
    match next {
        Ok((us, m)) => Ok((ts + us, m)),
        Err(e) => Err(e),
    }
}

/// The expression that the text `s` holds: the first one after leading white
/// space. What follows it is not read.
pub open spec fn parsed(s: Seq<char>) -> Result<Term, ParserError> {
    match expression_at(s, skip_blanks(s, 0)) {
        Ok((t, _)) => Ok(t),
        Err(e) => Err(e),
    }
}

/// `skip_blanks` goes forward, stays within the text, and stops at the end
/// or at a character that is no white space.
pub proof fn skip_blanks_bounds(s: Seq<char>, i: int)
    ensures
        i <= skip_blanks(s, i),
        i <= s.len() ==> skip_blanks(s, i) <= s.len(),
        0 <= skip_blanks(s, i) < s.len() ==> !is_whitespace(s[skip_blanks(s, i)]),
    decreases s.len() - i,
{
    if 0 <= i < s.len() && is_whitespace(s[i]) {
        skip_blanks_bounds(s, i + 1);
    }
}

/// `word_end` goes forward, stays within the text, and passes over neither a
/// terminator nor an underscore.
pub proof fn word_end_bounds(s: Seq<char>, i: int)
    ensures
        i <= word_end(s, i),
        i <= s.len() ==> word_end(s, i) <= s.len(),
        forall|j: int| 0 <= i <= j < word_end(s, i) ==> !is_terminator(s[j]) && s[j] != '_',
        0 <= i ==> word_end(s, i) >= s.len() || is_terminator(s[word_end(s, i)]) || s[word_end(
            s,
            i,
        )] == '_',
    decreases s.len() - i,
{
    if 0 <= i < s.len() && !is_terminator(s[i]) && s[i] != '_' {
        word_end_bounds(s, i + 1);
    }
}

/// A marker ends where its underscores end, within the text.
pub proof fn marker_after_bounds(s: Seq<char>, i: int, name: Seq<char>, seen: int)
    requires
        0 <= i <= s.len(),
    ensures
        marker_after(s, i, name, seen) matches Ok((_, k)) ==> i <= k <= s.len(),
    decreases 3 - seen,
{
    if seen < 3 && i < s.len() && s[i] == '_' {
        marker_after_bounds(s, i + 1, name, seen + 1);
    }
}

/// A word that is read takes at least one character, within the text.
pub proof fn word_at_advances(s: Seq<char>, i: int)
    requires
        0 <= i <= s.len(),
    ensures
        word_at(s, i) matches Ok((_, k)) ==> i < k <= s.len(),
{
    word_end_bounds(s, i);
    let j = word_end(s, i);
    if j < s.len() && s[j] == '_' {
        marker_after_bounds(s, j + 1, s.subrange(i, j), 1);
    }
}

/// An expression that is read takes at least one character, within the text.
pub proof fn expression_at_advances(s: Seq<char>, i: int)
    requires
        0 <= i,
    ensures
        expression_at(s, i) matches Ok((_, k)) ==> i < k <= s.len(),
    decreases s.len() - i, 0nat,
{
    if i < s.len() {
        if s[i] == '(' {
            items_at_advances(s, i + 1);
        } else if s[i] != ')' {
            word_at_advances(s, i);
        }
    }
}

/// The elements of a list that are read take at least the closing
/// parenthesis, within the text.
pub proof fn items_at_advances(s: Seq<char>, i: int)
    requires
        0 <= i,
    ensures
        items_at(s, i) matches Ok((_, m)) ==> i < m <= s.len(),
    decreases s.len() - i, 1nat,
{
    skip_blanks_bounds(s, i);
    let j = skip_blanks(s, i);
    if j < s.len() && s[j] != ')' {
        expression_at_advances(s, j);
        match expression_at(s, j) {
            Ok((_, k)) => {
                items_at_advances(s, k);
            },
            Err(_) => {},
        }
    }
}

/// A word that starts at a character that is neither a terminator nor the
/// end of the text is read without an internal error.
pub proof fn word_at_is_no_internal_error(s: Seq<char>, i: int)
    requires
        0 <= i < s.len(),
        !is_terminator(s[i]),
    ensures
        word_at(s, i) != Err::<(Term, int), ParserError>(ParserError::InternalError),
{
    let j = word_end(s, i);
    if j < s.len() && s[j] == '_' {
        reveal_with_fuel(marker_after, 3);
    } else {
        word_end_bounds(s, i + 1);
    }
}

/// An expression that starts where no white space stands is read without an
/// internal error.
pub proof fn expression_at_is_no_internal_error(s: Seq<char>, i: int)
    requires
        0 <= i,
        i < s.len() ==> !is_whitespace(s[i]),
    ensures
        expression_at(s, i) != Err::<(Term, int), ParserError>(ParserError::InternalError),
    decreases s.len() - i, 0nat,
{
    if i < s.len() {
        if s[i] == '(' {
            items_at_is_no_internal_error(s, i + 1);
        } else if s[i] != ')' {
            word_at_is_no_internal_error(s, i);
        }
    }
}

/// The elements of a list are read without an internal error.
pub proof fn items_at_is_no_internal_error(s: Seq<char>, i: int)
    requires
        0 <= i,
    ensures
        items_at(s, i) != Err::<(Seq<Term>, int), ParserError>(ParserError::InternalError),
    decreases s.len() - i, 1nat,
{
    skip_blanks_bounds(s, i);
    let j = skip_blanks(s, i);
    if j < s.len() && s[j] != ')' {
        expression_at_is_no_internal_error(s, j);
        expression_at_advances(s, j);
        match expression_at(s, j) {
            Ok((_, k)) => {
                items_at_is_no_internal_error(s, k);
            },
            Err(_) => {},
        }
    }
}

/// No text is read with an internal error: each text holds an expression
/// or a syntax error.
pub proof fn parsed_is_no_internal_error(s: Seq<char>)
    ensures
        parsed(s) != Err::<Term, ParserError>(ParserError::InternalError),
{
    skip_blanks_bounds(s, 0);
    expression_at_is_no_internal_error(s, skip_blanks(s, 0));
}

} // verus!
