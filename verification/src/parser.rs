//! Reading an expression from its text.

use vstd::prelude::*;
use crate::expression::{views, Expression};
use crate::grammar::{
    after, ends_word, expression_at, expression_at_advances, is_whitespace, items_at, marker_after,
    skip_blanks, skip_blanks_bounds, word_at, word_end,
};
use crate::term::Term;

verus! {

/// The kinds of syntax error.
#[derive(Clone, Copy, PartialEq, Eq, Debug)]
pub enum ErrorCode {
    /// A run of underscores that is too long or is followed by more of the
    /// word.
    InvalidPattern,
    /// A closing parenthesis with no list open, or the end of the text
    /// inside a list.
    UnbalancedParens,
    /// Nothing to read.
    EmptyInput,
}

/// The errors of the parser.
#[derive(Clone, Copy, PartialEq, Eq, Debug)]
pub enum ParserError {
    /// The text is no expression.
    SyntaxError(ErrorCode),
    /// The parser was asked to read a word where none starts.
    InternalError,
}

/// Whether `c` is white space.
pub fn char_is_whitespace(c: char) -> (b: bool)
    ensures
        b == is_whitespace(c),
{
    ('\u{9}' <= c && c <= '\u{d}') || c == ' ' || c == '\u{85}' || c == '\u{a0}' || c == '\u{1680}'
        || ('\u{2000}' <= c && c <= '\u{200a}') || c == '\u{2028}' || c == '\u{2029}' || c
        == '\u{202f}' || c == '\u{205f}' || c == '\u{3000}'
}

/// A reader of expressions from a text, one character at a time.
pub struct Parser<'a> {
    /// The text.
    input: &'a str,
    /// The characters of the text.
    chars: Vec<char>,
    /// The place of the current character in the text.
    pos: usize,
    /// The current character, or `None` at the end of the text.
    ch: Option<char>,
}

impl<'a> Parser<'a> {
    /// Whether the parser is in order: it looks at a place within its text
    /// or at the end of it.
    pub closed spec fn wf(&self) -> bool {
        &&& self.chars@ == self.input@
        &&& self.pos <= self.chars.len()
        &&& self.ch == if self.pos < self.chars.len() {
            Some(self.chars[self.pos as int])
        } else {
            None
        }
    }

    /// The text that is read.
    pub closed spec fn text(&self) -> Seq<char> {
        self.input@
    }

    /// The place in the text that the parser looks at.
    pub closed spec fn position(&self) -> int {
        self.pos as int
    }

    /// Whether this parser, which was `before`, has read `expected` and
    /// returned it as `res`: it has the same text and has not gone back in
    /// it, and on success it is behind what was read.
    pub open spec fn has_read(
        &self,
        before: &Parser<'a>,
        res: Result<Expression, ParserError>,
        expected: Result<(Term, int), ParserError>,
    ) -> bool {
        &&& self.wf()
        &&& self.text() == before.text()
        &&& before.position() <= self.position()
        &&& match expected {
            Ok((t, k)) => res is Ok && res.unwrap()@ == t && self.position() == k,
            Err(e) => res == Err::<Expression, ParserError>(e),
        }
    }

    /// A parser at the start of `input`.
    pub fn new(input: &'a str) -> (p: Parser<'a>)
        ensures
            p.wf(),
            p.text() == input@,
            p.position() == 0,
    {
        let mut chars: Vec<char> = Vec::new();
        for c in it: input.chars()
            invariant
                it.seq() == input@,
                chars@ == input@.take(it.index()),
        {
            chars.push(c);
        }
        proof {
            assert(input@.take(input@.len() as int) =~= input@);
        }
        let ch = if chars.len() > 0 {
            Some(chars[0])
        } else {
            None
        };
        Parser { input, chars, pos: 0, ch }
    }

    /// Reads the first expression after leading white space, and stops
    /// behind it.
    // root ::= expression
    pub fn parse(&mut self) -> (res: Result<Expression, ParserError>)
        requires
            old(self).wf(),
        ensures
            final(self).has_read(
                old(self),
                res,
                expression_at(
                    old(self).text(),
                    skip_blanks(old(self).text(), old(self).position()),
                ),
            ),
    {
        proof {
            skip_blanks_bounds(self.text(), self.position());
        }
        self.skip_whitespace();
        self.parse_expression()
    }

    /// Reads the expression that starts at the current character.
    // expression ::= '(' expression* ')'
    //            ::| blank
    //            ::| blank_seq
    //            ::| blank_null_seq
    //            ::| pattern
    //            ::| pattern_seq
    //            ::| pattern_null_seq
    //            ::| atom
    fn parse_expression(&mut self) -> (res: Result<Expression, ParserError>)
        requires
            old(self).wf(),
        ensures
            final(self).has_read(
                old(self),
                res,
                expression_at(old(self).text(), old(self).position()),
            ),
        decreases old(self).text().len() - old(self).position(), 1nat,
    {
        match self.ch {
            None => Err(ParserError::SyntaxError(ErrorCode::EmptyInput)),
            Some(c) => {
                if c == '(' {
                    self.parse_list()
                } else if c == ')' {
                    Err(ParserError::SyntaxError(ErrorCode::UnbalancedParens))
                } else {
                    self.parse_atomic()
                }
            },
        }
    }

    /// Reads the list that opens at the current character: expressions until
    /// the list is closed by `)`.
    fn parse_list(&mut self) -> (res: Result<Expression, ParserError>)
        requires
            old(self).wf(),
            old(self).position() < old(self).text().len(),
            old(self).text()[old(self).position()] == '(',
        ensures
            final(self).has_read(
                old(self),
                res,
                expression_at(old(self).text(), old(self).position()),
            ),
        decreases old(self).text().len() - old(self).position(), 0nat,
    {
        // consume '('
        self.bump();
        let ghost s = self.text();
        let ghost start = self.position();
        let mut v: Vec<Expression> = Vec::new();
        loop
            invariant
                self.wf(),
                self.text() == s,
                s == old(self).text(),
                start == old(self).position() + 1,
                start <= self.position() <= s.len(),
                s[start - 1] == '(',
                items_at(s, start) == after(views(v@), items_at(s, self.position())),
            decreases s.len() - self.position(),
        {
            proof {
                skip_blanks_bounds(s, self.position());
            }
            self.skip_whitespace();
            match self.ch {
                None => {
                    return Err(ParserError::SyntaxError(ErrorCode::UnbalancedParens));
                },
                Some(c) => {
                    if c == ')' {
                        // consume ')'
                        self.bump();
                        return Ok(Expression::List(v));
                    }
                    let ghost j = self.position();
                    proof {
                        expression_at_advances(s, j);
                    }
                    match self.parse_expression() {
                        Ok(exp) => {
                            proof {
                                let k = self.position();
                                match items_at(s, k) {
                                    Ok((ts, m)) => {
                                        assert(views(v@.push(exp)) + ts =~= views(v@) + (seq![
                                            exp@,
                                        ] + ts));
                                    },
                                    Err(_) => {},
                                }
                            }
                            v.push(exp);
                        },
                        Err(e) => {
                            return Err(e);
                        },
                    }
                },
            }
        }
    }

    /// Reads the word that starts at the current character, up to a
    /// parenthesis, white space or the end of the text. An underscore in it
    /// makes it a wildcard or a variable.
    fn parse_atomic(&mut self) -> (res: Result<Expression, ParserError>)
        requires
            old(self).wf(),
        ensures
            final(self).has_read(old(self), res, word_at(old(self).text(), old(self).position())),
    {
        let start = self.pos;
        let ghost s = self.text();
        while !self.ch_is_terminator()
            invariant
                self.wf(),
                self.text() == s,
                s == old(self).text(),
                start == old(self).position(),
                start <= self.position() <= s.len(),
                word_end(s, start as int) == word_end(s, self.position()),
            decreases s.len() - self.position(),
        {
            if self.ch == Some('_') {
                let unnamed = start == self.pos;
                let name = self.input.substring_char(start, self.pos).to_owned();
                proof {
                    assert(unnamed ==> name@ =~= Seq::<char>::empty());
                }
                // consume '_'
                self.bump();
                if unnamed {
                    return self.parse_blank();
                } else {
                    return self.parse_pattern(name);
                }
            }
            self.bump();
        }
        if start == self.pos {
            Err(ParserError::InternalError)
        } else {
            Ok(Expression::Atom(self.input.substring_char(start, self.pos).to_owned()))
        }
    }

    /// Reads the rest of a wildcard after its first underscore.
    fn parse_blank(&mut self) -> (res: Result<Expression, ParserError>)
        requires
            old(self).wf(),
        ensures
            final(self).has_read(
                old(self),
                res,
                marker_after(old(self).text(), old(self).position(), Seq::empty(), 1),
            ),
    {
        if self.ch == Some('_') {
            // consume '_'
            self.bump();
            return self.parse_blank_seq();
        }
        if !self.ch_is_terminator() {
            // invalid termination
            return Err(ParserError::SyntaxError(ErrorCode::InvalidPattern));
        }
        Ok(Expression::Blank)
    }

    /// Reads the rest of a wildcard after its second underscore.
    fn parse_blank_seq(&mut self) -> (res: Result<Expression, ParserError>)
        requires
            old(self).wf(),
        ensures
            final(self).has_read(
                old(self),
                res,
                marker_after(old(self).text(), old(self).position(), Seq::empty(), 2),
            ),
    {
        if self.ch == Some('_') {
            // consume '_'
            self.bump();
            return self.parse_blank_null_seq();
        }
        if !self.ch_is_terminator() {
            // invalid termination
            return Err(ParserError::SyntaxError(ErrorCode::InvalidPattern));
        }
        Ok(Expression::BlankSeq)
    }

    /// Reads the end of a wildcard after its third underscore.
    fn parse_blank_null_seq(&mut self) -> (res: Result<Expression, ParserError>)
        requires
            old(self).wf(),
        ensures
            final(self).has_read(
                old(self),
                res,
                marker_after(old(self).text(), old(self).position(), Seq::empty(), 3),
            ),
    {
        if !self.ch_is_terminator() {
            // invalid termination
            return Err(ParserError::SyntaxError(ErrorCode::InvalidPattern));
        }
        Ok(Expression::BlankNullSeq)
    }

    /// Reads the rest of the variable `s` after its first underscore.
    fn parse_pattern(&mut self, s: String) -> (res: Result<Expression, ParserError>)
        requires
            old(self).wf(),
            s@.len() > 0,
        ensures
            final(self).has_read(
                old(self),
                res,
                marker_after(old(self).text(), old(self).position(), s@, 1),
            ),
    {
        if self.ch == Some('_') {
            // consume '_'
            self.bump();
            return self.parse_pattern_seq(s);
        }
        if !self.ch_is_terminator() {
            // invalid termination
            return Err(ParserError::SyntaxError(ErrorCode::InvalidPattern));
        }
        Ok(Expression::Pattern(s))
    }

    /// Reads the rest of the variable `s` after its second underscore.
    fn parse_pattern_seq(&mut self, s: String) -> (res: Result<Expression, ParserError>)
        requires
            old(self).wf(),
            s@.len() > 0,
        ensures
            final(self).has_read(
                old(self),
                res,
                marker_after(old(self).text(), old(self).position(), s@, 2),
            ),
    {
        if self.ch == Some('_') {
            // consume '_'
            self.bump();
            return self.parse_pattern_null_seq(s);
        }
        if !self.ch_is_terminator() {
            // invalid termination
            return Err(ParserError::SyntaxError(ErrorCode::InvalidPattern));
        }
        Ok(Expression::PatternSeq(s))
    }

    /// Reads the end of the variable `s` after its third underscore.
    fn parse_pattern_null_seq(&mut self, s: String) -> (res: Result<Expression, ParserError>)
        requires
            old(self).wf(),
            s@.len() > 0,
        ensures
            final(self).has_read(
                old(self),
                res,
                marker_after(old(self).text(), old(self).position(), s@, 3),
            ),
    {
        if !self.ch_is_terminator() {
            // invalid termination
            return Err(ParserError::SyntaxError(ErrorCode::InvalidPattern));
        }
        Ok(Expression::PatternNullSeq(s))
    }

    /// Whether a word ends at the current character.
    fn ch_is_terminator(&self) -> (b: bool)
        requires
            self.wf(),
        ensures
            b == ends_word(self.text(), self.position()),
    {
        self.ch_is_whitespace() || self.ch == Some('(') || self.ch == Some(')') || self.ch.is_none()
    }

    /// Whether the current character is white space.
    fn ch_is_whitespace(&self) -> (b: bool)
        requires
            self.wf(),
        ensures
            b == (self.position() < self.text().len() && is_whitespace(
                self.text()[self.position()],
            )),
    {
        match self.ch {
            None => false,
            Some(c) => char_is_whitespace(c),
        }
    }

    /// Goes on to the next character that is no white space.
    fn skip_whitespace(&mut self)
        requires
            old(self).wf(),
        ensures
            final(self).wf(),
            final(self).text() == old(self).text(),
            final(self).position() == skip_blanks(old(self).text(), old(self).position()),
    {
        while self.ch_is_whitespace()
            invariant
                self.wf(),
                self.text() == old(self).text(),
                skip_blanks(self.text(), self.position()) == skip_blanks(
                    old(self).text(),
                    old(self).position(),
                ),
            decreases self.text().len() - self.position(),
        {
            self.bump();
        }
    }

    /// Goes on to the next character.
    fn bump(&mut self)
        requires
            old(self).wf(),
        ensures
            final(self).wf(),
            final(self).text() == old(self).text(),
            final(self).position() == if old(self).position() < old(self).text().len() {
                old(self).position() + 1
            } else {
                old(self).position()
            },
    {
        if self.pos < self.chars.len() {
            self.pos += 1;
        }
        self.ch = if self.pos < self.chars.len() {
            Some(self.chars[self.pos])
        } else {
            None
        };
    }
}

} // verus!
