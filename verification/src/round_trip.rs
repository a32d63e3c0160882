//! Reading back the text of an expression.

use vstd::prelude::*;
use crate::expression::Expression;
use crate::grammar::{
    ends_word, expression_at, is_terminator, is_whitespace, items_at, marker_after, parsed,
    skip_blanks, word_end,
};
use crate::parser::ParserError;
use crate::render::{render_items, render_term};
use crate::term::Term;

verus! {

/// Whether `s` can be written as the name of an atom or of a variable: it is
/// not empty and holds no white space, parenthesis or underscore.
pub open spec fn is_name(s: Seq<char>) -> bool {
    s.len() > 0 && forall|i: int| 0 <= i < s.len() ==> is_name_char(#[trigger] s[i])
}

/// Whether `c` can stand in a name.
pub open spec fn is_name_char(c: char) -> bool {
    !is_terminator(c) && c != '_'
}

/// Whether the text of `t` says what `t` is: its atoms and variables have
/// names that can be written.
pub open spec fn writable(t: Term) -> bool
    decreases t, 1nat,
{
    match t {
        Term::List(ts) => writable_items(ts),
        Term::Atom(n) | Term::Pattern(n) | Term::PatternSeq(n) | Term::PatternNullSeq(n) => is_name(
            n,
        ),
        Term::Blank | Term::BlankSeq | Term::BlankNullSeq => true,
    }
}

/// Whether each of `ts` is writable.
pub open spec fn writable_items(ts: Seq<Term>) -> bool
    decreases ts, 0nat,
{
    ts.len() == 0 || (writable(ts[0]) && writable_items(ts.drop_first()))
}

/// Whether `t` holds neither a wildcard nor a variable.
pub open spec fn marker_free(t: Term) -> bool
    decreases t, 1nat,
{
    match t {
        Term::List(ts) => marker_free_items(ts),
        Term::Atom(_) => true,
        _ => false,
    }
}

/// Whether each of `ts` is marker-free.
pub open spec fn marker_free_items(ts: Seq<Term>) -> bool
    decreases ts, 0nat,
{
    ts.len() == 0 || (marker_free(ts[0]) && marker_free_items(ts.drop_first()))
}

/// The text of a writable term is not empty and starts with a character that
/// is neither white space nor a closing parenthesis.
pub proof fn render_starts(t: Term)
    requires
        writable(t),
    ensures
        render_term(t).len() > 0,
        !is_whitespace(render_term(t)[0]),
        render_term(t)[0] != ')',
{
}

/// A name in the text, followed by a terminator, an underscore or the end of
/// the text, is a word up to there.
pub proof fn word_end_of_name(s: Seq<char>, i: int, n: int)
    requires
        0 <= i,
        0 <= n,
        i + n <= s.len(),
        forall|j: int| i <= j < i + n ==> is_name_char(#[trigger] s[j]),
        i + n == s.len() || !is_name_char(s[i + n]),
    ensures
        word_end(s, i) == i + n,
    decreases n,
{
    if n > 0 {
        word_end_of_name(s, i + 1, n - 1);
    }
}

/// The text of a writable term, standing in `s` at `i` and followed by a
/// terminator or the end of `s`, is read there as that term.
pub proof fn reads_back(t: Term, s: Seq<char>, i: int)
    requires
        writable(t),
        0 <= i,
        i + render_term(t).len() <= s.len(),
        s.subrange(i, i + render_term(t).len()) == render_term(t),
        ends_word(s, i + render_term(t).len()),
    ensures
        expression_at(s, i) == Ok::<(Term, int), ParserError>((t, i + render_term(t).len())),
    decreases t, 1nat,
{
    let r = render_term(t);
    render_starts(t);
    assert forall|j: int| 0 <= j < r.len() implies s[i + j] == r[j] by {
        assert(s.subrange(i, i + r.len())[j] == s[i + j]);
    }
    match t {
        Term::List(ts) => {
            let inner = render_items(ts);
            assert(s[i] == r[0]);
            assert(s[i + (1 + inner.len())] == r[1 + inner.len() as int]);
            assert(s.subrange(i + 1, i + 1 + inner.len()) =~= inner) by {
                assert forall|j: int| 0 <= j < inner.len() implies s[i + 1 + j] == inner[j] by {
                    assert(r[1 + j] == inner[j]);
                }
            }
            items_read_back(ts, s, i + 1);
        },
        Term::Atom(n) => {
            assert forall|j: int| 0 <= j < n.len() implies s[i + j] == n[j] by {
                assert(r[j] == n[j]);
            }
            name_is_word(s, i, n);
            assert(s.subrange(i, i + n.len()) =~= n);
        },
        Term::Pattern(n) => {
            assert(s[i + n.len()] == r[n.len() as int]);
            assert forall|j: int| 0 <= j < n.len() implies s[i + j] == n[j] by {
                assert(r[j] == n[j]);
            }
            name_is_word(s, i, n);
            assert(s.subrange(i, i + n.len()) =~= n);
        },
        Term::PatternSeq(n) => {
            assert(s[i + n.len()] == r[n.len() as int]);
            assert(s[i + (n.len() + 1)] == r[n.len() as int + 1]);
            assert forall|j: int| 0 <= j < n.len() implies s[i + j] == n[j] by {
                assert(r[j] == n[j]);
            }
            name_is_word(s, i, n);
            assert(s.subrange(i, i + n.len()) =~= n);
            reveal_with_fuel(marker_after, 2);
        },
        Term::PatternNullSeq(n) => {
            assert(s[i + n.len()] == r[n.len() as int]);
            assert(s[i + (n.len() + 1)] == r[n.len() as int + 1]);
            assert(s[i + (n.len() + 2)] == r[n.len() as int + 2]);
            assert forall|j: int| 0 <= j < n.len() implies s[i + j] == n[j] by {
                assert(r[j] == n[j]);
            }
            name_is_word(s, i, n);
            assert(s.subrange(i, i + n.len()) =~= n);
            reveal_with_fuel(marker_after, 3);
        },
        Term::Blank => {
            assert(s[i + 0] == r[0]);
        },
        Term::BlankSeq => {
            assert(s[i + 0] == r[0]);
            assert(s[i + 1] == r[1]);
            reveal_with_fuel(marker_after, 2);
        },
        Term::BlankNullSeq => {
            assert(s[i + 0] == r[0]);
            assert(s[i + 1] == r[1]);
            assert(s[i + 2] == r[2]);
            reveal_with_fuel(marker_after, 3);
        },
    }
}

/// A name that stands in `s` at `i`, followed by something that is no part
/// of a name, is a word up to there.
proof fn name_is_word(s: Seq<char>, i: int, n: Seq<char>)
    requires
        is_name(n),
        0 <= i,
        i + n.len() <= s.len(),
        forall|j: int| 0 <= j < n.len() ==> s[i + j] == n[j],
        i + n.len() == s.len() || !is_name_char(s[i + n.len()]),
    ensures
        word_end(s, i) == i + n.len(),
        is_name_char(s[i]),
{
    assert forall|j: int| i <= j < i + n.len() implies is_name_char(#[trigger] s[j]) by {
        assert(is_name_char(n[j - i]));
    }
    word_end_of_name(s, i, n.len() as int);
}

/// The texts of writable terms with one space between each two, standing in
/// `s` at `i` and followed by a closing parenthesis, are read there as the
/// rest of a list of those terms.
pub proof fn items_read_back(ts: Seq<Term>, s: Seq<char>, i: int)
    requires
        writable_items(ts),
        0 <= i,
        i + render_items(ts).len() < s.len(),
        s.subrange(i, i + render_items(ts).len()) == render_items(ts),
        s[i + render_items(ts).len()] == ')',
    ensures
        items_at(s, i) == Ok::<(Seq<Term>, int), ParserError>((ts, i + render_items(ts).len() + 1)),
    decreases ts, 0nat,
{
    let all = render_items(ts);
    assert forall|j: int| 0 <= j < all.len() implies s[i + j] == all[j] by {
        assert(s.subrange(i, i + all.len())[j] == s[i + j]);
    }
    if ts.len() == 0 {
        assert(ts =~= Seq::empty());
    } else {
        let first = render_term(ts[0]);
        let k = i + first.len();
        let rest = ts.drop_first();
        render_starts(ts[0]);
        assert(s[i + 0] == all[0]);
        assert(s.subrange(i, k) =~= first) by {
            assert forall|j: int| 0 <= j < first.len() implies s[i + j] == first[j] by {
                assert(all[j] == first[j]);
            }
        }
        if ts.len() == 1 {
            reads_back(ts[0], s, i);
            assert(seq![ts[0]] + Seq::<Term>::empty() =~= ts);
        } else {
            let more = render_items(rest);
            assert(s[k] == all[first.len() as int]);
            assert(s.subrange(k + 1, k + 1 + more.len()) =~= more) by {
                assert forall|j: int| 0 <= j < more.len() implies s[k + 1 + j] == more[j] by {
                    assert(all[first.len() + 1 + j] == more[j]);
                    assert(s[i + (first.len() + 1 + j)] == all[first.len() + 1 + j]);
                }
            }
            reads_back(ts[0], s, i);
            items_read_back(rest, s, k + 1);
            assert(skip_blanks(s, k) == skip_blanks(s, k + 1));
            assert(items_at(s, k) == items_at(s, k + 1));
            assert(seq![ts[0]] + rest =~= ts);
        }
    }
}

/// Reading the text of a writable term gives that term.
pub proof fn parse_of_render(t: Term)
    requires
        writable(t),
    ensures
        parsed(render_term(t)) == Ok::<Term, ParserError>(t),
{
    let s = render_term(t);
    assert(s.subrange(0, s.len() as int) =~= s);
    reads_back(t, s, 0);
}

/// Reading the text of a marker-free term whose atoms have names that can be
/// written gives that term.
pub proof fn marker_free_round_trip(t: Term)
    requires
        marker_free(t),
        writable(t),
    ensures
        parsed(render_term(t)) == Ok::<Term, ParserError>(t),
{
    parse_of_render(t);
}

/// Where `render` wrote the text of a writable expression, `parse` reads it
/// as an expression that stands for the same term.
pub proof fn render_reads_back(
    e: &Expression,
    text: String,
    s: &str,
    back: Result<Expression, ParserError>,
)
    requires
        writable(e@),
        call_ensures(Expression::render, (e,), text),
        s@ == text@,
        call_ensures(Expression::parse, (s,), back),
    ensures
        back is Ok,
        back.unwrap()@ == e@,
{
    parse_of_render(e@);
}

} // verus!
