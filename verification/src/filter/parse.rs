//! The compiler of filters: from a filter text and the column names of a
//! table to the tree that is evaluated on each row.
use vstd::prelude::*;
use vstd::slice::slice_subrange;
use crate::filter::error::{CompileError, CompileErrorView};
use crate::filter::expr::{Expr, ExprView, Op, Pred};
use crate::filter::grammar::{
    and_word, compile, compile_and, compile_or, compile_single, first_op, first_op_from,
    last_top_before, lemma_first_op_from, lemma_split_point, nesting, occurs_at, op_at, or_word,
    split_point, top_level_at,
};
use crate::filter::laws::lemma_columns_are_known;
use crate::table::index_of;
use crate::text::{chars_of, lemma_strip_len, string_of, strip_chars, CharSet};

verus! {

/// What the outcome of a compilation is.
pub open spec fn outcome_view(r: Result<Expr, CompileError>) -> Result<ExprView, CompileErrorView> {
    match r {
        Ok(e) => Ok(e@),
        Err(e) => Err(e@),
    }
}

/// Tests whether `word` stands in `s` at position `i`.
fn occurs(s: &[char], word: &[char], i: usize) -> (r: bool)
    requires
        i <= s@.len(),
    ensures
        r == occurs_at(s@, word@, i as int),
{
    let n: usize = word.len();
    let len: usize = s.len();
    if n > len - i {
        return false;
    }
    let mut k: usize = 0;
    while k < n
        invariant
            k <= n == word@.len(),
            i + n <= len == s@.len(),
            forall|j: int| 0 <= j < k ==> s@[i + j] == word@[j],
        decreases n - k,
    {
        if s[i + k] != word[k] {
            proof {
                let part = s@.subrange(i as int, i + n);
                assert(part[k as int] == s@[i + k]);
            }
            return false;
        }
        k = k + 1;
    }
    assert(s@.subrange(i as int, i + n) =~= word@);
    true
}

/// The position at which `expr` is split at `word`: the last at which `word`
/// stands in it outside all parentheses.
pub fn split_top(expr: &[char], word: &[char]) -> (r: Option<usize>)
    ensures
        match r {
            Some(i) => split_point(expr@, word@) == Some(i as int) && top_level_at(
                expr@,
                word@,
                i as int,
            ) && forall|j: int| i < j ==> !top_level_at(expr@, word@, j),
            None => split_point(expr@, word@) is None && forall|j: int|
                !top_level_at(expr@, word@, j),
        },
{
    proof {
        lemma_split_point(expr@, word@);
    }
    let len: usize = expr.len();
    let mut opened: usize = 0;
    let mut closed: usize = 0;
    let mut found: Option<usize> = None;
    let mut i: usize = 0;
    while i < len
        invariant
            i <= len == expr@.len(),
            opened <= i,
            closed <= i,
            opened - closed == nesting(expr@, i as int),
            match found {
                Some(p) => last_top_before(expr@, word@, i as int) == Some(p as int),
                None => last_top_before(expr@, word@, i as int) is None,
            },
        decreases len - i,
    {
        let c: char = expr[i];
        if c == '(' {
            opened = opened + 1;
        } else if c == ')' {
            closed = closed + 1;
        }
        if opened == closed && occurs(expr, word, i) {
            found = Some(i);
        }
        i = i + 1;
    }
    found
}

/// The operator that stands in `s` at position `i`, if one does.
fn operator_at(s: &[char], i: usize) -> (r: Option<Op>)
    requires
        i < s@.len(),
    ensures
        r == op_at(s@, i as int),
{
    let c: char = s[i];
    let pair: bool = i + 1 < s.len() && s[i + 1] == '=';
    if c == '>' {
        if pair {
            Some(Op::Ge)
        } else {
            Some(Op::Gt)
        }
    } else if c == '<' {
        if pair {
            Some(Op::Le)
        } else {
            Some(Op::Lt)
        }
    } else if c == '=' && pair {
        Some(Op::Eq)
    } else if c == '!' && pair {
        Some(Op::Ne)
    } else {
        None
    }
}

/// The first position at which an operator stands in `s`, and that operator.
fn find_operator(s: &[char]) -> (r: Option<(usize, Op)>)
    ensures
        match r {
            Some((p, op)) => first_op(s@) == Some(p as int) && op_at(s@, p as int) == Some(op),
            None => first_op(s@) is None,
        },
{
    let len: usize = s.len();
    let mut i: usize = 0;
    while i < len
        invariant
            i <= len == s@.len(),
            first_op(s@) == first_op_from(s@, i as int),
        decreases len - i,
    {
        match operator_at(s, i) {
            Some(op) => {
                return Some((i, op));
            },
            None => {},
        }
        i = i + 1;
    }
    None
}

/// Compiles the filter text `expr` against the column names `headers`.
pub fn parse(expr: &str, headers: &[String]) -> (r: Result<Expr, CompileError>)
    ensures
        outcome_view(r) == compile(expr@, headers.deep_view()),
        r matches Ok(e) ==> e@.columns_below(headers@.len()),
{
    proof {
        lemma_columns_are_known(expr@, headers.deep_view());
    }
    let chars: Vec<char> = chars_of(expr);
    parse_text(chars.as_slice(), headers)
}

/// Compiles a filter text given as its characters.
pub fn parse_text(expr: &[char], headers: &[String]) -> (r: Result<Expr, CompileError>)
    ensures
        outcome_view(r) == compile(expr@, headers.deep_view()),
    decreases expr@.len(), 3nat,
{
    proof {
        lemma_strip_len(expr@, CharSet::Whitespace);
    }
    parse_or(strip_chars(expr, CharSet::Whitespace), headers)
}

/// Compiles a sequence of alternatives.
pub fn parse_or(expr: &[char], headers: &[String]) -> (r: Result<Expr, CompileError>)
    ensures
        outcome_view(r) == compile_or(expr@, headers.deep_view()),
    decreases expr@.len(), 2nat,
{
    let word: [char; 4] = [' ', 'O', 'R', ' '];
    assert(word@ =~= or_word());
    let len: usize = expr.len();
    match split_top(expr, word.as_slice()) {
        Some(i) => {
            proof {
                lemma_split_point(expr@, or_word());
                assert(or_word().len() == 4);
            }
            let left = match parse_or(slice_subrange(expr, 0, i), headers) {
                Ok(e) => e,
                Err(e) => {
                    return Err(e);
                },
            };
            let right = match parse_and(slice_subrange(expr, i + 4, len), headers) {
                Ok(e) => e,
                Err(e) => {
                    return Err(e);
                },
            };
            Ok(Expr::Or(Box::new(left), Box::new(right)))
        },
        None => parse_and(expr, headers),
    }
}

/// Compiles a sequence of conditions.
pub fn parse_and(expr: &[char], headers: &[String]) -> (r: Result<Expr, CompileError>)
    ensures
        outcome_view(r) == compile_and(expr@, headers.deep_view()),
    decreases expr@.len(), 1nat,
{
    let word: [char; 5] = [' ', 'A', 'N', 'D', ' '];
    assert(word@ =~= and_word());
    let len: usize = expr.len();
    match split_top(expr, word.as_slice()) {
        Some(i) => {
            proof {
                lemma_split_point(expr@, and_word());
                assert(and_word().len() == 5);
            }
            let left = match parse_and(slice_subrange(expr, 0, i), headers) {
                Ok(e) => e,
                Err(e) => {
                    return Err(e);
                },
            };
            let right = match parse_single(slice_subrange(expr, i + 5, len), headers) {
                Ok(e) => e,
                Err(e) => {
                    return Err(e);
                },
            };
            Ok(Expr::And(Box::new(left), Box::new(right)))
        },
        None => parse_single(expr, headers),
    }
}

/// Compiles a group or a comparison.
pub fn parse_single(expr: &[char], headers: &[String]) -> (r: Result<Expr, CompileError>)
    ensures
        outcome_view(r) == compile_single(expr@, headers.deep_view()),
    decreases expr@.len(), 0nat,
{
    proof {
        lemma_strip_len(expr@, CharSet::Whitespace);
    }
    let t: &[char] = strip_chars(expr, CharSet::Whitespace);
    let len: usize = t.len();
    if len > 0 && t[0] == '(' && t[len - 1] == ')' {
        return parse_text(slice_subrange(t, 1, len - 1), headers);
    }
    let (p, op) = match find_operator(t) {
        Some(found) => found,
        None => {
            return Err(CompileError::Syntax(string_of(t)));
        },
    };
    proof {
        lemma_first_op_from(t@, 0);
    }
    let width: usize = match op {
        Op::Gt | Op::Lt => 1,
        _ => 2,
    };
    let name: String = string_of(strip_chars(slice_subrange(t, 0, p), CharSet::Whitespace));
    let literal: &[char] = strip_chars(slice_subrange(t, p + width, len), CharSet::Whitespace);
    let literal: &[char] = strip_chars(literal, CharSet::Just('"'));
    let val: String = string_of(strip_chars(literal, CharSet::Just('\'')));
    match index_of(headers, &name) {
        Some(col) => Ok(Expr::Single(Pred::new(col, op, val))),
        None => Err(CompileError::UnknownColumn(name)),
    }
}

} // verus!
