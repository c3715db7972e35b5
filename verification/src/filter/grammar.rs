//! The language of filters, as functions on texts.
//!
//! ```text
//! Or         := And (" OR " And)*
//! And        := Unary (" AND " Unary)*
//! Unary      := "(" Or ")" | Comparison
//! Comparison := column operator literal
//! ```
//!
//! `OR` binds weaker than `AND`, and both group to the left. A separator
//! counts only outside parentheses.
use vstd::prelude::*;
use crate::filter::error::CompileErrorView;
use crate::filter::expr::{ExprView, Op, PredView};
use crate::text::{lemma_strip_len, trim, unquote, CharSet};

verus! {

/// The separator between the alternatives of a filter.
pub open spec fn or_word() -> Seq<char> {
    seq![' ', 'O', 'R', ' ']
}

/// The separator between the conditions of a filter.
pub open spec fn and_word() -> Seq<char> {
    seq![' ', 'A', 'N', 'D', ' ']
}

/// What the character `c` adds to the depth of nesting.
pub open spec fn step(c: char) -> int {
    if c == '(' {
        1
    } else if c == ')' {
        -1
    } else {
        0
    }
}

/// The depth of nesting after the first `n` characters of `s`: the opening
/// parentheses among them less the closing ones.
pub open spec fn nesting(s: Seq<char>, n: int) -> int
    decreases n,
{
    if n <= 0 {
        0
    } else {
        nesting(s, n - 1) + step(s[n - 1])
    }
}

/// Whether `word` stands in `s` at position `i`.
pub open spec fn occurs_at(s: Seq<char>, word: Seq<char>, i: int) -> bool {
    0 <= i && i + word.len() <= s.len() && s.subrange(i, i + word.len()) == word
}

/// Whether `word` stands in `s` at position `i` outside all parentheses: the
/// depth of nesting is zero once the character at `i` is read.
pub open spec fn top_level_at(s: Seq<char>, word: Seq<char>, i: int) -> bool {
    i < s.len() && occurs_at(s, word, i) && nesting(s, i + 1) == 0
}

/// The last position below `n` at which `word` stands in `s` outside all
/// parentheses.
pub open spec fn last_top_before(s: Seq<char>, word: Seq<char>, n: int) -> Option<int>
    decreases n,
{
    if n <= 0 {
        None
    } else if top_level_at(s, word, n - 1) {
        Some(n - 1)
    } else {
        last_top_before(s, word, n - 1)
    }
}

/// Where `s` is split at `word`: the last position at which `word` stands in
/// `s` outside all parentheses.
pub open spec fn split_point(s: Seq<char>, word: Seq<char>) -> Option<int> {
    last_top_before(s, word, s.len() as int)
}

/// `last_top_before` yields an occurrence outside all parentheses below `n`
/// after which there is no other below `n`, and none only where there is none.
pub proof fn lemma_last_top_before(s: Seq<char>, word: Seq<char>, n: int)
    ensures
        match last_top_before(s, word, n) {
            Some(i) => 0 <= i < n && top_level_at(s, word, i) && forall|j: int|
                i < j < n ==> !top_level_at(s, word, j),
            None => forall|j: int| j < n ==> !top_level_at(s, word, j),
        },
    decreases n,
{
    if n > 0 {
        lemma_last_top_before(s, word, n - 1);
    }
}

/// The split point is an occurrence of `word` outside all parentheses, and the
/// last one; there is none only where `word` nowhere stands so.
pub proof fn lemma_split_point(s: Seq<char>, word: Seq<char>)
    ensures
        match split_point(s, word) {
            Some(i) => 0 <= i < s.len() && i + word.len() <= s.len() && top_level_at(s, word, i)
                && forall|j: int| i < j ==> !top_level_at(s, word, j),
            None => forall|j: int| !top_level_at(s, word, j),
        },
{
    lemma_last_top_before(s, word, s.len() as int);
}

impl Op {
    /// The number of characters of the operator's symbol.
    pub open spec fn width(self) -> int {
        match self {
            Op::Gt | Op::Lt => 1,
            _ => 2,
        }
    }
}

/// Whether the characters `a` and `b` stand in `s` at positions `i` and `i + 1`.
pub open spec fn pair_at(s: Seq<char>, i: int, a: char, b: char) -> bool {
    0 <= i && i + 1 < s.len() && s[i] == a && s[i + 1] == b
}

/// The operator whose symbol stands in `s` at position `i`, if one does:
/// `>=`, `<=`, `==` or `!=`, or else `>` or `<`.
pub open spec fn op_at(s: Seq<char>, i: int) -> Option<Op> {
    if pair_at(s, i, '>', '=') {
        Some(Op::Ge)
    } else if pair_at(s, i, '<', '=') {
        Some(Op::Le)
    } else if pair_at(s, i, '=', '=') {
        Some(Op::Eq)
    } else if pair_at(s, i, '!', '=') {
        Some(Op::Ne)
    } else if 0 <= i < s.len() && s[i] == '>' {
        Some(Op::Gt)
    } else if 0 <= i < s.len() && s[i] == '<' {
        Some(Op::Lt)
    } else {
        None
    }
}

/// The first position from `i` on at which an operator stands in `s`.
pub open spec fn first_op_from(s: Seq<char>, i: int) -> Option<int>
    decreases s.len() - i,
{
    if i >= s.len() {
        None
    } else if op_at(s, i) is Some {
        Some(i)
    } else {
        first_op_from(s, i + 1)
    }
}

/// The first position at which an operator stands in `s`.
pub open spec fn first_op(s: Seq<char>) -> Option<int> {
    first_op_from(s, 0)
}

/// `first_op_from` yields a position from `i` on at which an operator stands
/// and before which, from `i` on, none does; and none only where none stands
/// from `i` on.
pub proof fn lemma_first_op_from(s: Seq<char>, i: int)
    requires
        0 <= i,
    ensures
        match first_op_from(s, i) {
            Some(p) => i <= p < s.len() && op_at(s, p) is Some && forall|j: int|
                i <= j < p ==> op_at(s, j) is None,
            None => forall|j: int| i <= j ==> op_at(s, j) is None,
        },
    decreases s.len() - i,
{
    if i < s.len() && op_at(s, i) is None {
        lemma_first_op_from(s, i + 1);
    }
}

/// Whether `s` is a group: a text that begins with `(` and ends with `)`.
pub open spec fn is_group(s: Seq<char>) -> bool {
    s.len() > 0 && s.first() == '(' && s.last() == ')'
}

/// The tree of two compiled parts, or the error of the first part that has
/// one.
pub open spec fn join(
    left: Result<ExprView, CompileErrorView>,
    right: Result<ExprView, CompileErrorView>,
    either: bool,
) -> Result<ExprView, CompileErrorView> {
    match left {
        Err(e) => Err(e),
        Ok(l) => match right {
            Err(e) => Err(e),
            Ok(r) => Ok(
                if either {
                    ExprView::Or(Box::new(l), Box::new(r))
                } else {
                    ExprView::And(Box::new(l), Box::new(r))
                },
            ),
        },
    }
}

/// What the filter text `text` compiles to against the column names
/// `headers`.
pub open spec fn compile(text: Seq<char>, headers: Seq<Seq<char>>) -> Result<
    ExprView,
    CompileErrorView,
>
    decreases text.len(), 3nat,
{
    proof {
        lemma_strip_len(text, CharSet::Whitespace);
    }
    compile_or(trim(text), headers)
}

/// What `text` compiles to as a sequence of alternatives: it is split at its
/// last ` OR ` outside all parentheses, into alternatives on the left and
/// conditions on the right.
pub open spec fn compile_or(text: Seq<char>, headers: Seq<Seq<char>>) -> Result<
    ExprView,
    CompileErrorView,
>
    decreases text.len(), 2nat,
{
    proof {
        lemma_split_point(text, or_word());
    }
    match split_point(text, or_word()) {
        Some(i) => join(
            compile_or(text.subrange(0, i), headers),
            compile_and(text.subrange(i + or_word().len(), text.len() as int), headers),
            true,
        ),
        None => compile_and(text, headers),
    }
}

/// What `text` compiles to as a sequence of conditions: it is split at its
/// last ` AND ` outside all parentheses, into conditions on the left and a
/// group or a comparison on the right.
pub open spec fn compile_and(text: Seq<char>, headers: Seq<Seq<char>>) -> Result<
    ExprView,
    CompileErrorView,
>
    decreases text.len(), 1nat,
{
    proof {
        lemma_split_point(text, and_word());
    }
    match split_point(text, and_word()) {
        Some(i) => join(
            compile_and(text.subrange(0, i), headers),
            compile_single(text.subrange(i + and_word().len(), text.len() as int), headers),
            false,
        ),
        None => compile_single(text, headers),
    }
}

/// What `text` compiles to as a group or a comparison. Without the white
/// space at its ends, a text that begins with `(` and ends with `)` is a
/// group, and what stands between the two compiles as a filter.
pub open spec fn compile_single(text: Seq<char>, headers: Seq<Seq<char>>) -> Result<
    ExprView,
    CompileErrorView,
>
    decreases text.len(), 0nat,
{
    proof {
        lemma_strip_len(text, CharSet::Whitespace);
    }
    let t = trim(text);
    if is_group(t) {
        compile(t.subrange(1, t.len() - 1), headers)
    } else {
        compile_comparison(t, headers)
    }
}

/// What `t` compiles to as a comparison. The operator is the first that
/// stands in `t`. The column is named by what stands before it, without the
/// white space at its ends, and is the first of `headers` with that name. The
/// literal is what stands behind the operator, without the white space and
/// then the quotes at its ends.
pub open spec fn compile_comparison(t: Seq<char>, headers: Seq<Seq<char>>) -> Result<
    ExprView,
    CompileErrorView,
> {
    match first_op(t) {
        None => Err(CompileErrorView::Syntax(t)),
        Some(p) => {
            let op = op_at(t, p).unwrap();
            let name = trim(t.subrange(0, p));
            let val = unquote(trim(t.subrange(p + op.width(), t.len() as int)));
            match headers.index_of_first(name) {
                None => Err(CompileErrorView::UnknownColumn(name)),
                Some(col) => Ok(ExprView::Single(PredView { col: col as nat, op, val })),
            }
        },
    }
}

} // verus!
