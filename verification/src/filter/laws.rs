//! What holds of every filter: laws of the compiler and of the evaluation,
//! each proved from the grammar.
use vstd::prelude::*;
use crate::filter::error::{CompileError, CompileErrorView};
use crate::filter::expr::{Expr, ExprView, Op, PredView};
use crate::filter::grammar::{
    and_word, compile, compile_and, compile_comparison, compile_or, compile_single, first_op,
    is_group, lemma_first_op_from, lemma_split_point, nesting, op_at, or_word, split_point,
    top_level_at,
};
use crate::filter::parse::outcome_view;
use crate::number::Number;
use crate::text::{
    all_of, is_space, lemma_strip, lemma_strip_absorbs, lemma_strip_end, lemma_strip_end_concat,
    lemma_strip_fixed, lemma_strip_len, lemma_strip_padded, lemma_strip_start,
    lemma_strip_start_concat, lemma_strip_twice, strip_end, strip_start, trim, unquote, CharSet,
};

verus! {

/// Whether no operator stands anywhere in `s`.
pub open spec fn has_no_operator(s: Seq<char>) -> bool {
    forall|i: int| (#[trigger] op_at(s, i)) is None
}

/// Whether `r` is a syntax error.
pub open spec fn is_syntax_error(r: Result<ExprView, CompileErrorView>) -> bool {
    r is Err && r->Err_0 is Syntax
}

/// A part of a text without operators holds no operator.
proof fn lemma_part_has_no_operator(s: Seq<char>, from: int, to: int)
    requires
        has_no_operator(s),
        0 <= from <= to <= s.len(),
    ensures
        has_no_operator(s.subrange(from, to)),
{
    let part = s.subrange(from, to);
    assert forall|i: int| (#[trigger] op_at(part, i)) is None by {
        if op_at(part, i) is Some {
            assert(op_at(s, from + i) is Some);
        }
    }
}

/// A trimmed text without operators holds no operator.
proof fn lemma_trim_has_no_operator(s: Seq<char>)
    requires
        has_no_operator(s),
    ensures
        has_no_operator(trim(s)),
{
    let b = lemma_strip(s, CharSet::Whitespace);
    lemma_part_has_no_operator(s, b.0, b.1);
}

/// A text in which no operator stands does not compile: whatever the column
/// names are, it is rejected with a syntax error.
pub proof fn lemma_no_operator_is_syntax_error(text: Seq<char>, headers: Seq<Seq<char>>)
    requires
        has_no_operator(text),
    ensures
        is_syntax_error(compile(text, headers)),
    decreases text.len(), 3nat,
{
    lemma_strip_len(text, CharSet::Whitespace);
    lemma_trim_has_no_operator(text);
    lemma_no_operator_or(trim(text), headers);
}

proof fn lemma_no_operator_or(text: Seq<char>, headers: Seq<Seq<char>>)
    requires
        has_no_operator(text),
    ensures
        is_syntax_error(compile_or(text, headers)),
    decreases text.len(), 2nat,
{
    lemma_split_point(text, or_word());
    match split_point(text, or_word()) {
        Some(i) => {
            lemma_part_has_no_operator(text, 0, i);
            lemma_no_operator_or(text.subrange(0, i), headers);
        },
        None => {
            lemma_no_operator_and(text, headers);
        },
    }
}

proof fn lemma_no_operator_and(text: Seq<char>, headers: Seq<Seq<char>>)
    requires
        has_no_operator(text),
    ensures
        is_syntax_error(compile_and(text, headers)),
    decreases text.len(), 1nat,
{
    lemma_split_point(text, and_word());
    match split_point(text, and_word()) {
        Some(i) => {
            lemma_part_has_no_operator(text, 0, i);
            lemma_no_operator_and(text.subrange(0, i), headers);
        },
        None => {
            lemma_no_operator_single(text, headers);
        },
    }
}

proof fn lemma_no_operator_single(text: Seq<char>, headers: Seq<Seq<char>>)
    requires
        has_no_operator(text),
    ensures
        is_syntax_error(compile_single(text, headers)),
    decreases text.len(), 0nat,
{
    lemma_strip_len(text, CharSet::Whitespace);
    lemma_trim_has_no_operator(text);
    let t = trim(text);
    if is_group(t) {
        lemma_part_has_no_operator(t, 1, t.len() - 1);
        lemma_no_operator_is_syntax_error(t.subrange(1, t.len() - 1), headers);
    } else {
        lemma_first_op_from(t, 0);
    }
}

/// Every comparison of a compiled filter reads a column of the table: its
/// position is below the number of column names.
pub proof fn lemma_columns_are_known(text: Seq<char>, headers: Seq<Seq<char>>)
    ensures
        compile(text, headers) matches Ok(e) ==> e.columns_below(headers.len()),
    decreases text.len(), 3nat,
{
    lemma_strip_len(text, CharSet::Whitespace);
    lemma_columns_or(trim(text), headers);
}

proof fn lemma_columns_or(text: Seq<char>, headers: Seq<Seq<char>>)
    ensures
        compile_or(text, headers) matches Ok(e) ==> e.columns_below(headers.len()),
    decreases text.len(), 2nat,
{
    lemma_split_point(text, or_word());
    match split_point(text, or_word()) {
        Some(i) => {
            lemma_columns_or(text.subrange(0, i), headers);
            lemma_columns_and(text.subrange(i + or_word().len(), text.len() as int), headers);
        },
        None => {
            lemma_columns_and(text, headers);
        },
    }
}

proof fn lemma_columns_and(text: Seq<char>, headers: Seq<Seq<char>>)
    ensures
        compile_and(text, headers) matches Ok(e) ==> e.columns_below(headers.len()),
    decreases text.len(), 1nat,
{
    lemma_split_point(text, and_word());
    match split_point(text, and_word()) {
        Some(i) => {
            lemma_columns_and(text.subrange(0, i), headers);
            lemma_columns_single(text.subrange(i + and_word().len(), text.len() as int), headers);
        },
        None => {
            lemma_columns_single(text, headers);
        },
    }
}

proof fn lemma_columns_single(text: Seq<char>, headers: Seq<Seq<char>>)
    ensures
        compile_single(text, headers) matches Ok(e) ==> e.columns_below(headers.len()),
    decreases text.len(), 0nat,
{
    lemma_strip_len(text, CharSet::Whitespace);
    let t = trim(text);
    if is_group(t) {
        lemma_columns_are_known(t.subrange(1, t.len() - 1), headers);
    } else {
        match first_op(t) {
            Some(p) => {
                let name = trim(t.subrange(0, p));
                headers.index_of_first_ensures(name);
            },
            None => {},
        }
    }
}

/// Compiling is a function of the filter text and the column names: two
/// compilations of one text against the same names both fail, with the same
/// error, or both succeed, with trees that are the same and so hold on the
/// same rows.
pub proof fn lemma_compile_twice(
    first: Result<Expr, CompileError>,
    second: Result<Expr, CompileError>,
    text: Seq<char>,
    headers: Seq<Seq<char>>,
    rec: Seq<Seq<char>>,
    numbers: Seq<Option<Number>>,
    literals: Seq<Option<Number>>,
)
    requires
        outcome_view(first) == compile(text, headers),
        outcome_view(second) == compile(text, headers),
    ensures
        first is Ok <==> second is Ok,
        first matches Err(a) ==> second matches Err(b) && a@ == b@,
        first matches Ok(a) ==> second matches Ok(b) && a@ == b@ && a@.holds(
            rec,
            numbers,
            literals,
        ) == b@.holds(rec, numbers, literals),
{
}

/// No order holds between two sides of which one is no number: a comparison
/// with `<`, `<=`, `>` or `>=` is false on every such row.
pub proof fn lemma_order_needs_numbers(
    pred: PredView,
    rec: Seq<Seq<char>>,
    numbers: Seq<Option<Number>>,
    literal: Option<Number>,
)
    requires
        pred.op.is_ordering(),
        pred.cell_number(rec, numbers) is None || literal is None,
    ensures
        !pred.holds(rec, numbers, literal),
{
}

/// Where one side is no number, `==` holds exactly where the field and the
/// literal are the same text, and `!=` exactly where they are not.
pub proof fn lemma_texts_compare_by_equality(
    pred: PredView,
    rec: Seq<Seq<char>>,
    numbers: Seq<Option<Number>>,
    literal: Option<Number>,
)
    requires
        pred.cell_number(rec, numbers) is None || literal is None,
    ensures
        pred.op is Eq ==> pred.holds(rec, numbers, literal) == (pred.cell(rec) == pred.val),
        pred.op is Ne ==> pred.holds(rec, numbers, literal) == (pred.cell(rec) != pred.val),
{
}

/// The text that tests whether the column named `c` equals `x`: the name,
/// ` == ` and the literal.
pub open spec fn equality_text(c: Seq<char>, x: Seq<char>) -> Seq<char> {
    c + seq![' ', '=', '=', ' '] + x
}

/// Whether `c` can stand as it is for a column in a comparison: no white
/// space at its ends, and no operator in it.
pub open spec fn is_plain_name(c: Seq<char>) -> bool {
    trim(c) == c && has_no_operator(c)
}

/// Whether `text` is read as one comparison: without the white space at its
/// ends it is no group, and neither ` OR ` nor ` AND ` stands in it outside
/// all parentheses.
pub open spec fn is_one_comparison(text: Seq<char>) -> bool {
    let t = trim(text);
    split_point(t, or_word()) is None && split_point(t, and_word()) is None && !is_group(t)
}

/// A text that is read as one comparison compiles as that comparison.
proof fn lemma_one_comparison(text: Seq<char>, headers: Seq<Seq<char>>)
    requires
        is_one_comparison(text),
    ensures
        compile(text, headers) == compile_comparison(trim(text), headers),
{
    lemma_strip_twice(text, CharSet::Whitespace);
}

/// White space around a text changes nothing in what trimming leaves of it.
proof fn lemma_trim_absorbs(p: Seq<char>, s: Seq<char>, q: Seq<char>)
    requires
        all_of(p, CharSet::Whitespace),
        all_of(q, CharSet::Whitespace),
    ensures
        trim(p + s + q) == trim(s),
{
    lemma_strip_absorbs(p, s, q, CharSet::Whitespace);
}

/// What the test whether a plain column name equals a literal compiles to,
/// where the text is read as one comparison: the comparison of the first
/// column of that name with the literal, or the error that names the column
/// where the table has none of that name.
proof fn lemma_equality_text(c: Seq<char>, x: Seq<char>, headers: Seq<Seq<char>>)
    requires
        is_plain_name(c),
        is_one_comparison(equality_text(c, x)),
    ensures
        compile(equality_text(c, x), headers) == match headers.index_of_first(c) {
            Some(col) => Ok::<ExprView, CompileErrorView>(
                ExprView::Single(PredView { col: col as nat, op: Op::Eq, val: unquote(trim(x)) }),
            ),
            None => Err(CompileErrorView::UnknownColumn(c)),
        },
{
    let ws = CharSet::Whitespace;
    let sp = seq![' '];
    let eq = seq!['=', '='];
    let text = equality_text(c, x);
    let a = c + sp;
    let b = sp + x;
    let empty = Seq::<char>::empty();
    assert(is_space(' '));
    assert(!is_space('='));
    assert(all_of(sp, ws));
    assert(all_of(empty, ws));
    lemma_one_comparison(text, headers);

    // The trimmed text is the name, the operator and the literal.
    let front = strip_start(a, ws);
    let back = strip_end(b, ws);
    assert(text =~= a + (eq + b));
    assert((eq + b).first() == '=');
    lemma_strip_start_concat(a, eq + b, ws);
    assert(front + (eq + b) =~= (front + eq) + b);
    assert((front + eq).last() == '=');
    lemma_strip_end_concat(front + eq, b, ws);
    let t = trim(text);
    assert(t == front + eq + back);
    let n = front.len() as int;
    assert(t[n] == '=' && t[n + 1] == '=');
    assert(op_at(t, n) == Some(Op::Eq));

    // No operator stands before that one.
    let k = lemma_strip_start(a, ws);
    assert forall|j: int| 0 <= j < n implies op_at(t, j) is None by {
        assert(t[j] == a[k + j]);
        if k + j < c.len() {
            assert(a[k + j] == c[k + j]);
            assert(op_at(c, k + j) is None);
            if j + 1 < n {
                assert(t[j + 1] == a[k + j + 1]);
                if k + j + 1 < c.len() {
                    assert(a[k + j + 1] == c[k + j + 1]);
                } else {
                    assert(a[k + j + 1] == ' ');
                }
            }
        } else {
            assert(a[k + j] == ' ');
        }
    }
    lemma_first_op_from(t, 0);
    assert(first_op(t) == Some(n));

    // What stands before it names the column.
    assert(t.subrange(0, n) =~= front);
    assert(a =~= a.subrange(0, k) + front + empty);
    assert forall|i: int| 0 <= i < k implies is_space(#[trigger] a.subrange(0, k)[i]) by {
        assert(a.subrange(0, k)[i] == a[i]);
    }
    lemma_trim_absorbs(a.subrange(0, k), front, empty);
    assert(a =~= empty + c + sp);
    lemma_trim_absorbs(empty, c, sp);
    assert(trim(front) == c);

    // What stands behind it is the literal.
    assert(t.subrange(n + 2, t.len() as int) =~= back);
    let m = lemma_strip_end(b, ws);
    let tail = b.subrange(m, b.len() as int);
    assert(b =~= empty + back + tail);
    assert forall|i: int| 0 <= i < tail.len() implies is_space(#[trigger] tail[i]) by {
        assert(tail[i] == b[m + i]);
    }
    lemma_trim_absorbs(empty, back, tail);
    assert(b =~= sp + x + empty);
    lemma_trim_absorbs(sp, x, empty);
    assert(trim(back) == trim(x));
}

/// A test whether a column of the table equals a literal compiles, whatever
/// the literal is, to the comparison of that column with the literal. The
/// column has a plain name, and the text is read as one comparison.
pub proof fn lemma_equality_on_known_column(c: Seq<char>, x: Seq<char>, headers: Seq<Seq<char>>)
    requires
        headers.contains(c),
        is_plain_name(c),
        is_one_comparison(equality_text(c, x)),
    ensures
        headers.index_of_first(c) is Some,
        compile(equality_text(c, x), headers) == Ok::<ExprView, CompileErrorView>(
            ExprView::Single(
                PredView {
                    col: headers.index_of_first(c).unwrap() as nat,
                    op: Op::Eq,
                    val: unquote(trim(x)),
                },
            ),
        ),
{
    headers.index_of_first_ensures(c);
    lemma_equality_text(c, x, headers);
}

/// A test whether a column that the table lacks equals a literal is
/// rejected, whatever the literal is, with the error that names the column.
/// The column has a plain name, and the text is read as one comparison.
pub proof fn lemma_equality_on_unknown_column(c: Seq<char>, x: Seq<char>, headers: Seq<Seq<char>>)
    requires
        !headers.contains(c),
        is_plain_name(c),
        is_one_comparison(equality_text(c, x)),
    ensures
        compile(equality_text(c, x), headers) == Err::<ExprView, CompileErrorView>(
            CompileErrorView::UnknownColumn(c),
        ),
{
    headers.index_of_first_ensures(c);
    lemma_equality_text(c, x, headers);
}

/// Whether `c` is white space or a quote: what is taken from the ends of a
/// literal.
pub open spec fn is_fringe(c: char) -> bool {
    is_space(c) || c == '"' || c == '\''
}

/// Quotes around a literal are not part of it: a text at whose ends stands
/// neither white space nor a quote is the literal that is read from itself,
/// from itself in double quotes and from itself in single quotes.
pub proof fn lemma_quotes_are_stripped(l: Seq<char>)
    requires
        l.len() > 0 ==> !is_fringe(l.first()) && !is_fringe(l.last()),
    ensures
        unquote(trim(l)) == l,
        unquote(trim(seq!['"'] + l + seq!['"'])) == l,
        unquote(trim(seq!['\''] + l + seq!['\''])) == l,
{
    let ws = CharSet::Whitespace;
    let double = CharSet::Just('"');
    let single = CharSet::Just('\'');
    assert(!is_space('"') && !is_space('\''));
    lemma_strip_fixed(l, ws);
    lemma_strip_fixed(l, double);
    lemma_strip_fixed(l, single);

    let d = seq!['"'];
    let in_double = d + l + d;
    assert(in_double.first() == '"' && in_double.last() == '"');
    lemma_strip_fixed(in_double, ws);
    assert(all_of(d, double));
    lemma_strip_padded(d, l, d, double);

    let q = seq!['\''];
    let in_single = q + l + q;
    assert(in_single.first() == '\'' && in_single.last() == '\'');
    lemma_strip_fixed(in_single, ws);
    lemma_strip_fixed(in_single, double);
    assert(all_of(q, single));
    lemma_strip_padded(q, l, q, single);
}

/// Whether no parenthesis of `t` closes what was not opened in `t`: the
/// depth of nesting is never below zero.
pub open spec fn closes_only_its_own(t: Seq<char>) -> bool {
    forall|n: int| 0 <= n <= t.len() ==> #[trigger] nesting(t, n) >= 0
}

/// Behind an opening parenthesis the depth of nesting is one more than
/// without it.
proof fn lemma_nesting_in_group(t: Seq<char>, rest: Seq<char>, n: int)
    requires
        0 <= n <= t.len(),
    ensures
        nesting(seq!['('] + t + rest, n + 1) == 1 + nesting(t, n),
    decreases n,
{
    let whole = seq!['('] + t + rest;
    if n > 0 {
        lemma_nesting_in_group(t, rest, n - 1);
        assert(whole[n] == t[n - 1]);
    } else {
        assert(whole[0] == '(');
        assert(nesting(whole, 0) == 0);
    }
}

/// Parentheses around a filter change nothing: where no parenthesis of `t`
/// closes what was not opened in `t`, the text `(t)` compiles to what `t`
/// compiles to.
pub proof fn lemma_parentheses_around(t: Seq<char>, headers: Seq<Seq<char>>)
    requires
        closes_only_its_own(t),
    ensures
        compile(seq!['('] + t + seq![')'], headers) == compile(t, headers),
{
    let close = seq![')'];
    let whole = seq!['('] + t + close;
    assert(!is_space('(') && !is_space(')'));
    assert(whole.first() == '(' && whole.last() == ')');
    lemma_strip_fixed(whole, CharSet::Whitespace);
    assert forall|word: Seq<char>, i: int| word.len() > 1 implies !top_level_at(
        whole,
        word,
        i,
    ) by {
        if 0 <= i && i + word.len() <= whole.len() {
            lemma_nesting_in_group(t, close, i);
            assert(nesting(t, i) >= 0);
        }
    }
    lemma_split_point(whole, or_word());
    lemma_split_point(whole, and_word());
    assert(or_word().len() == 4 && and_word().len() == 5);
    assert(whole.subrange(1, whole.len() - 1) =~= t);
}

/// Whether `e` is a chain of conditions that groups to the left: one
/// comparison, or a chain of conditions and one more comparison.
pub open spec fn is_conjunction(e: ExprView) -> bool
    decreases e,
{
    match e {
        ExprView::Single(_) => true,
        ExprView::And(l, r) => is_conjunction(*l) && *r is Single,
        ExprView::Or(_, _) => false,
    }
}

/// Whether `e` is a chain of alternatives that groups to the left, each of
/// them a chain of conditions: no `Or` stands below an `And`.
pub open spec fn is_disjunction(e: ExprView) -> bool
    decreases e,
{
    match e {
        ExprView::Or(l, r) => is_disjunction(*l) && is_conjunction(*r),
        _ => is_conjunction(e),
    }
}

/// Whether no opening parenthesis stands in `s`.
pub open spec fn has_no_group(s: Seq<char>) -> bool {
    forall|i: int| 0 <= i < s.len() ==> #[trigger] s[i] != '('
}

proof fn lemma_part_has_no_group(s: Seq<char>, from: int, to: int)
    requires
        has_no_group(s),
        0 <= from <= to <= s.len(),
    ensures
        has_no_group(s.subrange(from, to)),
{
    let part = s.subrange(from, to);
    assert forall|i: int| 0 <= i < part.len() implies #[trigger] part[i] != '(' by {
        assert(part[i] == s[from + i]);
    }
}

proof fn lemma_trim_has_no_group(s: Seq<char>)
    requires
        has_no_group(s),
    ensures
        has_no_group(trim(s)),
{
    let b = lemma_strip(s, CharSet::Whitespace);
    lemma_part_has_no_group(s, b.0, b.1);
}

/// `OR` binds weaker than `AND`, and both group to the left: a text without
/// parentheses compiles to alternatives of conditions, in which no `Or`
/// stands below an `And` and neither stands to the right of its like.
pub proof fn lemma_or_binds_weaker(text: Seq<char>, headers: Seq<Seq<char>>)
    requires
        has_no_group(text),
    ensures
        compile(text, headers) matches Ok(e) ==> is_disjunction(e),
{
    lemma_trim_has_no_group(text);
    lemma_flat_or(trim(text), headers);
}

proof fn lemma_flat_or(text: Seq<char>, headers: Seq<Seq<char>>)
    requires
        has_no_group(text),
    ensures
        compile_or(text, headers) matches Ok(e) ==> is_disjunction(e),
    decreases text.len(),
{
    lemma_split_point(text, or_word());
    match split_point(text, or_word()) {
        Some(i) => {
            lemma_part_has_no_group(text, 0, i);
            lemma_part_has_no_group(text, i + or_word().len(), text.len() as int);
            lemma_flat_or(text.subrange(0, i), headers);
            lemma_flat_and(text.subrange(i + or_word().len(), text.len() as int), headers);
        },
        None => {
            lemma_flat_and(text, headers);
        },
    }
}

proof fn lemma_flat_and(text: Seq<char>, headers: Seq<Seq<char>>)
    requires
        has_no_group(text),
    ensures
        compile_and(text, headers) matches Ok(e) ==> is_conjunction(e),
    decreases text.len(),
{
    lemma_split_point(text, and_word());
    match split_point(text, and_word()) {
        Some(i) => {
            lemma_part_has_no_group(text, 0, i);
            lemma_part_has_no_group(text, i + and_word().len(), text.len() as int);
            lemma_flat_and(text.subrange(0, i), headers);
            lemma_flat_single(text.subrange(i + and_word().len(), text.len() as int), headers);
        },
        None => {
            lemma_flat_single(text, headers);
        },
    }
}

proof fn lemma_flat_single(text: Seq<char>, headers: Seq<Seq<char>>)
    requires
        has_no_group(text),
    ensures
        compile_single(text, headers) matches Ok(e) ==> e is Single,
{
    lemma_trim_has_no_group(text);
    let t = trim(text);
    if t.len() > 0 {
        assert(t[0] != '(');
    }
}

} // verus!
