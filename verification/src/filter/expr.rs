//! Compiled filters: comparisons of one column with a literal, joined into a
//! tree by `And` and `Or`, and their truth on a row.
use vstd::prelude::*;
use crate::number::Number;

verus! {

/// A relational operator.
#[derive(Clone, Copy, Debug, PartialEq, Eq)]
pub enum Op {
    Eq,
    Ne,
    Lt,
    Le,
    Gt,
    Ge,
}

impl Op {
    /// Whether the operator asks for an order rather than for equality.
    pub open spec fn is_ordering(self) -> bool {
        self is Lt || self is Le || self is Gt || self is Ge
    }

    /// Whether `a op b` holds of two numbers.
    pub open spec fn holds_of_numbers(self, a: Number, b: Number) -> bool {
        match self {
            Op::Eq => a.equals(b),
            Op::Ne => !a.equals(b),
            Op::Lt => a.below(b),
            Op::Le => a.below(b) || a.equals(b),
            Op::Gt => b.below(a),
            Op::Ge => b.below(a) || a.equals(b),
        }
    }

    /// Whether `a op b` holds of two texts of which at least one is no number:
    /// equality is that of the texts, and no order holds.
    pub open spec fn holds_of_texts(self, a: Seq<char>, b: Seq<char>) -> bool {
        match self {
            Op::Eq => a == b,
            Op::Ne => a != b,
            _ => false,
        }
    }

    /// Tests `a op b` on two numbers.
    pub fn test_numbers(self, a: Number, b: Number) -> (r: bool)
        ensures
            r == self.holds_of_numbers(a, b),
    {
        match self {
            Op::Eq => a.is_equal(b),
            Op::Ne => !a.is_equal(b),
            Op::Lt => a.is_below(b),
            Op::Le => a.is_below(b) || a.is_equal(b),
            Op::Gt => b.is_below(a),
            Op::Ge => b.is_below(a) || a.is_equal(b),
        }
    }
}

/// What a comparison is: the position of its column, its operator and its
/// literal.
pub struct PredView {
    pub col: nat,
    pub op: Op,
    pub val: Seq<char>,
}

impl PredView {
    /// The field of `rec` that the comparison reads: a row too short to have
    /// the column has the empty text there.
    pub open spec fn cell(self, rec: Seq<Seq<char>>) -> Seq<char> {
        if self.col < rec.len() {
            rec[self.col as int]
        } else {
            Seq::empty()
        }
    }

    /// The number that this field reads as, if any, where `numbers` holds the
    /// reading of each field of the row. A field that the row or `numbers`
    /// lacks is no number.
    pub open spec fn cell_number(self, rec: Seq<Seq<char>>, numbers: Seq<Option<Number>>) -> Option<
        Number,
    > {
        if self.col < rec.len() && self.col < numbers.len() {
            numbers[self.col as int]
        } else {
            None
        }
    }

    /// Whether the comparison holds on the row `rec`, where `numbers` holds
    /// what each field of the row reads as and `literal` what the literal
    /// reads as. Where both sides are numbers they are compared as numbers,
    /// otherwise as texts.
    pub open spec fn holds(
        self,
        rec: Seq<Seq<char>>,
        numbers: Seq<Option<Number>>,
        literal: Option<Number>,
    ) -> bool {
        match (self.cell_number(rec, numbers), literal) {
            (Some(a), Some(b)) => self.op.holds_of_numbers(a, b),
            _ => self.op.holds_of_texts(self.cell(rec), self.val),
        }
    }
}

/// A comparison of one column with a literal.
#[derive(Debug, PartialEq, Eq)]
pub struct Pred {
    col: usize,
    op: Op,
    val: String,
}

impl View for Pred {
    type V = PredView;

    closed spec fn view(&self) -> PredView {
        PredView { col: self.col as nat, op: self.op, val: self.val@ }
    }
}

impl Pred {
    /// The comparison of the column at position `col` with the literal `val`.
    pub fn new(col: usize, op: Op, val: String) -> (p: Pred)
        ensures
            p@ == (PredView { col: col as nat, op, val: val@ }),
    {
        Pred { col, op, val }
    }

    /// The position of the column that the comparison reads.
    pub fn col(&self) -> (r: usize)
        ensures
            r == self@.col,
    {
        self.col
    }

    /// The operator of the comparison.
    pub fn op(&self) -> (r: Op)
        ensures
            r == self@.op,
    {
        self.op
    }

    /// The literal that the column is compared with.
    pub fn val(&self) -> (r: &str)
        ensures
            r@ == self@.val,
    {
        self.val.as_str()
    }

    /// Whether the comparison holds on the row `rec`. `numbers` holds for each
    /// field of the row the number that it reads as, if any, and `literal` the
    /// number that the literal reads as, if any.
    pub fn eval(&self, rec: &[String], numbers: &[Option<Number>], literal: Option<Number>) -> (r:
        bool)
        ensures
            r == self@.holds(rec.deep_view(), numbers@, literal),
    {
        let present: bool = self.col < rec.len();
        let reading: Option<Number> = if present && self.col < numbers.len() {
            numbers[self.col]
        } else {
            None
        };
        match (reading, literal) {
            (Some(a), Some(b)) => self.op.test_numbers(a, b),
            _ => {
                let same: bool = if present {
                    rec[self.col] == self.val
                } else {
                    self.val.as_str().is_empty()
                };
                proof {
                    if !present {
                        assert(self@.cell(rec.deep_view()) == Seq::<char>::empty());
                        assert(same == (self.val@ =~= Seq::<char>::empty()));
                    }
                }
                match self.op {
                    Op::Eq => same,
                    Op::Ne => !same,
                    _ => false,
                }
            },
        }
    }
}

/// What a filter is: a tree of comparisons.
pub enum ExprView {
    Single(PredView),
    And(Box<ExprView>, Box<ExprView>),
    Or(Box<ExprView>, Box<ExprView>),
}

/// The first of `readings`, or none where there is no first.
pub open spec fn first_reading(readings: Seq<Option<Number>>) -> Option<Number> {
    if readings.len() > 0 {
        readings[0]
    } else {
        None
    }
}

/// `readings` without its first `n`, or nothing where it has fewer.
pub open spec fn later_readings(readings: Seq<Option<Number>>, n: nat) -> Seq<Option<Number>> {
    if n <= readings.len() {
        readings.subrange(n as int, readings.len() as int)
    } else {
        Seq::empty()
    }
}

impl ExprView {
    /// The number of comparisons in the tree.
    pub open spec fn leaves(self) -> nat
        decreases self,
    {
        match self {
            ExprView::Single(_) => 1,
            ExprView::And(l, r) => l.leaves() + r.leaves(),
            ExprView::Or(l, r) => l.leaves() + r.leaves(),
        }
    }

    /// The literals of the comparisons, from left to right.
    pub open spec fn literals(self) -> Seq<Seq<char>>
        decreases self,
    {
        match self {
            ExprView::Single(p) => seq![p.val],
            ExprView::And(l, r) => l.literals() + r.literals(),
            ExprView::Or(l, r) => l.literals() + r.literals(),
        }
    }

    /// Whether every comparison reads a column at a position below `n`.
    pub open spec fn columns_below(self, n: nat) -> bool
        decreases self,
    {
        match self {
            ExprView::Single(p) => p.col < n,
            ExprView::And(l, r) => l.columns_below(n) && r.columns_below(n),
            ExprView::Or(l, r) => l.columns_below(n) && r.columns_below(n),
        }
    }

    /// Whether the filter holds on the row `rec`. `numbers` holds what each
    /// field of the row reads as, and `literals` what the literal of each
    /// comparison reads as, from left to right; a literal that `literals`
    /// lacks is no number.
    pub open spec fn holds(
        self,
        rec: Seq<Seq<char>>,
        numbers: Seq<Option<Number>>,
        literals: Seq<Option<Number>>,
    ) -> bool
        decreases self,
    {
        match self {
            ExprView::Single(p) => p.holds(rec, numbers, first_reading(literals)),
            ExprView::And(l, r) => l.holds(rec, numbers, literals) && r.holds(
                rec,
                numbers,
                later_readings(literals, l.leaves()),
            ),
            ExprView::Or(l, r) => l.holds(rec, numbers, literals) || r.holds(
                rec,
                numbers,
                later_readings(literals, l.leaves()),
            ),
        }
    }
}

/// A filter: one comparison, or two filters of which both or either must hold.
#[derive(Debug, PartialEq, Eq)]
pub enum Expr {
    Single(Pred),
    And(Box<Expr>, Box<Expr>),
    Or(Box<Expr>, Box<Expr>),
}

impl View for Expr {
    type V = ExprView;

    open spec fn view(&self) -> ExprView
        decreases self,
    {
        match self {
            Expr::Single(p) => ExprView::Single(p@),
            Expr::And(l, r) => ExprView::And(Box::new((**l)@), Box::new((**r)@)),
            Expr::Or(l, r) => ExprView::Or(Box::new((**l)@), Box::new((**r)@)),
        }
    }
}

proof fn lemma_later_readings(readings: Seq<Option<Number>>, m: nat, n: nat)
    ensures
        later_readings(later_readings(readings, m), n) == later_readings(readings, m + n),
{
    assert(later_readings(later_readings(readings, m), n) =~= later_readings(readings, m + n));
}

impl Expr {
    /// Whether the filter holds on the row `rec`. `numbers` holds for each
    /// field of the row the number that it reads as, if any, and `literals`
    /// for each literal of `self.literals()` the number that it reads as, if
    /// any.
    pub fn eval(&self, rec: &[String], numbers: &[Option<Number>], literals: &[Option<Number>]) -> (r:
        bool)
        ensures
            r == self@.holds(rec.deep_view(), numbers@, literals@),
    {
        self.eval_leaves(rec, numbers, literals).0
    }

    /// Evaluates the filter with the first readings of `literals`, and hands
    /// back those that are left for the comparisons to the right of it.
    fn eval_leaves<'a>(
        &self,
        rec: &[String],
        numbers: &[Option<Number>],
        literals: &'a [Option<Number>],
    ) -> (r: (bool, &'a [Option<Number>]))
        ensures
            r.0 == self@.holds(rec.deep_view(), numbers@, literals@),
            r.1@ == later_readings(literals@, self@.leaves()),
        decreases self,
    {
        match self {
            Expr::Single(p) => {
                let n: usize = literals.len();
                if n > 0 {
                    (p.eval(rec, numbers, literals[0]), vstd::slice::slice_subrange(literals, 1, n))
                } else {
                    let rest = vstd::slice::slice_subrange(literals, 0, 0);
                    assert(rest@ =~= later_readings(literals@, 1));
                    (p.eval(rec, numbers, None), rest)
                }
            },
            Expr::And(l, r) => {
                let (a, rest) = l.eval_leaves(rec, numbers, literals);
                let (b, rest) = r.eval_leaves(rec, numbers, rest);
                proof {
                    lemma_later_readings(literals@, l@.leaves(), r@.leaves());
                }
                (a && b, rest)
            },
            Expr::Or(l, r) => {
                let (a, rest) = l.eval_leaves(rec, numbers, literals);
                let (b, rest) = r.eval_leaves(rec, numbers, rest);
                proof {
                    lemma_later_readings(literals@, l@.leaves(), r@.leaves());
                }
                (a || b, rest)
            },
        }
    }

    /// The literals of the comparisons, from left to right.
    pub fn literals(&self) -> (r: Vec<String>)
        ensures
            r.deep_view() == self@.literals(),
    {
        let mut out: Vec<String> = Vec::new();
        assert(out.deep_view() =~= Seq::<Seq<char>>::empty());
        self.collect_literals(&mut out);
        assert(Seq::<Seq<char>>::empty() + self@.literals() =~= self@.literals());
        out
    }

    fn collect_literals(&self, out: &mut Vec<String>)
        ensures
            final(out).deep_view() == old(out).deep_view() + self@.literals(),
        decreases self,
    {
        match self {
            Expr::Single(p) => {
                let ghost before = out.deep_view();
                out.push(p.val.clone());
                assert(out.deep_view() =~= before + seq![p.val@]);
            },
            Expr::And(l, r) => {
                let ghost before = out.deep_view();
                l.collect_literals(out);
                r.collect_literals(out);
                assert(out.deep_view() =~= before + (l@.literals() + r@.literals()));
            },
            Expr::Or(l, r) => {
                let ghost before = out.deep_view();
                l.collect_literals(out);
                r.collect_literals(out);
                assert(out.deep_view() =~= before + (l@.literals() + r@.literals()));
            },
        }
    }
}

} // verus!
