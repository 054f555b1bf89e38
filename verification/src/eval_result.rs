//! The evaluation result algebra: the vocabulary and combination rules with
//! which an expression or identity evaluator reports its outcome for one row —
//! the constraints it learned, the causes that kept it from completing, and
//! hard errors. Incompleteness is a non-error outcome (retry after other
//! progress may succeed); an error fails the current attempt.

use vstd::prelude::*;
use vstd::string::StringExecFns;
use crate::number::FieldElement;

verus! {

/// A fact bounding the bits a column value may occupy without pinning the
/// value: the value is known to satisfy `value & !mask == 0`.
#[derive(Clone, Copy, PartialEq, Eq, Structural, Debug)]
pub struct BitConstraint {
    pub mask: u64,
}

/// A reason an evaluation could not fully resolve. These exist to let the row
/// solver decide whether a retry after other progress can help.
#[derive(Debug, PartialEq, Eq)]
pub enum IncompleteCause {
    /// The value of a witness column at a needed prior row is not yet known,
    /// as when deriving a value in the next row from `x' = x` with `x` unknown.
    /// Carries the column name.
    PreviousValueUnknown(String),
    /// Some parts of an expression carry no bit-range knowledge, which is
    /// needed to decompose the equation. Carries the indices of the
    /// unconstrained operands.
    BitUnconstrained(Vec<usize>),
    /// The bit ranges of several operands overlap, so the equation cannot be
    /// split into independent parts.
    OverlappingBitConstraints,
    /// More than one row matches a lookup query.
    MultipleLookupMatches,
    /// An affine equation is underdetermined: it has more than one solution.
    MultipleLinearSolutions,
    /// A transfer pass made no progress.
    NoProgressTransferring,
    /// A quadratic term was found while looking for an affine expression.
    QuadraticTerm,
    /// A division term was found while looking for an affine expression.
    DivisionTerm,
    /// An exponentiation term was found while looking for an affine expression.
    ExponentiationTerm,
    /// The external oracle had no answer for a query this pass. Carries a
    /// rendering of the query and the column name.
    NoQueryAnswer(String, String),
    /// The scrutinee of a query's match expression is not a constant.
    NonConstantQueryMatchScrutinee,
    /// The left selector of a lookup is not a constant.
    NonConstantLeftSelector,
    /// A value to be written is not a constant.
    NonConstantWriteValue,
    /// An expression of a shape the evaluator does not handle. Carries detail.
    ExpressionEvaluationUnimplemented(String),
    /// The scrutinee is concrete but no arm pattern equals it and there is no
    /// default arm.
    NoMatchArmFound,
    /// Last resort: every solving approach was exhausted.
    SolvingFailed,
    /// Some knowledge was learned, such as a bit-range refinement, but no
    /// concrete value.
    NotConcrete,
    /// Several causes found together.
    Multiple(Vec<IncompleteCause>),
}

/// The causes a value stands for, with every `Multiple` aggregate flattened
/// away: a plain cause is itself, an aggregate is its members' causes in order.
pub open spec fn cause_leaves(c: IncompleteCause) -> Seq<IncompleteCause>
    decreases c,
{
    match c {
        IncompleteCause::Multiple(list) => cause_leaves_of(list@),
        _ => seq![c],
    }
}

/// The concatenation of the flattened causes of each element, in order.
pub open spec fn cause_leaves_of(s: Seq<IncompleteCause>) -> Seq<IncompleteCause>
    decreases s,
{
    if s.len() == 0 {
        Seq::empty()
    } else {
        cause_leaves(s.first()) + cause_leaves_of(s.drop_first())
    }
}

/// What combining causes `a` and `b` returns: an aggregate holding the
/// flattened causes of `a` followed by those of `b`.
pub open spec fn is_cause_combination(
    a: IncompleteCause,
    b: IncompleteCause,
    r: IncompleteCause,
) -> bool {
    r matches IncompleteCause::Multiple(list) && list@ == cause_leaves(a) + cause_leaves(b)
}

/// Appends the flattened causes of `c` to `out`.
#[verifier::loop_isolation(false)]
fn push_cause_leaves(out: &mut Vec<IncompleteCause>, c: IncompleteCause)
    ensures
        final(out)@ == old(out)@ + cause_leaves(c),
    decreases c,
{
    let ghost c0 = c;
    match c {
        IncompleteCause::Multiple(mut list) => {
            let ghost list0 = list;
            let ghost full = list@;
            let ghost out0 = out@;
            let ghost mut done: Seq<IncompleteCause> = Seq::empty();
            while list.len() > 0
                invariant
                    c0 == IncompleteCause::Multiple(list0),
                    full == list0@,
                    full == done + list@,
                    out@ + cause_leaves_of(list@) == out0 + cause_leaves_of(full),
                decreases list@.len(),
            {
                let ghost pre = list@;
                let x = list.remove(0);
                proof {
                    assert(x == list0@[done.len() as int]);
                    assert(decreases_to!(c0 => c0->Multiple_0));
                    assert(decreases_to!(list0 => list0@));
                    assert(decreases_to!(list0@ => list0@[done.len() as int]));
                    assert(decreases_to!(c0 => x));
                    assert(list@ =~= pre.drop_first());
                }
                push_cause_leaves(out, x);
                proof {
                    done = done + seq![x];
                    assert(full =~= done + list@);
                    assert(cause_leaves_of(pre) == cause_leaves(x) + cause_leaves_of(list@));
                    assert((out@ + cause_leaves_of(list@)) =~= out0 + cause_leaves_of(full));
                }
            }
            proof {
                assert(cause_leaves_of(list@) =~= Seq::<IncompleteCause>::empty());
                assert(out@ =~= out@ + cause_leaves_of(list@));
                assert(cause_leaves(c0) == cause_leaves_of(full));
            }
        },
        other => {
            proof {
                assert(cause_leaves(other) =~= seq![other]);
            }
            out.push(other);
        },
    }
}

impl IncompleteCause {
    /// Merges two causes into one aggregate that keeps every cause of both
    /// sides, in encounter order, with nested aggregates fully flattened —
    /// repeated combination never discards a cause.
    pub fn combine(self, right: IncompleteCause) -> (r: IncompleteCause)
        ensures
            is_cause_combination(self, right, r),
    {
        let mut list: Vec<IncompleteCause> = Vec::new();
        push_cause_leaves(&mut list, self);
        push_cause_leaves(&mut list, right);
        proof {
            assert(list@ =~= cause_leaves(self) + cause_leaves(right));
        }
        IncompleteCause::Multiple(list)
    }
}

/// Every flattened cause is itself plain: never an aggregate.
pub proof fn lemma_cause_leaves_flat(c: IncompleteCause)
    ensures
        forall|i: int|
            0 <= i < cause_leaves(c).len() ==> !(#[trigger] cause_leaves(c)[i] is Multiple),
    decreases c,
{
    match c {
        IncompleteCause::Multiple(list) => {
            lemma_cause_leaves_of_flat(list@);
        },
        _ => {},
    }
}

/// Every element of the flattened causes of a sequence is plain.
pub proof fn lemma_cause_leaves_of_flat(s: Seq<IncompleteCause>)
    ensures
        forall|i: int|
            0 <= i < cause_leaves_of(s).len() ==> !(#[trigger] cause_leaves_of(s)[i] is Multiple),
    decreases s,
{
    if s.len() > 0 {
        lemma_cause_leaves_flat(s.first());
        lemma_cause_leaves_of_flat(s.drop_first());
    }
}

/// Flattening a sequence of plain causes gives the sequence back.
pub proof fn lemma_flat_seq_leaves(s: Seq<IncompleteCause>)
    requires
        forall|i: int| 0 <= i < s.len() ==> !(#[trigger] s[i] is Multiple),
    ensures
        cause_leaves_of(s) == s,
    decreases s.len(),
{
    if s.len() == 0 {
        assert(cause_leaves_of(s) =~= s);
    } else {
        assert(cause_leaves(s.first()) =~= seq![s.first()]);
        lemma_flat_seq_leaves(s.drop_first());
        assert(cause_leaves_of(s) =~= s);
    }
}

/// The flattening law: whatever the grouping of repeated combination, the
/// flattened causes of a combination are exactly the flattened causes of the
/// left operand followed by those of the right — every cause encountered is
/// kept, in encounter order, in one flat aggregate.
pub proof fn lemma_cause_combination_flattens(
    a: IncompleteCause,
    b: IncompleteCause,
    r: IncompleteCause,
)
    requires
        is_cause_combination(a, b, r),
    ensures
        cause_leaves(r) == cause_leaves(a) + cause_leaves(b),
{
    lemma_cause_leaves_flat(a);
    lemma_cause_leaves_flat(b);
    let merged = cause_leaves(a) + cause_leaves(b);
    assert(forall|i: int| 0 <= i < merged.len() ==> !(#[trigger] merged[i] is Multiple));
    lemma_flat_seq_leaves(merged);
}

/// Two plain causes combine into an aggregate of exactly the two, in order.
pub proof fn lemma_cause_pair_combination(
    a: IncompleteCause,
    b: IncompleteCause,
    r: IncompleteCause,
)
    requires
        !(a is Multiple),
        !(b is Multiple),
        is_cause_combination(a, b, r),
    ensures
        r matches IncompleteCause::Multiple(list) && list@ =~= seq![a, b],
{
    assert(cause_leaves(a) =~= seq![a]);
    assert(cause_leaves(b) =~= seq![b]);
}

/// The outcome of one evaluation: fully resolved, or held up by a cause worth
/// retrying after other identities resolve more unknowns.
#[derive(Debug, PartialEq, Eq)]
pub enum EvalStatus {
    Complete,
    Incomplete(IncompleteCause),
}

/// What combining statuses `a` and `b` returns: complete only when both sides
/// are; an incomplete side wins over a complete one; two incomplete sides
/// merge their causes.
pub open spec fn is_status_combination(a: EvalStatus, b: EvalStatus, r: EvalStatus) -> bool {
    match (a, b) {
        (EvalStatus::Complete, EvalStatus::Complete) => r == EvalStatus::Complete,
        (EvalStatus::Complete, EvalStatus::Incomplete(i)) => r == EvalStatus::Incomplete(i),
        (EvalStatus::Incomplete(i), EvalStatus::Complete) => r == EvalStatus::Incomplete(i),
        (EvalStatus::Incomplete(l), EvalStatus::Incomplete(rr)) => r matches EvalStatus::Incomplete(
            m,
        ) && is_cause_combination(l, rr, m),
    }
}

impl EvalStatus {
    /// Combines the statuses of two evaluations of parts of one whole.
    pub fn combine(self, other: EvalStatus) -> (r: EvalStatus)
        ensures
            is_status_combination(self, other, r),
    {
        match (self, other) {
            (EvalStatus::Complete, EvalStatus::Complete) => EvalStatus::Complete,
            (EvalStatus::Incomplete(left), EvalStatus::Incomplete(right)) => EvalStatus::Incomplete(
                left.combine(right),
            ),
            (EvalStatus::Complete, EvalStatus::Incomplete(i)) => EvalStatus::Incomplete(i),
            (EvalStatus::Incomplete(i), EvalStatus::Complete) => EvalStatus::Incomplete(i),
        }
    }
}

impl From<IncompleteCause> for EvalStatus {
    fn from(value: IncompleteCause) -> Self {
        EvalStatus::Incomplete(value)
    }
}

impl vstd::std_specs::convert::FromSpecImpl<IncompleteCause> for EvalStatus {
    open spec fn obeys_from_spec() -> bool {
        true
    }

    open spec fn from_spec(v: IncompleteCause) -> Self {
        EvalStatus::Incomplete(v)
    }
}

/// New knowledge for a witness column: either a pinned concrete value or a
/// weaker bit-range refinement that narrows possibilities without determining
/// them. The two strengths are never conflated.
#[derive(Debug, Clone, PartialEq, Eq)]
pub enum Constraint {
    Assignment(FieldElement),
    BitConstraint(BitConstraint),
}

/// New assignments or constraints for witness columns identified by an id.
pub type Constraints = Vec<(usize, Constraint)>;

/// What one evaluation produced: the constraints learned so far — retained
/// even when the evaluation could not complete — and its status.
#[derive(Debug, PartialEq, Eq)]
pub struct EvalValue {
    pub constraints: Constraints,
    pub status: EvalStatus,
}

impl EvalValue {
    /// Whether the evaluation fully resolved.
    pub fn is_complete(&self) -> (r: bool)
        ensures
            r == (self.status is Complete),
    {
        matches!(self.status, EvalStatus::Complete)
    }

    /// Whether the evaluation learned no constraints.
    pub fn is_empty(&self) -> (r: bool)
        ensures
            r == (self.constraints@.len() == 0),
    {
        self.constraints.is_empty()
    }

    /// A result that learned nothing and is held up by `cause`.
    pub fn incomplete(cause: IncompleteCause) -> (r: Self)
        ensures
            r.constraints@.len() == 0,
            r.status == EvalStatus::Incomplete(cause),
    {
        Self::new(Vec::new(), EvalStatus::Incomplete(cause))
    }

    /// A result that learned `constraints` but is still held up by `cause`.
    pub fn incomplete_with_constraints(constraints: Constraints, cause: IncompleteCause) -> (r:
        Self)
        ensures
            r.constraints == constraints,
            r.status == EvalStatus::Incomplete(cause),
    {
        Self::new(constraints, EvalStatus::Incomplete(cause))
    }

    /// A fully resolved result with `constraints`.
    pub fn complete(constraints: Constraints) -> (r: Self)
        ensures
            r.constraints == constraints,
            r.status == EvalStatus::Complete,
    {
        Self::new(constraints, EvalStatus::Complete)
    }

    fn new(constraints: Constraints, status: EvalStatus) -> (r: Self)
        ensures
            r.constraints == constraints,
            r.status == status,
    {
        Self { constraints, status }
    }

    /// Merges another result into this one: the other side's constraints are
    /// appended in order — entries already learned are never dropped, whatever
    /// the combined status — and the statuses combine.
    pub fn combine(&mut self, other: EvalValue)
        ensures
            final(self).constraints@ == old(self).constraints@ + other.constraints@,
            is_status_combination(old(self).status, other.status, final(self).status),
    {
        let EvalValue { constraints: mut other_constraints, status: other_status } = other;
        self.constraints.append(&mut other_constraints);
        let mut status = EvalStatus::Complete;
        core::mem::swap(&mut status, &mut self.status);
        self.status = status.combine(other_status);
    }
}

/// Result of evaluating an expression or lookup.
pub type EvalResult = Result<EvalValue, EvalError>;

/// A hard failure of the current identity or lookup attempt. `RowsExhausted`
/// is fatal for the whole solve; `ConstraintUnsatisfiable` and
/// `ConflictingBitConstraints` mean the program itself is unsatisfiable;
/// `FixedLookupFailed` and `Generic` are attempt-local.
#[derive(Debug, PartialEq)]
pub enum EvalError {
    /// The solver ran out of rows: the table is too small.
    RowsExhausted,
    /// A constraint that cannot be satisfied, with a rendering of the
    /// offending expression.
    ConstraintUnsatisfiable(String),
    /// The bit constraints in an equation conflict, as for `x = 0x100` where
    /// `x` is known to be at most `0xff`.
    ConflictingBitConstraints,
    /// A lookup into the fixed columns found no match.
    FixedLookupFailed,
    Generic(String),
    /// Several errors from independent failed sub-evaluations.
    Multiple(Vec<EvalError>),
}

/// The errors a value stands for, with every `Multiple` aggregate flattened
/// away.
pub open spec fn error_leaves(e: EvalError) -> Seq<EvalError>
    decreases e,
{
    match e {
        EvalError::Multiple(list) => error_leaves_of(list@),
        _ => seq![e],
    }
}

/// The concatenation of the flattened errors of each element, in order.
pub open spec fn error_leaves_of(s: Seq<EvalError>) -> Seq<EvalError>
    decreases s,
{
    if s.len() == 0 {
        Seq::empty()
    } else {
        error_leaves(s.first()) + error_leaves_of(s.drop_first())
    }
}

/// What combining errors `a` and `b` returns: an aggregate holding the
/// flattened errors of `a` followed by those of `b`.
pub open spec fn is_error_combination(a: EvalError, b: EvalError, r: EvalError) -> bool {
    r matches EvalError::Multiple(list) && list@ == error_leaves(a) + error_leaves(b)
}

/// Appends the flattened errors of `e` to `out`.
#[verifier::loop_isolation(false)]
fn push_error_leaves(out: &mut Vec<EvalError>, e: EvalError)
    ensures
        final(out)@ == old(out)@ + error_leaves(e),
    decreases e,
{
    let ghost e0 = e;
    match e {
        EvalError::Multiple(mut list) => {
            let ghost list0 = list;
            let ghost full = list@;
            let ghost out0 = out@;
            let ghost mut done: Seq<EvalError> = Seq::empty();
            while list.len() > 0
                invariant
                    e0 == EvalError::Multiple(list0),
                    full == list0@,
                    full == done + list@,
                    out@ + error_leaves_of(list@) == out0 + error_leaves_of(full),
                decreases list@.len(),
            {
                let ghost pre = list@;
                let x = list.remove(0);
                proof {
                    assert(x == list0@[done.len() as int]);
                    assert(decreases_to!(e0 => e0->Multiple_0));
                    assert(decreases_to!(list0 => list0@));
                    assert(decreases_to!(list0@ => list0@[done.len() as int]));
                    assert(decreases_to!(e0 => x));
                    assert(list@ =~= pre.drop_first());
                }
                push_error_leaves(out, x);
                proof {
                    done = done + seq![x];
                    assert(full =~= done + list@);
                    assert(error_leaves_of(pre) == error_leaves(x) + error_leaves_of(list@));
                    assert((out@ + error_leaves_of(list@)) =~= out0 + error_leaves_of(full));
                }
            }
            proof {
                assert(error_leaves_of(list@) =~= Seq::<EvalError>::empty());
                assert(out@ =~= out@ + error_leaves_of(list@));
                assert(error_leaves(e0) == error_leaves_of(full));
            }
        },
        other => {
            proof {
                assert(error_leaves(other) =~= seq![other]);
            }
            out.push(other);
        },
    }
}

impl EvalError {
    /// Merges two errors into one aggregate that keeps every error of both
    /// sides, in encounter order, with nested aggregates fully flattened, so
    /// a report can list every cause of failure, not just the first.
    pub fn combine(self, other: EvalError) -> (r: EvalError)
        ensures
            is_error_combination(self, other, r),
    {
        let mut list: Vec<EvalError> = Vec::new();
        push_error_leaves(&mut list, self);
        push_error_leaves(&mut list, other);
        proof {
            assert(list@ =~= error_leaves(self) + error_leaves(other));
        }
        EvalError::Multiple(list)
    }
}

impl From<String> for EvalError {
    fn from(value: String) -> Self {
        EvalError::Generic(value)
    }
}

impl vstd::std_specs::convert::FromSpecImpl<String> for EvalError {
    open spec fn obeys_from_spec() -> bool {
        true
    }

    open spec fn from_spec(v: String) -> Self {
        EvalError::Generic(v)
    }
}

/// The diagnostic message of an error; an aggregate's message is its members'
/// messages concatenated in order.
pub open spec fn error_message(e: EvalError) -> Seq<char>
    decreases e,
{
    match e {
        EvalError::ConstraintUnsatisfiable(detail) => "Linear constraint is not satisfiable: "@
            + detail@,
        EvalError::Multiple(errors) => error_messages_of(errors@),
        EvalError::ConflictingBitConstraints => "Bit constraints in the expression are conflicting or do not match the constant / offset."@,
        EvalError::RowsExhausted => "Table rows exhausted"@,
        EvalError::FixedLookupFailed => "Lookup into fixed columns failed: no match"@,
        EvalError::Generic(s) => s@,
    }
}

/// The concatenation of the messages of each element, in order.
pub open spec fn error_messages_of(s: Seq<EvalError>) -> Seq<char>
    decreases s,
{
    if s.len() == 0 {
        Seq::empty()
    } else {
        error_message(s.first()) + error_messages_of(s.drop_first())
    }
}

impl EvalError {
    /// Renders the diagnostic message; an aggregate renders every underlying
    /// message.
    pub fn render(&self) -> (r: String)
        ensures
            r@ == error_message(*self),
        decreases *self,
    {
        match self {
            EvalError::ConstraintUnsatisfiable(detail) => {
                let mut s = String::from_str("Linear constraint is not satisfiable: ");
                s.append(detail.as_str());
                s
            },
            EvalError::Multiple(errors) => {
                let mut s = String::new();
                let n = errors.len();
                let mut i: usize = 0;
                proof {
                    assert(errors@.skip(0) =~= errors@);
                    assert(s@ + error_messages_of(errors@) =~= error_messages_of(errors@));
                }
                while i < n
                    invariant
                        *self == EvalError::Multiple(*errors),
                        i <= n,
                        n == errors@.len(),
                        s@ + error_messages_of(errors@.skip(i as int)) == error_messages_of(
                            errors@,
                        ),
                    decreases n - i,
                {
                    proof {
                        let rest = errors@.skip(i as int);
                        assert(rest.first() == errors@[i as int]);
                        assert(rest.drop_first() =~= errors@.skip(i as int + 1));
                        assert(*self == EvalError::Multiple(*errors));
                        assert(decreases_to!(*self => self->Multiple_0));
                        assert(self->Multiple_0 == *errors);
                        assert(decreases_to!(*errors => errors@));
                        assert(decreases_to!(errors@ => errors@[i as int]));
                    }
                    let sub = errors[i].render();
                    s.append(sub.as_str());
                    proof {
                        assert((s@ + error_messages_of(errors@.skip(i as int + 1))) =~= (
                        error_messages_of(errors@)));
                    }
                    i += 1;
                }
                proof {
                    assert(errors@.skip(n as int) =~= Seq::<EvalError>::empty());
                    assert(s@ =~= s@ + error_messages_of(errors@.skip(n as int)));
                }
                s
            },
            EvalError::ConflictingBitConstraints => String::from_str(
                "Bit constraints in the expression are conflicting or do not match the constant / offset.",
            ),
            EvalError::RowsExhausted => String::from_str("Table rows exhausted"),
            EvalError::FixedLookupFailed => String::from_str(
                "Lookup into fixed columns failed: no match",
            ),
            EvalError::Generic(s) => s.clone(),
        }
    }
}

/// Every flattened error is itself plain: never an aggregate.
pub proof fn lemma_error_leaves_flat(e: EvalError)
    ensures
        forall|i: int|
            0 <= i < error_leaves(e).len() ==> !(#[trigger] error_leaves(e)[i] is Multiple),
    decreases e,
{
    match e {
        EvalError::Multiple(list) => {
            lemma_error_leaves_of_flat(list@);
        },
        _ => {},
    }
}

/// Every element of the flattened errors of a sequence is plain.
pub proof fn lemma_error_leaves_of_flat(s: Seq<EvalError>)
    ensures
        forall|i: int|
            0 <= i < error_leaves_of(s).len() ==> !(#[trigger] error_leaves_of(s)[i] is Multiple),
    decreases s,
{
    if s.len() > 0 {
        lemma_error_leaves_flat(s.first());
        lemma_error_leaves_of_flat(s.drop_first());
    }
}

/// Flattening a sequence of plain errors gives the sequence back.
pub proof fn lemma_flat_seq_error_leaves(s: Seq<EvalError>)
    requires
        forall|i: int| 0 <= i < s.len() ==> !(#[trigger] s[i] is Multiple),
    ensures
        error_leaves_of(s) == s,
    decreases s.len(),
{
    if s.len() == 0 {
        assert(error_leaves_of(s) =~= s);
    } else {
        assert(error_leaves(s.first()) =~= seq![s.first()]);
        lemma_flat_seq_error_leaves(s.drop_first());
        assert(error_leaves_of(s) =~= s);
    }
}

/// The flattening law for errors: whatever the grouping of repeated
/// combination, the flattened errors of a combination are exactly the
/// flattened errors of the left operand followed by those of the right —
/// a report built by repeated combination lists every failure encountered,
/// in encounter order, in one flat aggregate.
pub proof fn lemma_error_combination_flattens(a: EvalError, b: EvalError, r: EvalError)
    requires
        is_error_combination(a, b, r),
    ensures
        error_leaves(r) == error_leaves(a) + error_leaves(b),
{
    lemma_error_leaves_flat(a);
    lemma_error_leaves_flat(b);
    let merged = error_leaves(a) + error_leaves(b);
    assert(forall|i: int| 0 <= i < merged.len() ==> !(#[trigger] merged[i] is Multiple));
    lemma_flat_seq_error_leaves(merged);
}

/// Two plain errors combine into an aggregate of exactly the two, in order,
/// and its message carries both underlying messages.
pub proof fn lemma_error_pair_combination(a: EvalError, b: EvalError, r: EvalError)
    requires
        !(a is Multiple),
        !(b is Multiple),
        is_error_combination(a, b, r),
    ensures
        r matches EvalError::Multiple(list) && list@ =~= seq![a, b],
        error_message(r) == error_message(a) + error_message(b),
{
    assert(error_leaves(a) =~= seq![a]);
    assert(error_leaves(b) =~= seq![b]);
    if let EvalError::Multiple(list) = r {
        assert(list@ =~= seq![a, b]);
        let empty = Seq::<EvalError>::empty();
        assert(error_messages_of(empty) =~= Seq::<char>::empty());
        assert(seq![b].first() == b);
        assert(seq![b].drop_first() =~= empty);
        assert(error_messages_of(seq![b]) == error_message(b) + error_messages_of(empty));
        assert(error_messages_of(seq![b]) =~= error_message(b));
        assert(list@.first() == a);
        assert(list@.drop_first() =~= seq![b]);
        assert(error_messages_of(list@) == error_message(a) + error_messages_of(seq![b]));
        assert(error_message(r) == error_message(a) + error_message(b));
    }
}

} // verus!
