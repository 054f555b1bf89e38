//! The analyzed intermediate representation of a PIL source file: polynomial
//! declarations, public declarations, identities and expressions, lowered from
//! a parser's AST. Built once, then immutable; every downstream consumer reads
//! it by reference. The maps are association lists with unique keys, and
//! `source_order` is the sole source of ordering: map entry order is never
//! relied upon.

use vstd::prelude::*;
use crate::number::{DegreeType, FieldElement};

verus! {

/// Where a statement stood in the source file.
#[derive(Debug, PartialEq, Eq)]
pub struct SourceRef {
    pub file: String,
    pub line: usize,
}

/// The three kinds of column a polynomial can declare: a witness column
/// supplied by the prover, a fixed column known at setup time, or a derived
/// column computed from other columns.
#[derive(Debug, Clone, Copy, PartialEq, Eq, Structural, Hash)]
pub enum PolynomialType {
    Committed,
    Constant,
    Intermediate,
}

/// A declared polynomial: one column, or an array of columns when a length is
/// present.
#[derive(Debug, PartialEq, Eq)]
pub struct Polynomial {
    pub id: u64,
    pub source: SourceRef,
    pub absolute_name: String,
    pub poly_type: PolynomialType,
    pub degree: DegreeType,
    pub length: Option<DegreeType>,
}

impl Polynomial {
    /// Whether the declaration is an array of columns.
    pub fn is_array(&self) -> (r: bool)
        ensures
            r == (self.length is Some),
    {
        self.length.is_some()
    }
}

/// A binary operator of the expression language.
#[derive(Debug, Clone, Copy, PartialEq, Eq, Structural)]
pub enum BinaryOperator {
    Add,
    Sub,
    Mul,
    Div,
    Mod,
    Pow,
    BinaryAnd,
    BinaryOr,
    BinaryXor,
    ShiftLeft,
    ShiftRight,
}

/// A unary operator of the expression language.
#[derive(Debug, Clone, Copy, PartialEq, Eq, Structural)]
pub enum UnaryOperator {
    Plus,
    Minus,
}

/// A reference to a polynomial: by name, optionally into an array instance,
/// optionally at the next row.
#[derive(Debug, PartialEq, Eq)]
pub struct PolynomialReference {
    pub name: String,
    pub index: Option<u64>,
    pub next: bool,
}

/// An expression of the constraint language, to be evaluated per row.
#[derive(Debug, PartialEq, Eq)]
pub enum Expression {
    /// A reference to a named global constant.
    Constant(String),
    PolynomialReference(PolynomialReference),
    /// A reference to a local variable by index.
    LocalVariableReference(u64),
    /// A reference to a public boundary value by name.
    PublicReference(String),
    /// A field-element literal.
    Number(FieldElement),
    /// A string literal.
    String(String),
    Tuple(Vec<Expression>),
    BinaryOperation(Box<Expression>, BinaryOperator, Box<Expression>),
    UnaryOperation(UnaryOperator, Box<Expression>),
    /// A call to a non-macro function by name, with arguments.
    FunctionCall(String, Vec<Expression>),
    /// A match on a scrutinee: ordered arms of an optional literal pattern —
    /// a missing pattern is the default arm — and a result expression.
    MatchExpression(Box<Expression>, Vec<(Option<FieldElement>, Expression)>),
}

/// An array of expressions whose whole list is replayed `repetitions` times.
#[derive(Debug, PartialEq, Eq)]
pub struct RepeatedArray {
    pub values: Vec<Expression>,
    pub repetitions: DegreeType,
}

impl RepeatedArray {
    /// The invariant of a repeated array: zero repetitions only of nothing,
    /// and an empty list repeated at most once.
    pub open spec fn wf(&self) -> bool {
        &&& self.repetitions == 0 ==> self.values@.len() == 0
        &&& self.values@.len() == 0 ==> self.repetitions <= 1
    }

    /// Builds a repeated array, rejecting exactly the part pairs that violate
    /// the invariant: zero repetitions of a non-empty list, or an empty list
    /// with more than one repetition.
    pub fn new(values: Vec<Expression>, repetitions: DegreeType) -> (r: Option<RepeatedArray>)
        ensures
            r is Some <==> ((repetitions == 0 ==> values@.len() == 0) && (values@.len() == 0
                ==> repetitions <= 1)),
            r matches Some(a) ==> a.values == values && a.repetitions == repetitions && a.wf(),
    {
        if (repetitions == 0 && values.len() > 0) || (values.len() == 0 && repetitions > 1) {
            None
        } else {
            Some(RepeatedArray { values, repetitions })
        }
    }

    /// The number of elements in this array, repetitions included.
    pub fn size(&self) -> (r: DegreeType)
        requires
            self.wf(),
            self.values@.len() * self.repetitions <= u64::MAX,
        ensures
            r == self.values@.len() * self.repetitions,
    {
        (self.values.len() as u64) * self.repetitions
    }
}

/// How a column's values are defined: computed per row from an expression,
/// given explicitly as repeated-array content, or requested per row from an
/// external oracle.
#[derive(Debug, PartialEq, Eq)]
pub enum FunctionValueDefinition {
    Mapping(Expression),
    Array(Vec<RepeatedArray>),
    Query(Expression),
}

/// A named boundary value pinned to one cell of one polynomial instance.
#[derive(Debug, PartialEq, Eq)]
pub struct PublicDeclaration {
    pub id: u64,
    pub source: SourceRef,
    pub name: String,
    pub polynomial: PolynomialReference,
    /// The evaluation point of the polynomial, not the array index.
    pub index: DegreeType,
}

/// The kinds of identity: a per-row polynomial equation, set membership,
/// a permutation relation, or a direct wiring of two columns.
#[derive(Debug, Clone, Copy, PartialEq, Eq, Structural, Hash)]
pub enum IdentityKind {
    Polynomial,
    Plookup,
    Permutation,
    Connect,
}

/// An ordered list of expressions gated by an optional selector; no selector
/// means always active.
#[derive(Debug, PartialEq, Eq)]
pub struct SelectedExpressions {
    pub selector: Option<Expression>,
    pub expressions: Vec<Expression>,
}

/// A constraint that must hold for every active row.
#[derive(Debug, PartialEq, Eq)]
pub struct Identity {
    /// The id is specific to the kind.
    pub id: u64,
    pub kind: IdentityKind,
    pub source: SourceRef,
    /// For a simple polynomial identity, the selector holds the actual
    /// expression.
    pub left: SelectedExpressions,
    pub right: SelectedExpressions,
}

/// One entry of the deterministic source order: a definition or public
/// declaration by name, or an identity by id.
#[derive(Debug, PartialEq, Eq)]
pub enum StatementIdentifier {
    Definition(String),
    PublicDeclaration(String),
    Identity(usize),
}

/// A polynomial together with its optional value definition.
pub type Definition = (Polynomial, Option<FunctionValueDefinition>);

/// Whether no two entries of an association list share a key.
pub open spec fn keys_unique<V>(s: Seq<(String, V)>) -> bool {
    forall|i: int, j: int| 0 <= i < j < s.len() ==> (#[trigger] s[i]).0@ != (#[trigger] s[j]).0@
}

/// Whether an association list holds an entry under `name`.
pub open spec fn has_key<V>(s: Seq<(String, V)>, name: Seq<char>) -> bool {
    exists|i: int| 0 <= i < s.len() && (#[trigger] s[i]).0@ == name
}

/// The index of the entry under `name`.
pub open spec fn key_index<V>(s: Seq<(String, V)>, name: Seq<char>) -> int {
    choose|i: int| 0 <= i < s.len() && (#[trigger] s[i]).0@ == name
}

/// The value of the entry under `name`.
pub open spec fn value_of<V>(s: Seq<(String, V)>, name: Seq<char>) -> V {
    s[key_index(s, name)].1
}

/// The declared length of a definition: its array length, or 1 for a scalar.
pub open spec fn declared_size(d: Definition) -> int {
    match d.0.length {
        Some(l) => l as int,
        None => 1,
    }
}

/// The sum of declared lengths over the definitions of one polynomial type.
pub open spec fn type_count_of(defs: Seq<(String, Definition)>, t: PolynomialType) -> int
    decreases defs.len(),
{
    if defs.len() == 0 {
        0
    } else {
        (if defs.first().1.0.poly_type == t {
            declared_size(defs.first().1)
        } else {
            0
        }) + type_count_of(defs.drop_first(), t)
    }
}

/// The sum of declared lengths over all definitions.
pub open spec fn total_size_of(defs: Seq<(String, Definition)>) -> int
    decreases defs.len(),
{
    if defs.len() == 0 {
        0
    } else {
        declared_size(defs.first().1) + total_size_of(defs.drop_first())
    }
}

/// A per-type count never exceeds the total, and neither is negative.
pub proof fn lemma_type_count_bounds(defs: Seq<(String, Definition)>, t: PolynomialType)
    ensures
        0 <= type_count_of(defs, t) <= total_size_of(defs),
    decreases defs.len(),
{
    if defs.len() > 0 {
        lemma_type_count_bounds(defs.drop_first(), t);
    }
}

/// The three per-type counts partition the total: committed, intermediate and
/// constant declared lengths together sum to the declared length of every
/// definition.
pub proof fn lemma_counts_partition(defs: Seq<(String, Definition)>)
    ensures
        type_count_of(defs, PolynomialType::Committed) + type_count_of(
            defs,
            PolynomialType::Intermediate,
        ) + type_count_of(defs, PolynomialType::Constant) == total_size_of(defs),
    decreases defs.len(),
{
    if defs.len() > 0 {
        lemma_counts_partition(defs.drop_first());
    }
}

/// The definitions of one polynomial type in source order: walk the source
/// order, keep only `Definition` entries whose underlying polynomial matches,
/// and take the corresponding definition of each.
pub open spec fn defs_in_source_order(
    so: Seq<StatementIdentifier>,
    defs: Seq<(String, Definition)>,
    t: PolynomialType,
) -> Seq<Definition>
    decreases so.len(),
{
    if so.len() == 0 {
        Seq::empty()
    } else {
        let rest = defs_in_source_order(so.drop_first(), defs, t);
        match so.first() {
            StatementIdentifier::Definition(name) => if has_key(defs, name@) && value_of(
                defs,
                name@,
            ).0.poly_type == t {
                seq![value_of(defs, name@)] + rest
            } else {
                rest
            },
            _ => rest,
        }
    }
}

/// Whether a source-order entry names a definition of the given type.
pub open spec fn selects_definition(
    si: StatementIdentifier,
    defs: Seq<(String, Definition)>,
    t: PolynomialType,
) -> bool {
    match si {
        StatementIdentifier::Definition(name) => has_key(defs, name@) && value_of(
            defs,
            name@,
        ).0.poly_type == t,
        _ => false,
    }
}

/// The definition a selected source-order entry stands for.
pub open spec fn selected_definition(
    si: StatementIdentifier,
    defs: Seq<(String, Definition)>,
) -> Definition {
    match si {
        StatementIdentifier::Definition(name) => value_of(defs, name@),
        _ => arbitrary(),
    }
}

/// Appending one entry to the source order appends its selection, if any.
proof fn lemma_defs_in_source_order_snoc(
    so: Seq<StatementIdentifier>,
    x: StatementIdentifier,
    defs: Seq<(String, Definition)>,
    t: PolynomialType,
)
    ensures
        defs_in_source_order(so.push(x), defs, t) == defs_in_source_order(so, defs, t) + (if
        selects_definition(x, defs, t) {
            seq![selected_definition(x, defs)]
        } else {
            Seq::empty()
        }),
    decreases so.len(),
{
    let tail = if selects_definition(x, defs, t) {
        seq![selected_definition(x, defs)]
    } else {
        Seq::<Definition>::empty()
    };
    if so.len() == 0 {
        assert(so.push(x).drop_first() =~= Seq::<StatementIdentifier>::empty());
        assert(defs_in_source_order(Seq::<StatementIdentifier>::empty(), defs, t)
            == Seq::<Definition>::empty());
        assert(so.push(x).first() == x);
        assert(defs_in_source_order(so, defs, t) + tail =~= tail);
        assert(defs_in_source_order(so.push(x), defs, t) =~= tail);
    } else {
        assert(so.push(x).first() == so.first());
        assert(so.push(x).drop_first() =~= so.drop_first().push(x));
        lemma_defs_in_source_order_snoc(so.drop_first(), x, defs, t);
        match so.first() {
            StatementIdentifier::Definition(name) => {
                if has_key(defs, name@) && value_of(defs, name@).0.poly_type == t {
                    assert(defs_in_source_order(so.push(x), defs, t) =~= defs_in_source_order(
                        so,
                        defs,
                        t,
                    ) + tail);
                } else {
                    assert(defs_in_source_order(so.push(x), defs, t) =~= defs_in_source_order(
                        so,
                        defs,
                        t,
                    ) + tail);
                }
            },
            _ => {
                assert(defs_in_source_order(so.push(x), defs, t) =~= defs_in_source_order(
                    so,
                    defs,
                    t,
                ) + tail);
            },
        }
    }
}

/// The selection law: the definitions of one type in source order are exactly
/// the source order filtered to the `Definition` entries of that type —
/// public declarations and identities dropped — each mapped to its
/// definition, in unchanged relative order.
pub proof fn lemma_defs_in_source_order_is_filter(
    so: Seq<StatementIdentifier>,
    defs: Seq<(String, Definition)>,
    t: PolynomialType,
)
    ensures
        defs_in_source_order(so, defs, t) == so.filter(
            |si: StatementIdentifier| selects_definition(si, defs, t),
        ).map_values(|si: StatementIdentifier| selected_definition(si, defs)),
    decreases so.len(),
{
    reveal(Seq::filter);
    let pred = |si: StatementIdentifier| selects_definition(si, defs, t);
    let f = |si: StatementIdentifier| selected_definition(si, defs);
    if so.len() == 0 {
        assert(so.filter(pred).map_values(f) =~= defs_in_source_order(so, defs, t));
    } else {
        let pre = so.drop_last();
        let x = so.last();
        assert(so =~= pre.push(x));
        lemma_defs_in_source_order_is_filter(pre, defs, t);
        lemma_defs_in_source_order_snoc(pre, x, defs, t);
        assert(so.filter(pred) == if pred(x) {
            pre.filter(pred).push(x)
        } else {
            pre.filter(pred)
        });
        if pred(x) {
            assert(pre.filter(pred).push(x).map_values(f) =~= pre.filter(pred).map_values(f).push(
                f(x),
            ));
            assert(defs_in_source_order(so, defs, t) =~= so.filter(pred).map_values(f));
        } else {
            assert(defs_in_source_order(so, defs, t) + Seq::<Definition>::empty()
                =~= defs_in_source_order(so, defs, t));
            assert(defs_in_source_order(so, defs, t) =~= so.filter(pred).map_values(f));
        }
    }
}

/// The analyzed program: global constants (a single flat namespace), the
/// definitions and public declarations by name, the identities in order, and
/// the source order of all of them. Built once by lowering an AST, then
/// immutable.
#[derive(Debug, PartialEq, Eq)]
pub struct Analyzed {
    /// Constants are not namespaced.
    pub constants: Vec<(String, FieldElement)>,
    pub definitions: Vec<(String, Definition)>,
    pub public_declarations: Vec<(String, PublicDeclaration)>,
    pub identities: Vec<Identity>,
    /// The order in which definitions, public declarations and identities
    /// appear in the source.
    pub source_order: Vec<StatementIdentifier>,
}

/// Finds the entry under `name`, if any.
fn find_definition_index(defs: &Vec<(String, Definition)>, name: &String) -> (r: Option<usize>)
    ensures
        r matches Some(i) ==> i < defs@.len() && defs@[i as int].0@ == name@,
        r is None ==> !has_key(defs@, name@),
{
    let n = defs.len();
    let mut i: usize = 0;
    while i < n
        invariant
            i <= n,
            n == defs@.len(),
            forall|j: int| 0 <= j < i ==> (#[trigger] defs@[j]).0@ != name@,
        decreases n - i,
    {
        if defs[i].0 == *name {
            return Some(i);
        }
        i += 1;
    }
    None
}

impl Analyzed {
    /// Well-formedness: the maps have unique keys, and every definition the
    /// source order names is present.
    pub open spec fn wf(&self) -> bool {
        &&& keys_unique(self.constants@)
        &&& keys_unique(self.definitions@)
        &&& keys_unique(self.public_declarations@)
        &&& forall|i: int|
            0 <= i < self.source_order@.len() ==> ((#[trigger] self.source_order@[i])
                matches StatementIdentifier::Definition(name) ==> has_key(
                self.definitions@,
                name@,
            ))
    }

    /// The number of committed polynomials, with multiplicities for arrays.
    pub fn commitment_count(&self) -> (r: usize)
        requires
            total_size_of(self.definitions@) <= usize::MAX,
        ensures
            r == type_count_of(self.definitions@, PolynomialType::Committed),
    {
        self.declaration_type_count(PolynomialType::Committed)
    }

    /// The number of intermediate polynomials, with multiplicities for arrays.
    pub fn intermediate_count(&self) -> (r: usize)
        requires
            total_size_of(self.definitions@) <= usize::MAX,
        ensures
            r == type_count_of(self.definitions@, PolynomialType::Intermediate),
    {
        self.declaration_type_count(PolynomialType::Intermediate)
    }

    /// The number of constant polynomials, with multiplicities for arrays.
    pub fn constant_count(&self) -> (r: usize)
        requires
            total_size_of(self.definitions@) <= usize::MAX,
        ensures
            r == type_count_of(self.definitions@, PolynomialType::Constant),
    {
        self.declaration_type_count(PolynomialType::Constant)
    }

    /// The constant definitions in source order.
    pub fn constant_polys_in_source_order(&self) -> (r: Vec<&Definition>)
        requires
            self.wf(),
        ensures
            r@.len() == defs_in_source_order(
                self.source_order@,
                self.definitions@,
                PolynomialType::Constant,
            ).len(),
            forall|i: int|
                0 <= i < r@.len() ==> *(#[trigger] r@[i]) == defs_in_source_order(
                    self.source_order@,
                    self.definitions@,
                    PolynomialType::Constant,
                )[i],
    {
        self.definitions_in_source_order(PolynomialType::Constant)
    }

    /// The committed definitions in source order.
    pub fn committed_polys_in_source_order(&self) -> (r: Vec<&Definition>)
        requires
            self.wf(),
        ensures
            r@.len() == defs_in_source_order(
                self.source_order@,
                self.definitions@,
                PolynomialType::Committed,
            ).len(),
            forall|i: int|
                0 <= i < r@.len() ==> *(#[trigger] r@[i]) == defs_in_source_order(
                    self.source_order@,
                    self.definitions@,
                    PolynomialType::Committed,
                )[i],
    {
        self.definitions_in_source_order(PolynomialType::Committed)
    }

    /// The definitions of `poly_type` in exactly the order the source order
    /// gives, never the order of the backing map: this ordering is what any
    /// downstream column layout relies on.
    #[verifier::loop_isolation(false)]
    pub fn definitions_in_source_order(&self, poly_type: PolynomialType) -> (r: Vec<&Definition>)
        requires
            self.wf(),
        ensures
            r@.len() == defs_in_source_order(
                self.source_order@,
                self.definitions@,
                poly_type,
            ).len(),
            forall|i: int|
                0 <= i < r@.len() ==> *(#[trigger] r@[i]) == defs_in_source_order(
                    self.source_order@,
                    self.definitions@,
                    poly_type,
                )[i],
    {
        let ghost target = defs_in_source_order(self.source_order@, self.definitions@, poly_type);
        let mut r: Vec<&Definition> = Vec::new();
        let n = self.source_order.len();
        let mut i: usize = 0;
        proof {
            assert(self.source_order@.skip(0) =~= self.source_order@);
        }
        while i < n
            invariant
                i <= n,
                r@.len() + defs_in_source_order(
                    self.source_order@.skip(i as int),
                    self.definitions@,
                    poly_type,
                ).len() == target.len(),
                forall|j: int| 0 <= j < r@.len() ==> *(#[trigger] r@[j]) == target[j],
                forall|j: int|
                    r@.len() <= j < target.len() ==> target[j] == defs_in_source_order(
                        self.source_order@.skip(i as int),
                        self.definitions@,
                        poly_type,
                    )[j - r@.len()],
            decreases n - i,
        {
            proof {
                let rest = self.source_order@.skip(i as int);
                assert(rest.first() == self.source_order@[i as int]);
                assert(rest.drop_first() =~= self.source_order@.skip(i as int + 1));
            }
            match &self.source_order[i] {
                StatementIdentifier::Definition(name) => {
                    let idx = match find_definition_index(&self.definitions, name) {
                        Some(idx) => idx,
                        None => {
                            // Well-formedness has every name the source order
                            // mentions present in the definitions.
                            proof {
                                assert(has_key(self.definitions@, name@));
                                assert(false);
                            }
                            0
                        },
                    };
                    proof {
                        let k = key_index(self.definitions@, name@);
                        assert(self.definitions@[k].0@ == name@);
                        assert(k == idx as int);
                    }
                    let entry = &self.definitions[idx];
                    if entry.1.0.poly_type == poly_type {
                        r.push(&entry.1);
                    }
                },
                _ => {},
            }
            i += 1;
        }
        proof {
            assert(self.source_order@.skip(n as int) =~= Seq::<StatementIdentifier>::empty());
        }
        r
    }

    #[verifier::loop_isolation(false)]
    fn declaration_type_count(&self, poly_type: PolynomialType) -> (r: usize)
        requires
            total_size_of(self.definitions@) <= usize::MAX,
        ensures
            r == type_count_of(self.definitions@, poly_type),
    {
        proof {
            lemma_type_count_bounds(self.definitions@, poly_type);
        }
        let mut sum: usize = 0;
        let n = self.definitions.len();
        let mut i: usize = 0;
        proof {
            assert(self.definitions@.skip(0) =~= self.definitions@);
        }
        while i < n
            invariant
                i <= n,
                n == self.definitions@.len(),
                sum + type_count_of(self.definitions@.skip(i as int), poly_type) == type_count_of(
                    self.definitions@,
                    poly_type,
                ),
            decreases n - i,
        {
            proof {
                let rest = self.definitions@.skip(i as int);
                assert(rest.first() == self.definitions@[i as int]);
                assert(rest.drop_first() =~= self.definitions@.skip(i as int + 1));
                lemma_type_count_bounds(self.definitions@.skip(i as int + 1), poly_type);
                lemma_type_count_bounds(self.definitions@.skip(i as int), poly_type);
            }
            let entry = &self.definitions[i];
            if entry.1.0.poly_type == poly_type {
                let len: u64 = match entry.1.0.length {
                    Some(l) => l,
                    None => 1,
                };
                proof {
                    assert(declared_size(self.definitions@[i as int].1) == len as int);
                }
                sum = sum + (len as usize);
            }
            i += 1;
        }
        proof {
            assert(self.definitions@.skip(n as int) =~= Seq::<(String, Definition)>::empty());
        }
        sum
    }
}

} // verus!
