//! The abstract syntax: a file is a sequence of assignments, an
//! assignment's value is a sequence of expressions, and an expression is
//! either literal characters or a parameter expansion with an operator
//! and a (possibly empty) right-hand side.

use vstd::prelude::*;

verus! {

/// The eight substitution operators of `${NAME op RHS}`.
#[derive(Debug, Clone, Copy, PartialEq, Eq, Structural)]
pub enum Operator {
    IfUnset,
    IfUnsetOrNull,
    IfSet,
    IfSetAndNotNull,
    AssignIfUnset,
    AssignIfUnsetOrNull,
    ErrorIfUnset,
    ErrorIfUnsetOrNull,
}

/// One piece of a value: literal characters, or an expansion.
#[derive(Debug, PartialEq)]
pub enum Expression {
    Characters(String),
    Expansion(Expansion),
}

/// A `$NAME` or `${NAME op RHS}` form. `$NAME` parses as operator
/// `IfUnset` with an empty right-hand side.
#[derive(Debug, PartialEq)]
pub struct Expansion {
    pub name: String,
    pub operator: Operator,
    pub rhs: Vec<Expression>,
}

/// A top-level `NAME=VALUE` unit.
#[derive(Debug, PartialEq)]
pub struct Assignment {
    pub name: String,
    pub value: Vec<Expression>,
}

/// Mathematical model of an expression.
#[verifier::ext_equal]
pub ghost enum SpecExpression {
    Characters(Seq<char>),
    Expansion(SpecExpansion),
}

/// Mathematical model of an expansion.
#[verifier::ext_equal]
pub ghost struct SpecExpansion {
    pub name: Seq<char>,
    pub operator: Operator,
    pub rhs: Seq<SpecExpression>,
}

/// Mathematical model of an assignment.
#[verifier::ext_equal]
pub ghost struct SpecAssignment {
    pub name: Seq<char>,
    pub value: Seq<SpecExpression>,
}

/// The model of an expression.
pub open spec fn expr_view(e: Expression) -> SpecExpression
    decreases e,
{
    match e {
        Expression::Characters(s) => SpecExpression::Characters(s@),
        Expression::Expansion(x) => SpecExpression::Expansion(expansion_view(x)),
    }
}

/// The model of an expansion.
pub open spec fn expansion_view(x: Expansion) -> SpecExpansion
    decreases x,
{
    SpecExpansion { name: x.name@, operator: x.operator, rhs: exprs_view(x.rhs@) }
}

/// The models of a sequence of expressions.
pub open spec fn exprs_view(es: Seq<Expression>) -> Seq<SpecExpression>
    decreases es,
{
    if es.len() == 0 {
        Seq::empty()
    } else {
        seq![expr_view(es[0])] + exprs_view(es.drop_first())
    }
}

/// The model of an assignment.
pub open spec fn assignment_view(a: Assignment) -> SpecAssignment {
    SpecAssignment { name: a.name@, value: exprs_view(a.value@) }
}

/// The models of a sequence of assignments.
pub open spec fn assignments_view(v: Seq<Assignment>) -> Seq<SpecAssignment> {
    v.map_values(|a: Assignment| assignment_view(a))
}

/// A sequence of expressions has as many models as members.
pub proof fn lemma_exprs_view_len(es: Seq<Expression>)
    ensures
        exprs_view(es).len() == es.len(),
    decreases es,
{
    if es.len() > 0 {
        lemma_exprs_view_len(es.drop_first());
    }
}

/// The model of a member is the member of the models.
pub proof fn lemma_exprs_view_index(es: Seq<Expression>, i: int)
    requires
        0 <= i < es.len(),
    ensures
        exprs_view(es).len() == es.len(),
        exprs_view(es)[i] == expr_view(es[i]),
    decreases es,
{
    lemma_exprs_view_len(es);
    if i > 0 {
        lemma_exprs_view_index(es.drop_first(), i - 1);
    }
}

/// Appending an expression appends its model.
pub proof fn lemma_exprs_view_push(es: Seq<Expression>, e: Expression)
    ensures
        exprs_view(es.push(e)) == exprs_view(es).push(expr_view(e)),
    decreases es,
{
    lemma_exprs_view_len(es);
    lemma_exprs_view_len(es.push(e));
    if es.len() == 0 {
        assert(es.push(e).drop_first() =~= Seq::<Expression>::empty());
        assert(exprs_view(es.push(e)) =~= exprs_view(es).push(expr_view(e)));
    } else {
        assert(es.push(e).drop_first() =~= es.drop_first().push(e));
        lemma_exprs_view_push(es.drop_first(), e);
        assert(exprs_view(es.push(e)) =~= exprs_view(es).push(expr_view(e)));
    }
}

impl Assignment {
    pub fn new(name: String, value: Vec<Expression>) -> (r: Self)
        ensures
            assignment_view(r) == (SpecAssignment { name: name@, value: exprs_view(value@) }),
    {
        Self { name, value }
    }
}

impl Expansion {
    pub fn new(name: String, operator: Operator, rhs: Vec<Expression>) -> (r: Self)
        ensures
            expansion_view(r) == (SpecExpansion {
                name: name@,
                operator,
                rhs: exprs_view(rhs@),
            }),
    {
        Self { name, operator, rhs }
    }
}

} // verus!
