//! Column selectors: a small set algebra over expressions, combined with
//! union, difference, symmetric difference and intersection.
use vstd::prelude::*;

verus! {

/// The expression a selector ultimately roots in. The wider expression
/// language lives outside this core; a column reference is the one form
/// the selector algebra itself produces.
#[derive(Debug, PartialEq, Eq, Hash)]
pub enum Expr {
    Column(String),
}

/// Builds a column-reference expression.
pub fn col(name: String) -> (r: Expr)
    ensures
        r matches Expr::Column(n) && n@ == name@,
{
    Expr::Column(name)
}

/// A selector: a tree of set operations over root expressions.
#[derive(Debug, PartialEq, Eq, Hash)]
pub enum Selector {
    Add(Box<Selector>, Box<Selector>),
    Sub(Box<Selector>, Box<Selector>),
    ExclusiveOr(Box<Selector>, Box<Selector>),
    Intersect(Box<Selector>, Box<Selector>),
    Root(Box<Expr>),
}

impl Selector {
    /// Wrap an expression as a root selector.
    pub fn new(e: Expr) -> (r: Self)
        ensures
            r matches Selector::Root(b) && *b == e,
    {
        Self::Root(Box::new(e))
    }

    /// The union of two selectors.
    pub fn add(self, rhs: Self) -> (r: Self)
        ensures
            r matches Selector::Add(a, b) && *a == self && *b == rhs,
    {
        Selector::Add(Box::new(self), Box::new(rhs))
    }

    /// The intersection of two selectors.
    pub fn bitand(self, rhs: Self) -> (r: Self)
        ensures
            r matches Selector::Intersect(a, b) && *a == self && *b == rhs,
    {
        Selector::Intersect(Box::new(self), Box::new(rhs))
    }

    /// The symmetric difference of two selectors.
    pub fn bitxor(self, rhs: Self) -> (r: Self)
        ensures
            r matches Selector::ExclusiveOr(a, b) && *a == self && *b == rhs,
    {
        Selector::ExclusiveOr(Box::new(self), Box::new(rhs))
    }

    /// The difference of two selectors.
    pub fn sub(self, rhs: Self) -> (r: Self)
        ensures
            r matches Selector::Sub(a, b) && *a == self && *b == rhs,
    {
        Selector::Sub(Box::new(self), Box::new(rhs))
    }

    /// A root selector for a column named `name`.
    pub fn from_name(name: String) -> (r: Self)
        ensures
            r matches Selector::Root(b) && *b matches Expr::Column(n) && n@ == name@,
    {
        Selector::new(col(name))
    }

    /// A root selector for an expression.
    pub fn from_expr(e: Expr) -> (r: Self)
        ensures
            r matches Selector::Root(b) && *b == e,
    {
        Selector::new(e)
    }
}

} // verus!
