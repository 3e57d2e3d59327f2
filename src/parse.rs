//! The template syntax tree that the flattener consumes.
//!
//! Conditions, bound values and match patterns are opaque host expressions:
//! they are carried as their source text and never interpreted here.
use vstd::prelude::*;

verus! {

/// An explicitly braced group of constituents.
pub struct SqlBlock {
    pub constituents: Vec<Constituent>,
}

/// `if <cond> { ... }`, optionally followed by an `else` part.
pub struct If {
    pub cond: String,
    pub then_branch: SqlBlock,
    pub else_branch: Option<Else>,
}

/// The part after `else`: either a chained `if` or a final block.
pub enum Else {
    If(Box<If>),
    Block(SqlBlock),
}

/// `match <expr> { <arm>* }`: recognised, never lowered.
pub struct Match {
    pub expr: String,
    pub arms: Vec<MatchArm>,
}

/// `<pat> [if <guard>] => { ... }`
pub struct MatchArm {
    pub pat: String,
    pub guard: Option<String>,
    pub body: SqlBlock,
}

/// One syntactic element of a template.
pub enum Constituent {
    Literal(String),
    Bind(String),
    Block(SqlBlock),
    If(If),
    Match(Match),
}

/// A whole template.
pub struct BuilderAST {
    pub constituents: Vec<Constituent>,
}

/// Whether a constituent, or anything nested in it, is a `match`.
pub open spec fn constituent_has_match(c: Constituent) -> bool
    decreases c,
{
    match c {
        Constituent::Match(_) => true,
        Constituent::Block(b) => has_match(b.constituents@),
        Constituent::If(i) => if_has_match(i),
        _ => false,
    }
}

/// Whether an `if` chain holds a `match` in any of its bodies.
pub open spec fn if_has_match(i: If) -> bool
    decreases i,
{
    has_match(i.then_branch.constituents@) || match i.else_branch {
        None => false,
        Some(Else::If(j)) => if_has_match(*j),
        Some(Else::Block(b)) => has_match(b.constituents@),
    }
}

/// Whether a sequence of constituents holds a `match` at any depth.
pub open spec fn has_match(cs: Seq<Constituent>) -> bool
    decreases cs,
{
    cs.len() > 0 && (has_match(cs.subrange(0, cs.len() - 1)) || constituent_has_match(cs[cs.len() - 1]))
}

} // verus!
