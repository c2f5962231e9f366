//! The smart-playlist query language.
//!
//! A query is an expression over recordings, with an optional limit:
//!
//! ```text
//! query     = expr limit? end
//! expr      = and_expr ("OR" and_expr)*
//! and_expr  = factor ("AND" factor)*
//! factor    = "(" expr ")" | "NOT" factor | predicate
//! predicate = "Rating" ("is" "null" | cmp_op integer)
//!           | "AlbumRating" cmp_op integer
//!           | "LastPlayed" ("NotInLast" | "InLast") integer time_unit
//!           | "PlayCount" cmp_op integer
//!           | ("InPlaylist" | "NotInPlaylist" | "HasTag") string
//!           | ("Title" | "Artist" | "Genre") ("contains" | "is") string
//!           | "Year" cmp_op integer
//! limit     = "LIMIT" integer ("tracks" | "minutes" | "hours")
//! cmp_op    = ">=" | "<=" | ">" | "<" | "=" | "!="
//! time_unit = "Days" | "Weeks" | "Months" | "Years"
//! integer   = ASCII digits
//! string    = '"' anything but '"' '"' | ASCII letters, digits and "_"
//! ```
//!
//! Alternatives are tried in order, repetitions take as much as they can, and
//! blanks may stand before every token but the first.
use vstd::prelude::*;

pub mod grammar;
pub mod laws;
pub mod precedence;
pub mod sql;
pub mod written;

pub use grammar::parse;
pub use sql::compile;

verus! {

/// A boolean expression over predicates.
#[derive(Debug)]
pub enum Expr {
    And(Box<Expr>, Box<Expr>),
    Or(Box<Expr>, Box<Expr>),
    Not(Box<Expr>),
    Pred(Predicate),
}

/// A condition on one recording.
#[derive(Debug, Clone)]
pub enum Predicate {
    RatingNull,
    Rating(CmpOp, i64),
    AlbumRating(CmpOp, i64),
    LastPlayed(LastPlayedDir, i64, TimeUnit),
    PlayCount(CmpOp, i64),
    InPlaylist(String),
    NotInPlaylist(String),
    HasTag(String),
    Title(StrOp, String),
    Artist(StrOp, String),
    Genre(StrOp, String),
    Year(CmpOp, i64),
}

#[derive(Debug, Clone, Copy, PartialEq, Eq, Structural)]
pub enum CmpOp {
    Gte,
    Lte,
    Gt,
    Lt,
    Eq,
    Ne,
}

#[derive(Debug, Clone, Copy, PartialEq, Eq, Structural)]
pub enum StrOp {
    Contains,
    Is,
}

#[derive(Debug, Clone, Copy, PartialEq, Eq, Structural)]
pub enum LastPlayedDir {
    InLast,
    NotInLast,
}

#[derive(Debug, Clone, Copy, PartialEq, Eq, Structural)]
pub enum TimeUnit {
    Days,
    Weeks,
    Months,
    Years,
}

#[derive(Debug, Clone, Copy, PartialEq, Eq, Structural)]
pub enum LimitUnit {
    Tracks,
    Minutes,
    Hours,
}

/// How much of a result to keep.
#[derive(Debug, Clone, Copy, PartialEq, Eq, Structural)]
pub struct Limit {
    pub value: i64,
    pub unit: LimitUnit,
}

/// A query that was parsed.
#[derive(Debug)]
pub struct ParsedQuery {
    pub expr: Expr,
    pub limit: Option<Limit>,
}

/// A query string that does not follow the grammar.
#[derive(Debug, Clone, Copy, PartialEq, Eq, Structural)]
pub struct QuerySyntaxError;

/// The meaning of an expression, with strings as character sequences.
pub enum ExprModel {
    And(Box<ExprModel>, Box<ExprModel>),
    Or(Box<ExprModel>, Box<ExprModel>),
    Not(Box<ExprModel>),
    Pred(PredicateModel),
}

/// The meaning of a predicate, with strings as character sequences.
pub enum PredicateModel {
    RatingNull,
    Rating(CmpOp, i64),
    AlbumRating(CmpOp, i64),
    LastPlayed(LastPlayedDir, i64, TimeUnit),
    PlayCount(CmpOp, i64),
    InPlaylist(Seq<char>),
    NotInPlaylist(Seq<char>),
    HasTag(Seq<char>),
    Title(StrOp, Seq<char>),
    Artist(StrOp, Seq<char>),
    Genre(StrOp, Seq<char>),
    Year(CmpOp, i64),
}

impl View for Predicate {
    type V = PredicateModel;

    open spec fn view(&self) -> PredicateModel {
        match *self {
            Predicate::RatingNull => PredicateModel::RatingNull,
            Predicate::Rating(op, n) => PredicateModel::Rating(op, n),
            Predicate::AlbumRating(op, n) => PredicateModel::AlbumRating(op, n),
            Predicate::LastPlayed(dir, n, unit) => PredicateModel::LastPlayed(dir, n, unit),
            Predicate::PlayCount(op, n) => PredicateModel::PlayCount(op, n),
            Predicate::InPlaylist(s) => PredicateModel::InPlaylist(s@),
            Predicate::NotInPlaylist(s) => PredicateModel::NotInPlaylist(s@),
            Predicate::HasTag(s) => PredicateModel::HasTag(s@),
            Predicate::Title(op, s) => PredicateModel::Title(op, s@),
            Predicate::Artist(op, s) => PredicateModel::Artist(op, s@),
            Predicate::Genre(op, s) => PredicateModel::Genre(op, s@),
            Predicate::Year(op, n) => PredicateModel::Year(op, n),
        }
    }
}

impl Expr {
    /// The meaning of this expression.
    pub open spec fn model(self) -> ExprModel
        decreases self,
    {
        match self {
            Expr::And(a, b) => ExprModel::And(Box::new(a.model()), Box::new(b.model())),
            Expr::Or(a, b) => ExprModel::Or(Box::new(a.model()), Box::new(b.model())),
            Expr::Not(a) => ExprModel::Not(Box::new(a.model())),
            Expr::Pred(p) => ExprModel::Pred(p@),
        }
    }
}

} // verus!
