use crate::arena::Arena;
use crate::level::LevelError;
use crate::term::{Name, TermData, TermId};
use crate::value::{Value, ValueV};
use vstd::prelude::*;

verus! {

/// Why a term was rejected. Terms and values are described by their debug text.
#[derive(Debug)]
pub enum TyError {
    TypeMismatch { term: String, expected: String, found: String },
    CannotInfer { term: String },
    UnknownConst { term: String, name: Name },
    Level(LevelError),
    DefEq { term: String, left: String, right: String },
    InvalidElim { term: String },
}

/// The mathematical model of a [`TyError`]: texts as character sequences.
pub enum TyErrorV {
    TypeMismatch { term: Seq<char>, expected: Seq<char>, found: Seq<char> },
    CannotInfer { term: Seq<char> },
    UnknownConst { term: Seq<char>, name: Seq<char> },
    Level(LevelError),
    DefEq { term: Seq<char>, left: Seq<char>, right: Seq<char> },
    InvalidElim { term: Seq<char> },
}

impl View for TyError {
    type V = TyErrorV;

    open spec fn view(&self) -> TyErrorV {
        match self {
            TyError::TypeMismatch { term, expected, found } => TyErrorV::TypeMismatch {
                term: term@,
                expected: expected@,
                found: found@,
            },
            TyError::CannotInfer { term } => TyErrorV::CannotInfer { term: term@ },
            TyError::UnknownConst { term, name } => TyErrorV::UnknownConst {
                term: term@,
                name: name.0@,
            },
            TyError::Level(e) => TyErrorV::Level(*e),
            TyError::DefEq { term, left, right } => TyErrorV::DefEq {
                term: term@,
                left: left@,
                right: right@,
            },
            TyError::InvalidElim { term } => TyErrorV::InvalidElim { term: term@ },
        }
    }
}

/// The text that `{:?}` formatting (the derived `Debug`) produces for a term node.
pub uninterp spec fn debug_term_data(d: TermData) -> Seq<char>;

/// The text that `{:?}` formatting (the derived `Debug`) produces for a value
/// whose model is `v`.
pub uninterp spec fn debug_value(v: ValueV) -> Seq<char>;

/// The debug text of the node stored at `t`.
pub open spec fn term_text(a: Seq<TermData>, t: TermId) -> Seq<char> {
    debug_term_data(a[t@ as int])
}

/// Formats a term node with `{:?}` (std's `format!` over the derived `Debug`);
/// the text is named, not stated.
#[verifier::external_body]
fn format_term_data(d: &TermData) -> (r: String)
    ensures
        r@ == debug_term_data(*d),
{
    format!("{:?}", d)
}

/// Formats a value with `{:?}` (std's `format!` over the derived `Debug`); the
/// text is named, not stated.
#[verifier::external_body]
fn format_value(v: &Value) -> (r: String)
    ensures
        r@ == debug_value(v@),
{
    format!("{:?}", v)
}

/// The debug text of a value.
pub fn value_display(v: &Value) -> (r: String)
    ensures
        r@ == debug_value(v@),
{
    format_value(v)
}

/// The debug text of the term node stored at `t`.
pub fn term_display(arena: &Arena, t: TermId) -> (r: String)
    requires
        t@ < arena@.len(),
    ensures
        r@ == term_text(arena@, t),
{
    format_term_data(&arena.get(t))
}

impl TyError {
    pub fn type_mismatch(arena: &Arena, term: TermId, expected: String, found: String) -> (r: Self)
        requires
            term@ < arena@.len(),
        ensures
            r@ == (TyErrorV::TypeMismatch {
                term: term_text(arena@, term),
                expected: expected@,
                found: found@,
            }),
    {
        TyError::TypeMismatch { term: term_display(arena, term), expected, found }
    }

    pub fn cannot_infer(arena: &Arena, term: TermId) -> (r: Self)
        requires
            term@ < arena@.len(),
        ensures
            r@ == (TyErrorV::CannotInfer { term: term_text(arena@, term) }),
    {
        TyError::CannotInfer { term: term_display(arena, term) }
    }

    pub fn unknown_const(arena: &Arena, term: TermId, name: Name) -> (r: Self)
        requires
            term@ < arena@.len(),
        ensures
            r@ == (TyErrorV::UnknownConst { term: term_text(arena@, term), name: name.0@ }),
    {
        TyError::UnknownConst { term: term_display(arena, term), name }
    }

    pub fn invalid_elim(arena: &Arena, term: TermId) -> (r: Self)
        requires
            term@ < arena@.len(),
        ensures
            r@ == (TyErrorV::InvalidElim { term: term_text(arena@, term) }),
    {
        TyError::InvalidElim { term: term_display(arena, term) }
    }
}

} // verus!

verus! {

impl From<LevelError> for TyError {
    fn from(e: LevelError) -> (r: Self) {
        TyError::Level(e)
    }
}

impl vstd::std_specs::convert::FromSpecImpl<LevelError> for TyError {
    open spec fn obeys_from_spec() -> bool {
        true
    }

    open spec fn from_spec(e: LevelError) -> TyError {
        TyError::Level(e)
    }
}

/// The model of a checking outcome.
pub open spec fn unit_result(r: Result<(), TyError>) -> Result<(), TyErrorV> {
    match r {
        Ok(_) => Ok(()),
        Err(e) => Err(e@),
    }
}

/// The model of an inference outcome.
pub open spec fn value_result(r: Result<Value, TyError>) -> Result<ValueV, TyErrorV> {
    match r {
        Ok(v) => Ok(v@),
        Err(e) => Err(e@),
    }
}

} // verus!
