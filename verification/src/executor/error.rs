//! What can go wrong while a program is executed.

use super::frame::share;
use super::ir::{Exp, Loc, SourceLoc, Val};
use super::names::{Dup, Name};
use crate::smt::smtlib::Sym;
use std::sync::Arc;
use vstd::prelude::*;

verus! {

/// An operation that meets a value of a kind that it does not take, with what
/// is reported of it.
pub enum TypeError {
    ReadVectorRegisters,
    ReadVectorIndex,
    ReadVectorIndexLength,
    ReadVectorIndexType,
    WriteVectorRegisters,
    WriteVectorIndex,
    WriteVectorIndexLength,
    WriteVectorIndexType,
    KindCheck(Val),
    NoPossibleValue,
    Unwrap(Val),
    /// The expression that a field is read of, and the value that it has.
    NotAStruct { field: Name, exp: Arc<Exp>, value: Val },
    /// The place that does not wait for a vector.
    VectorInit(Loc),
    ItePhi,
    RegDeref(Name),
    RegDerefNotRegister(Name),
    ProgramCounter,
    JumpOnNonBoolean(Val),
    Monomorphize(Sym),
    /// What the model gives in place of a bitvector that fits in a word.
    MonomorphizeModel(String),
}

impl TypeError {
    fn copy(&self) -> (r: Self)
        ensures
            r == *self,
    {
        match self {
            TypeError::ReadVectorRegisters => TypeError::ReadVectorRegisters,
            TypeError::ReadVectorIndex => TypeError::ReadVectorIndex,
            TypeError::ReadVectorIndexLength => TypeError::ReadVectorIndexLength,
            TypeError::ReadVectorIndexType => TypeError::ReadVectorIndexType,
            TypeError::WriteVectorRegisters => TypeError::WriteVectorRegisters,
            TypeError::WriteVectorIndex => TypeError::WriteVectorIndex,
            TypeError::WriteVectorIndexLength => TypeError::WriteVectorIndexLength,
            TypeError::WriteVectorIndexType => TypeError::WriteVectorIndexType,
            TypeError::KindCheck(v) => TypeError::KindCheck(v.dup()),
            TypeError::NoPossibleValue => TypeError::NoPossibleValue,
            TypeError::Unwrap(v) => TypeError::Unwrap(v.dup()),
            TypeError::NotAStruct { field, exp, value } => TypeError::NotAStruct {
                field: *field,
                exp: share(exp),
                value: value.dup(),
            },
            TypeError::VectorInit(loc) => TypeError::VectorInit(loc.dup()),
            TypeError::ItePhi => TypeError::ItePhi,
            TypeError::RegDeref(x) => TypeError::RegDeref(*x),
            TypeError::RegDerefNotRegister(x) => TypeError::RegDerefNotRegister(*x),
            TypeError::ProgramCounter => TypeError::ProgramCounter,
            TypeError::JumpOnNonBoolean(v) => TypeError::JumpOnNonBoolean(v.dup()),
            TypeError::Monomorphize(x) => TypeError::Monomorphize(*x),
            TypeError::MonomorphizeModel(s) => TypeError::MonomorphizeModel(s.clone()),
        }
    }

    /// The words that the error is reported with. Where the error holds
    /// something, a description of that follows them.
    pub open spec fn spec_message(self) -> &'static str {
        match self {
            TypeError::ReadVectorRegisters =>
                "read_register_from_vector must be given a vector of register references",
            TypeError::ReadVectorIndex => "read_register_from_vector invalid index",
            TypeError::ReadVectorIndexLength =>
                "read_register_from_vector could not determine length of index bitvector",
            TypeError::ReadVectorIndexType =>
                "read_register_from_vector index type must be a bitvector",
            TypeError::WriteVectorRegisters =>
                "write_register_from_vector must be given a vector of register references",
            TypeError::WriteVectorIndex => "write_register_from_vector invalid index",
            TypeError::WriteVectorIndexLength =>
                "write_register_from_vector could not determine length of index bitvector",
            TypeError::WriteVectorIndexType =>
                "write_register_from_vector index type must be a bitvector",
            TypeError::KindCheck(_) => "Kind check on non-constructor",
            TypeError::NoPossibleValue => "No possible value for constructor",
            TypeError::Unwrap(_) => "Tried to unwrap non-constructor, or constructors didn't match",
            TypeError::NotAStruct { .. } => "When accessing field",
            TypeError::VectorInit(_) => "internal_vector_init",
            TypeError::ItePhi => "ite_phi",
            TypeError::RegDeref(_) => "reg_deref",
            TypeError::RegDerefNotRegister(_) => "reg_deref (not a register)",
            TypeError::ProgramCounter => "Program counter contains non-bitvector or symbolic value",
            TypeError::JumpOnNonBoolean(_) => "Jump on non boolean",
            TypeError::Monomorphize(_) => "_monomorphize",
            TypeError::MonomorphizeModel(_) => "__monomorphize",
        }
    }

    pub fn message(&self) -> (r: &'static str)
        ensures
            r@ == self.spec_message()@,
    {
        match self {
            TypeError::ReadVectorRegisters =>
                "read_register_from_vector must be given a vector of register references",
            TypeError::ReadVectorIndex => "read_register_from_vector invalid index",
            TypeError::ReadVectorIndexLength =>
                "read_register_from_vector could not determine length of index bitvector",
            TypeError::ReadVectorIndexType =>
                "read_register_from_vector index type must be a bitvector",
            TypeError::WriteVectorRegisters =>
                "write_register_from_vector must be given a vector of register references",
            TypeError::WriteVectorIndex => "write_register_from_vector invalid index",
            TypeError::WriteVectorIndexLength =>
                "write_register_from_vector could not determine length of index bitvector",
            TypeError::WriteVectorIndexType =>
                "write_register_from_vector index type must be a bitvector",
            TypeError::KindCheck(_) => "Kind check on non-constructor",
            TypeError::NoPossibleValue => "No possible value for constructor",
            TypeError::Unwrap(_) => "Tried to unwrap non-constructor, or constructors didn't match",
            TypeError::NotAStruct { .. } => "When accessing field",
            TypeError::VectorInit(_) => "internal_vector_init",
            TypeError::ItePhi => "ite_phi",
            TypeError::RegDeref(_) => "reg_deref",
            TypeError::RegDerefNotRegister(_) => "reg_deref (not a register)",
            TypeError::ProgramCounter => "Program counter contains non-bitvector or symbolic value",
            TypeError::JumpOnNonBoolean(_) => "Jump on non boolean",
            TypeError::Monomorphize(_) => "_monomorphize",
            TypeError::MonomorphizeModel(_) => "__monomorphize",
        }
    }

    /// Whether the error holds something that is described.
    pub open spec fn holds_something(self) -> bool {
        match self {
            TypeError::KindCheck(_)
            | TypeError::Unwrap(_)
            | TypeError::VectorInit(_)
            | TypeError::RegDeref(_)
            | TypeError::RegDerefNotRegister(_)
            | TypeError::JumpOnNonBoolean(_)
            | TypeError::Monomorphize(_)
            | TypeError::MonomorphizeModel(_) => true,
            _ => false,
        }
    }

    /// The error in words, given a description of what it holds. For a field
    /// that is read of something other than a struct, that is the value;
    /// descriptions of the field and of the expression come in as well.
    pub fn text(&self, field: &str, exp: &str, held: &str) -> (r: String)
        ensures
            r@ == if *self is NotAStruct {
                "When accessing field "@ + field@ + " struct expression "@ + exp@
                    + " did not evaluate to a struct, instead "@ + held@
            } else if self.holds_something() {
                self.spec_message()@ + " "@ + held@
            } else {
                self.spec_message()@
            },
    {
        match self {
            TypeError::NotAStruct { .. } => "When accessing field ".to_owned().concat(field).concat(
                " struct expression ",
            ).concat(exp).concat(" did not evaluate to a struct, instead ").concat(held),
            TypeError::KindCheck(_)
            | TypeError::Unwrap(_)
            | TypeError::VectorInit(_)
            | TypeError::RegDeref(_)
            | TypeError::RegDerefNotRegister(_)
            | TypeError::JumpOnNonBoolean(_)
            | TypeError::Monomorphize(_)
            | TypeError::MonomorphizeModel(_) => self.message().to_owned().concat(" ").concat(held),
            _ => self.message().to_owned(),
        }
    }
}

impl Dup for TypeError {
    fn dup(&self) -> (r: Self) {
        self.copy()
    }
}

/// A program that breaks the rules that every program is checked for before
/// it is executed. Callers that have checked it never see these.
#[derive(Clone, Copy, Debug, PartialEq, Eq, Structural)]
pub enum Malformed {
    /// A struct lacks a field that is read.
    NoField(Name),
    /// A place with fields does not hold a struct.
    NotAStruct,
    /// A place that cannot be read.
    UnreadablePlace,
    /// A struct lacks a field that is assigned to.
    NoFieldToAssign,
    /// A place is dereferenced that does not hold a reference.
    NotAReference,
    /// An operator or a function lacks arguments.
    MissingArguments,
    /// A function ends without its return variable.
    NoReturnVariable,
    /// A reference to a register that does not exist.
    NoRegister,
    /// An index past the end of a vector of registers.
    IndexOutOfRange,
    /// No condition is left to choose by.
    NothingToChoose,
    /// An abstract call that does not name a known function.
    NoAbstractFunction,
    /// A vector with a negative number of elements.
    NegativeLength,
    /// Two values cannot be compared.
    Incomparable,
}

pub enum ExecError {
    Type(TypeError, SourceLoc),
    /// No input leads here.
    Dead,
    Timeout,
    /// A stop condition ends the path at this function.
    Stopped(Name),
    VariableNotFound(Name),
    /// An instruction at this address has been reached too often.
    PCLimitReached(u64),
    NoFunction(Name, SourceLoc),
    MatchFailure(SourceLoc),
    /// With the message of the assertion, if it has one.
    AssertionFailure(Option<String>, SourceLoc),
    Exit,
    /// The solver cannot decide.
    Unknown,
    /// The model of the solver has no value for a symbol.
    NoModelValue(Sym),
    /// A place that a constraint names does not exist.
    NoPlace,
    /// A constraint could not be read.
    Unreachable(Box<ExecError>),
    Malformed(Malformed),
    /// An error that is reported from outside, in words.
    External(String),
    /// A question has to be answered before execution can go on.
    Pending,
    /// The answer is not of the kind that the question asks for.
    UnexpectedAnswer,
    /// There are no more symbols.
    SymbolsExhausted,
    /// There are no more forks.
    ForksExhausted,
}

impl ExecError {
    fn copy(&self) -> (r: Self)
        ensures
            r == *self,
        decreases self,
    {
        match self {
            ExecError::Type(e, info) => ExecError::Type(e.dup(), *info),
            ExecError::Dead => ExecError::Dead,
            ExecError::Timeout => ExecError::Timeout,
            ExecError::Stopped(f) => ExecError::Stopped(*f),
            ExecError::VariableNotFound(id) => ExecError::VariableNotFound(*id),
            ExecError::PCLimitReached(pc) => ExecError::PCLimitReached(*pc),
            ExecError::NoFunction(f, info) => ExecError::NoFunction(*f, *info),
            ExecError::MatchFailure(info) => ExecError::MatchFailure(*info),
            ExecError::AssertionFailure(Some(message), info) => ExecError::AssertionFailure(
                Some(message.clone()),
                *info,
            ),
            ExecError::AssertionFailure(None, info) => ExecError::AssertionFailure(None, *info),
            ExecError::Exit => ExecError::Exit,
            ExecError::Unknown => ExecError::Unknown,
            ExecError::NoModelValue(v) => ExecError::NoModelValue(*v),
            ExecError::NoPlace => ExecError::NoPlace,
            ExecError::Unreachable(e) => ExecError::Unreachable(Box::new((**e).copy())),
            ExecError::Malformed(m) => ExecError::Malformed(*m),
            ExecError::External(message) => ExecError::External(message.clone()),
            ExecError::Pending => ExecError::Pending,
            ExecError::UnexpectedAnswer => ExecError::UnexpectedAnswer,
            ExecError::SymbolsExhausted => ExecError::SymbolsExhausted,
            ExecError::ForksExhausted => ExecError::ForksExhausted,
        }
    }

    /// Where in the source the error stands, as far as that is known.
    pub open spec fn spec_source_loc(self) -> SourceLoc {
        match self {
            ExecError::Type(_, info) => info,
            ExecError::NoFunction(_, info) => info,
            ExecError::MatchFailure(info) => info,
            ExecError::AssertionFailure(_, info) => info,
            _ => SourceLoc::Unknown,
        }
    }

    pub fn source_loc(&self) -> (r: SourceLoc)
        ensures
            r == self.spec_source_loc(),
    {
        match self {
            ExecError::Type(_, info) => *info,
            ExecError::NoFunction(_, info) => *info,
            ExecError::MatchFailure(info) => *info,
            ExecError::AssertionFailure(_, info) => *info,
            _ => SourceLoc::Unknown,
        }
    }
}

impl Dup for ExecError {
    fn dup(&self) -> (r: Self) {
        self.copy()
    }
}

} // verus!
