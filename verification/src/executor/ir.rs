//! The intermediate representation of the programs that are executed, and
//! the values that they compute.

use super::names::{Dup, Name, NameMap};
use super::resets::Resets;
use crate::bitvector::B64;
use crate::smt::smtlib::{self, EnumMember, Sym};
use std::sync::Arc;
use vstd::prelude::*;

verus! {

/// The variable that holds the result of a function.
pub const RETURN: Name = 0;

pub const SAIL_EXCEPTION: Name = 1;

pub const CURRENT_EXCEPTION: Name = 2;

pub const HAVE_EXCEPTION: Name = 3;

pub const THROW_LOCATION: Name = 4;

/// The empty list.
pub const NULL: Name = 5;

pub const INTERNAL_VECTOR_INIT: Name = 6;

pub const INTERNAL_VECTOR_UPDATE: Name = 7;

pub const RESET_REGISTERS: Name = 8;

pub const ITE_PHI: Name = 9;

pub const REG_DEREF: Name = 10;

pub const ABSTRACT_CALL: Name = 11;

pub const ABSTRACT_PRIMOP: Name = 12;

pub const READ_REGISTER_FROM_VECTOR: Name = 13;

pub const WRITE_REGISTER_FROM_VECTOR: Name = 14;

pub const INSTR_ANNOUNCE: Name = 15;

/// Where in the source files something stands.
#[derive(Clone, Copy, Debug, PartialEq, Eq, Structural)]
pub enum SourceLoc {
    Unknown,
    CommandLine,
    Span { file: u32, line1: u32, char1: u32, line2: u32, char2: u32 },
}

#[derive(Debug)]
pub enum Ty {
    I64,
    I128,
    AnyBits,
    Bits(u32),
    Unit,
    Bool,
    Bit,
    String,
    Real,
    Float(u32, u32),
    RoundingMode,
    Enum(Name),
    Struct(Name),
    Union(Name),
    Vector(Box<Ty>),
    FixedVector(u32, Box<Ty>),
    List(Box<Ty>),
    Ref(Box<Ty>),
}

impl Dup for Ty {
    fn dup(&self) -> (r: Self)
        decreases self,
    {
        match self {
            Ty::I64 => Ty::I64,
            Ty::I128 => Ty::I128,
            Ty::AnyBits => Ty::AnyBits,
            Ty::Bits(n) => Ty::Bits(*n),
            Ty::Unit => Ty::Unit,
            Ty::Bool => Ty::Bool,
            Ty::Bit => Ty::Bit,
            Ty::String => Ty::String,
            Ty::Real => Ty::Real,
            Ty::Float(e, s) => Ty::Float(*e, *s),
            Ty::RoundingMode => Ty::RoundingMode,
            Ty::Enum(id) => Ty::Enum(*id),
            Ty::Struct(id) => Ty::Struct(*id),
            Ty::Union(id) => Ty::Union(*id),
            Ty::Vector(ty) => Ty::Vector(Box::new((**ty).dup())),
            Ty::FixedVector(n, ty) => Ty::FixedVector(*n, Box::new((**ty).dup())),
            Ty::List(ty) => Ty::List(Box::new((**ty).dup())),
            Ty::Ref(ty) => Ty::Ref(Box::new((**ty).dup())),
        }
    }
}

/// A place that can be assigned to.
#[derive(Debug)]
pub enum Loc {
    Id(Name),
    Field(Box<Loc>, Name),
    Addr(Box<Loc>),
}

impl Dup for Loc {
    fn dup(&self) -> (r: Self)
        decreases self,
    {
        match self {
            Loc::Id(id) => Loc::Id(*id),
            Loc::Field(loc, field) => Loc::Field(Box::new((**loc).dup()), *field),
            Loc::Addr(loc) => Loc::Addr(Box::new((**loc).dup())),
        }
    }
}

impl Loc {
    /// The variable or register that the place is a part of.
    pub open spec fn base(self) -> Name
        decreases self,
    {
        match self {
            Loc::Id(id) => id,
            Loc::Field(loc, _) => loc.base(),
            Loc::Addr(loc) => loc.base(),
        }
    }

    pub fn id(&self) -> (r: Name)
        ensures
            r == self.base(),
        decreases self,
    {
        match self {
            Loc::Id(id) => *id,
            Loc::Field(loc, _) => (**loc).id(),
            Loc::Addr(loc) => (**loc).id(),
        }
    }

    pub fn same(&self, other: &Loc) -> (r: bool)
        ensures
            r == (*self == *other),
        decreases self,
    {
        match (self, other) {
            (Loc::Id(a), Loc::Id(b)) => *a == *b,
            (Loc::Field(a, f), Loc::Field(b, g)) => *f == *g && (**a).same(&**b),
            (Loc::Addr(a), Loc::Addr(b)) => (**a).same(&**b),
            _ => false,
        }
    }
}

/// Operators on values. The lengths of a few of them are a part of the
/// operator.
#[derive(Clone, Copy, Debug, PartialEq, Eq, Structural)]
pub enum Op {
    Not,
    Or,
    And,
    Eq,
    Neq,
    Lteq,
    Lt,
    Gteq,
    Gt,
    Add,
    Sub,
    Slice(u32),
    SetSlice,
    Signed(u32),
    Unsigned(u32),
    ZeroExtend(u32),
    Bvnot,
    Bvor,
    Bvxor,
    Bvand,
    Bvadd,
    Bvsub,
    Bvaccess,
    Concat,
    Head,
    Tail,
    IsEmpty,
}

impl Op {
    /// How many arguments the operator reads.
    pub open spec fn spec_arity(self) -> usize {
        match self {
            Op::Not
            | Op::Bvnot
            | Op::Signed(_)
            | Op::Unsigned(_)
            | Op::ZeroExtend(_)
            | Op::Head
            | Op::Tail
            | Op::IsEmpty => 1,
            Op::SetSlice => 3,
            _ => 2,
        }
    }

    pub fn arity(self) -> (r: usize)
        ensures
            r == self.spec_arity(),
    {
        match self {
            Op::Not
            | Op::Bvnot
            | Op::Signed(_)
            | Op::Unsigned(_)
            | Op::ZeroExtend(_)
            | Op::Head
            | Op::Tail
            | Op::IsEmpty => 1,
            Op::SetSlice => 3,
            _ => 2,
        }
    }
}

pub enum Exp {
    Id(Name),
    Ref(Name),
    Bool(bool),
    Bits(B64),
    String(String),
    Unit,
    I64(i64),
    I128(i128),
    Undefined(Ty),
    Struct(Name, Vec<(Name, Exp)>),
    Kind(Name, Box<Exp>),
    Unwrap(Name, Box<Exp>),
    /// The expression is shared with errors that speak of it.
    Field(Arc<Exp>, Name),
    Call(Op, Vec<Exp>),
}

#[derive(Clone, Copy, Debug, PartialEq, Eq, Structural)]
pub enum ExitCause {
    MatchFailure,
    AssertionFailure,
    Explicit,
}

/// A primitive operation that the program names by this number.
pub type Primop = u32;

pub enum Instr {
    Decl(Name, Ty, SourceLoc),
    Init(Name, Ty, Exp, SourceLoc),
    Jump(Exp, usize, SourceLoc),
    Goto(usize),
    Copy(Loc, Exp, SourceLoc),
    Monomorphize(Name, SourceLoc),
    Call(Loc, bool, Name, Vec<Exp>, SourceLoc),
    PrimopUnary(Loc, Primop, Exp, SourceLoc),
    PrimopBinary(Loc, Primop, Exp, Exp, SourceLoc),
    PrimopVariadic(Loc, Primop, Vec<Exp>, SourceLoc),
    Exit(ExitCause, SourceLoc),
    Arbitrary,
    End,
}

/// A value, some or all of which may be symbolic.
pub enum Val {
    Symbolic(Sym),
    I64(i64),
    I128(i128),
    Bool(bool),
    Bits(B64),
    String(String),
    Unit,
    Vector(Vals),
    List(Vals),
    Enum(EnumMember),
    Struct(Fields),
    Ctor(Name, Box<Val>),
    /// The symbol says which constructor it is; the fields give the contents
    /// for each one that it can be.
    SymbolicCtor(Sym, Fields),
    Ref(Name),
    Poison,
}

/// A sequence of values.
pub enum Vals {
    Nil,
    Cons(Box<Val>, Box<Vals>),
}

/// Values by name.
pub enum Fields {
    Nil,
    Cons(Name, Box<Val>, Box<Fields>),
}

impl Val {
    fn copy(&self) -> (r: Self)
        ensures
            r == *self,
        decreases self,
    {
        match self {
            Val::Symbolic(v) => Val::Symbolic(*v),
            Val::I64(n) => Val::I64(*n),
            Val::I128(n) => Val::I128(*n),
            Val::Bool(b) => Val::Bool(*b),
            Val::Bits(b) => Val::Bits(*b),
            Val::String(s) => Val::String(s.clone()),
            Val::Unit => Val::Unit,
            Val::Vector(vals) => Val::Vector(vals.copy()),
            Val::List(vals) => Val::List(vals.copy()),
            Val::Enum(m) => Val::Enum(*m),
            Val::Struct(fields) => Val::Struct(fields.copy()),
            Val::Ctor(ctor, v) => Val::Ctor(*ctor, Box::new((**v).copy())),
            Val::SymbolicCtor(v, fields) => Val::SymbolicCtor(*v, fields.copy()),
            Val::Ref(reg) => Val::Ref(*reg),
            Val::Poison => Val::Poison,
        }
    }
}

impl Dup for Val {
    fn dup(&self) -> (r: Self) {
        self.copy()
    }
}

impl Dup for Vals {
    fn dup(&self) -> (r: Self) {
        self.copy()
    }
}

impl Vals {
    fn copy(&self) -> (r: Self)
        ensures
            r == *self,
        decreases self,
    {
        match self {
            Vals::Nil => Vals::Nil,
            Vals::Cons(head, tail) => Vals::Cons(
                Box::new((**head).copy()),
                Box::new((**tail).copy()),
            ),
        }
    }

    pub open spec fn view(&self) -> Seq<Val>
        decreases self,
    {
        match self {
            Vals::Nil => seq![],
            Vals::Cons(head, tail) => seq![**head] + tail.view(),
        }
    }

    /// The sequence with the given elements.
    pub open spec fn of(s: Seq<Val>) -> Vals
        decreases s.len(),
    {
        if s.len() == 0 {
            Vals::Nil
        } else {
            Vals::Cons(Box::new(s[0]), Box::new(Vals::of(s.drop_first())))
        }
    }

    /// `of` gives a sequence with the elements that it was given.
    pub proof fn lemma_of(s: Seq<Val>)
        ensures
            Vals::of(s)@ == s,
        decreases s.len(),
    {
        if s.len() > 0 {
            Vals::lemma_of(s.drop_first());
            assert(seq![s[0]] + s.drop_first() =~= s);
        }
    }

    pub fn from_vec(vals: Vec<Val>) -> (r: Vals)
        ensures
            r == Vals::of(vals@),
            r@ == vals@,
    {
        let ghost all = vals@;
        let mut vals = vals;
        let mut r = Vals::Nil;
        assert(all.skip(all.len() as int) =~= seq![]);
        while vals.len() > 0
            invariant
                vals@ == all.take(vals@.len() as int),
                vals@.len() <= all.len(),
                r == Vals::of(all.skip(vals@.len() as int)),
            decreases vals@.len(),
        {
            let ghost n = vals@.len();
            match vals.pop() {
                Some(v) => {
                    proof {
                        assert(all.skip(n - 1).drop_first() =~= all.skip(n as int));
                        assert(vals@ =~= all.take(n - 1));
                    }
                    r = Vals::Cons(Box::new(v), Box::new(r));
                },
                None => {},
            }
        }
        proof {
            assert(all.skip(0) =~= all);
            Vals::lemma_of(all);
        }
        r
    }

    pub fn to_vec(&self) -> (r: Vec<Val>)
        ensures
            r@ == self@,
    {
        let mut r: Vec<Val> = Vec::new();
        self.push_onto(&mut r);
        assert(seq![] + self@ =~= self@);
        r
    }

    fn push_onto(&self, out: &mut Vec<Val>)
        ensures
            final(out)@ == old(out)@ + self@,
        decreases self,
    {
        match self {
            Vals::Nil => {
                assert(out@ + self@ =~= out@);
            },
            Vals::Cons(head, tail) => {
                let ghost before = out@;
                out.push((**head).dup());
                tail.push_onto(out);
                assert(before.push(**head) + tail@ =~= before + self@);
            },
        }
    }
}

impl Fields {
    fn copy(&self) -> (r: Self)
        ensures
            r == *self,
        decreases self,
    {
        match self {
            Fields::Nil => Fields::Nil,
            Fields::Cons(name, head, tail) => Fields::Cons(
                *name,
                Box::new((**head).copy()),
                Box::new((**tail).copy()),
            ),
        }
    }

    pub open spec fn view(&self) -> Map<Name, Val>
        decreases self,
    {
        match self {
            Fields::Nil => Map::empty(),
            Fields::Cons(name, head, tail) => tail.view().insert(*name, **head),
        }
    }

    pub fn get(&self, name: Name) -> (r: Option<&Val>)
        ensures
            match r {
                Some(v) => self@.dom().contains(name) && self@[name] == *v,
                None => !self@.dom().contains(name),
            },
        decreases self,
    {
        match self {
            Fields::Nil => None,
            Fields::Cons(n, head, tail) => if *n == name {
                Some(&**head)
            } else {
                (**tail).get(name)
            },
        }
    }

    /// The fields with one of them set: in place if it is there, and else at
    /// the end.
    pub open spec fn with(self, name: Name, v: Val) -> Fields
        decreases self,
    {
        match self {
            Fields::Nil => Fields::Cons(name, Box::new(v), Box::new(Fields::Nil)),
            Fields::Cons(n, head, tail) => if n == name {
                Fields::Cons(name, Box::new(v), tail)
            } else {
                Fields::Cons(n, head, Box::new(tail.with(name, v)))
            },
        }
    }

    /// Setting a field inserts it.
    pub proof fn lemma_with(self, name: Name, v: Val)
        ensures
            self.with(name, v)@ == self@.insert(name, v),
        decreases self,
    {
        match self {
            Fields::Nil => {},
            Fields::Cons(n, head, tail) => {
                tail.lemma_with(name, v);
                assert(self.with(name, v)@ =~= self@.insert(name, v));
            },
        }
    }

    pub fn insert(self, name: Name, v: Val) -> (r: Fields)
        ensures
            r == self.with(name, v),
            r@ == self@.insert(name, v),
        decreases self,
    {
        proof {
            self.lemma_with(name, v);
        }
        match self {
            Fields::Nil => Fields::Cons(name, Box::new(v), Box::new(Fields::Nil)),
            Fields::Cons(n, head, tail) => if n == name {
                Fields::Cons(name, Box::new(v), tail)
            } else {
                Fields::Cons(n, head, Box::new((*tail).insert(name, v)))
            },
        }
    }
}

/// What a variable holds: a value, or nothing but its type until it is first
/// read.
pub enum UVal {
    Uninit(Ty),
    Init(Val),
}

impl Dup for UVal {
    fn dup(&self) -> (r: Self) {
        match self {
            UVal::Uninit(ty) => UVal::Uninit(ty.dup()),
            UVal::Init(v) => UVal::Init(v.dup()),
        }
    }
}

/// The variables of a function.
pub type Bindings = NameMap<UVal>;

pub struct Function {
    pub params: Vec<(Name, Ty)>,
    pub ret_ty: Ty,
    pub instrs: Arc<Vec<Instr>>,
}

/// A member of an enumeration, with the number of members it has.
#[derive(Clone, Copy, Debug, PartialEq, Eq, Structural)]
pub struct EnumInfo {
    pub member: usize,
    pub size: usize,
    pub enum_name: Name,
}

/// A symbol as the program spells it, and what it stands for if the spelling
/// is an encoded one.
pub struct Symbol {
    pub spelling: String,
    pub decoded: Option<String>,
}

/// A register initialiser that the program names by this number.
pub type Reset = u32;

/// A place that constraints name by this number.
pub type Place = u32;

/// What is assumed about the calls of a function: arguments, where they
/// matter, and the result.
pub struct FunctionAssumption {
    pub function: Name,
    pub args: Vec<Option<smtlib::Exp<Place>>>,
    pub result: smtlib::Exp<Place>,
}

/// What all paths through the program share, and none of them changes.
pub struct SharedState {
    pub symtab: Vec<Symbol>,
    pub functions: NameMap<Function>,
    /// The result types of functions that have no body.
    pub externs: NameMap<Ty>,
    pub enum_members: NameMap<EnumInfo>,
    pub union_ctors: Vec<Name>,
    pub trace_functions: Vec<Name>,
    pub places: Vec<Option<Loc>>,
    pub reset_registers: Resets,
    pub reset_constraints: Vec<smtlib::Exp<Place>>,
    pub function_assumptions: Vec<FunctionAssumption>,
}

impl SharedState {
    /// What a symbol stands for.
    pub open spec fn decoded(self, id: Name) -> Seq<char> {
        if id < self.symtab@.len() {
            match self.symtab@[id as int].decoded {
                Some(s) => s@,
                None => self.symtab@[id as int].spelling@,
            }
        } else {
            seq![]
        }
    }

    /// What a symbol stands for, in words.
    pub fn decoded_name(&self, id: Name) -> (r: String)
        ensures
            r@ == self.decoded(id),
    {
        let i = id as usize;
        if i < self.symtab.len() {
            match &self.symtab[i].decoded {
                Some(s) => s.clone(),
                None => self.symtab[i].spelling.clone(),
            }
        } else {
            let none = "".to_owned();
            proof {
                reveal_strlit("");
                assert(none@ =~= seq![]);
            }
            none
        }
    }

    /// Whether a register is the translation buffer, whose contents are too
    /// large to be recorded.
    pub open spec fn spec_is_tlb(self, id: Name) -> bool {
        self.decoded(id) == "_TLB"@
    }

    pub fn is_tlb(&self, id: Name) -> (r: bool)
        ensures
            r == self.spec_is_tlb(id),
    {
        let tlb = "_TLB".to_owned();
        let i = id as usize;
        if i < self.symtab.len() {
            match &self.symtab[i].decoded {
                Some(s) => *s == tlb,
                None => self.symtab[i].spelling == tlb,
            }
        } else {
            proof {
                reveal_strlit("_TLB");
                assert(self.decoded(id).len() != "_TLB"@.len());
            }
            false
        }
    }
}

/// Whether a name is in a list.
pub fn is_member(names: &Vec<Name>, name: Name) -> (r: bool)
    ensures
        r == names@.contains(name),
{
    let mut i: usize = 0;
    while i < names.len()
        invariant
            i <= names@.len(),
            forall|j: int| 0 <= j < i ==> names@[j] != name,
        decreases names@.len() - i,
    {
        if names[i] == name {
            return true;
        }
        i = i + 1;
    }
    false
}

} // verus!
