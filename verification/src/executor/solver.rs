//! The state of the solver along a path.
//!
//! A path is a list of events. Some of what happens on it is decided
//! elsewhere: by the SMT solver, by primitive operations, by the memory and
//! by the clock. The executor asks for each of these by a request, and takes
//! the replies in the order in which it asks. Where the replies end it stops,
//! and the first request that has no reply says what is needed to go on. The
//! same replies always lead down the same path.

use super::error::ExecError;
use super::frame::{Frame, FrameView};
use super::ir::{Op, Place, Primop, Reset, SourceLoc, Ty, Val};
use super::names::{Dup, Name};
use crate::bitvector::B64;
use crate::smt::smtlib::{self, Def, EnumId, Sym};
use crate::smt::tree::{self, Tree};
use vstd::prelude::*;

verus! {

/// The contents of the memory, as the memory model numbers them. Zero is the
/// empty memory.
#[derive(Clone, Copy, Debug, PartialEq, Eq, Structural)]
pub struct Memory {
    pub image: u64,
}

/// A step from a register to a part of it.
#[derive(Clone, Copy, Debug, PartialEq, Eq, Structural)]
pub enum Accessor {
    Field(Name),
}

/// How a definition is to be treated by those who read the trace.
#[derive(Clone, Copy, Debug, PartialEq, Eq, Structural)]
pub struct DefAttrs {
    pub uninteresting: bool,
}

#[derive(Clone, Copy, Debug, PartialEq, Eq, Structural)]
pub enum SmtResult {
    Sat,
    Unsat,
    Unknown,
}

impl SmtResult {
    pub open spec fn spec_is_sat(self) -> Result<bool, ExecError> {
        match self {
            SmtResult::Sat => Ok(true),
            SmtResult::Unsat => Ok(false),
            SmtResult::Unknown => Err(ExecError::Unknown),
        }
    }

    pub fn is_sat(self) -> (r: Result<bool, ExecError>)
        ensures
            r == self.spec_is_sat(),
    {
        match self {
            SmtResult::Sat => Ok(true),
            SmtResult::Unsat => Ok(false),
            SmtResult::Unknown => Err(ExecError::Unknown),
        }
    }

    pub open spec fn spec_is_unsat(self) -> Result<bool, ExecError> {
        match self {
            SmtResult::Sat => Ok(false),
            SmtResult::Unsat => Ok(true),
            SmtResult::Unknown => Err(ExecError::Unknown),
        }
    }

    pub fn is_unsat(self) -> (r: Result<bool, ExecError>)
        ensures
            r == self.spec_is_unsat(),
    {
        match self {
            SmtResult::Sat => Ok(false),
            SmtResult::Unsat => Ok(true),
            SmtResult::Unknown => Err(ExecError::Unknown),
        }
    }
}

/// A definition or an assertion, with its expressions as trees.
pub enum DefView {
    DeclareConst(Sym, smtlib::Ty),
    DeclareFun(Sym, Seq<smtlib::Ty>, smtlib::Ty),
    DefineConst(Sym, Tree<Sym>),
    DefineEnum(usize),
    Assert(Tree<Sym>),
}

impl View for Def {
    type V = DefView;

    open spec fn view(&self) -> DefView {
        match self {
            Def::DeclareConst(v, ty) => DefView::DeclareConst(*v, *ty),
            Def::DeclareFun(f, args, ret) => DefView::DeclareFun(*f, args@, *ret),
            Def::DefineConst(v, exp) => DefView::DefineConst(*v, exp.tree()),
            Def::DefineEnum(n) => DefView::DefineEnum(*n),
            Def::Assert(exp) => DefView::Assert(exp.tree()),
        }
    }
}

/// A copy of a list of types.
fn copy_types(tys: &Vec<smtlib::Ty>) -> (r: Vec<smtlib::Ty>)
    ensures
        r@ == tys@,
{
    let mut r: Vec<smtlib::Ty> = Vec::new();
    let mut i: usize = 0;
    while i < tys.len()
        invariant
            i <= tys@.len(),
            r@ == tys@.take(i as int),
        decreases tys@.len() - i,
    {
        r.push(tys[i].clone());
        i = i + 1;
        assert(r@ =~= tys@.take(i as int));
    }
    assert(tys@.take(i as int) =~= tys@);
    r
}

impl Def {
    pub fn copy(&self) -> (r: Def)
        ensures
            r@ == self@,
    {
        match self {
            Def::DeclareConst(v, ty) => Def::DeclareConst(*v, ty.clone()),
            Def::DeclareFun(f, args, ret) => Def::DeclareFun(*f, copy_types(args), ret.clone()),
            Def::DefineConst(v, exp) => Def::DefineConst(*v, exp.clone()),
            Def::DefineEnum(n) => Def::DefineEnum(*n),
            Def::Assert(exp) => Def::Assert(exp.clone()),
        }
    }
}

/// Something that happens on a path.
pub enum Event {
    Smt(Def, DefAttrs, SourceLoc),
    ReadReg(Name, Vec<Accessor>, Val),
    WriteReg(Name, Vec<Accessor>, Val),
    AssumeReg(Name, Vec<Accessor>, Val),
    Assume(smtlib::Exp<Place>),
    AssumeFun { name: Name, args: Vec<Val>, return_value: Val },
    UseFunAssumption { name: Name, args: Vec<Val>, return_value: Val },
    Abstract { name: Name, primitive: bool, args: Vec<Val>, return_value: Val },
    Fork(u32, Sym, u32, SourceLoc),
    Instr(Val),
    Function { name: Name, call: bool },
    /// An event that a primitive operation or the memory has reported.
    External(u64),
}

pub enum EventView {
    Smt(DefView, DefAttrs, SourceLoc),
    ReadReg(Name, Seq<Accessor>, Val),
    WriteReg(Name, Seq<Accessor>, Val),
    AssumeReg(Name, Seq<Accessor>, Val),
    Assume(Tree<Place>),
    AssumeFun { name: Name, args: Seq<Val>, return_value: Val },
    UseFunAssumption { name: Name, args: Seq<Val>, return_value: Val },
    Abstract { name: Name, primitive: bool, args: Seq<Val>, return_value: Val },
    Fork(u32, Sym, u32, SourceLoc),
    Instr(Val),
    Function { name: Name, call: bool },
    External(u64),
}

impl View for Event {
    type V = EventView;

    open spec fn view(&self) -> EventView {
        match self {
            Event::Smt(def, attrs, info) => EventView::Smt(def@, *attrs, *info),
            Event::ReadReg(reg, acc, v) => EventView::ReadReg(*reg, acc@, *v),
            Event::WriteReg(reg, acc, v) => EventView::WriteReg(*reg, acc@, *v),
            Event::AssumeReg(reg, acc, v) => EventView::AssumeReg(*reg, acc@, *v),
            Event::Assume(exp) => EventView::Assume(exp.tree()),
            Event::AssumeFun { name, args, return_value } => EventView::AssumeFun {
                name: *name,
                args: args@,
                return_value: *return_value,
            },
            Event::UseFunAssumption { name, args, return_value } => EventView::UseFunAssumption {
                name: *name,
                args: args@,
                return_value: *return_value,
            },
            Event::Abstract { name, primitive, args, return_value } => EventView::Abstract {
                name: *name,
                primitive: *primitive,
                args: args@,
                return_value: *return_value,
            },
            Event::Fork(n, v, branch, info) => EventView::Fork(*n, *v, *branch, *info),
            Event::Instr(opcode) => EventView::Instr(*opcode),
            Event::Function { name, call } => EventView::Function { name: *name, call: *call },
            Event::External(code) => EventView::External(*code),
        }
    }
}

/// A copy of a list of values.
pub fn copy_vals(vals: &Vec<Val>) -> (r: Vec<Val>)
    ensures
        r@ == vals@,
{
    let mut r: Vec<Val> = Vec::new();
    let mut i: usize = 0;
    while i < vals.len()
        invariant
            i <= vals@.len(),
            r@ == vals@.take(i as int),
        decreases vals@.len() - i,
    {
        r.push(vals[i].dup());
        i = i + 1;
        assert(r@ =~= vals@.take(i as int));
    }
    assert(vals@.take(i as int) =~= vals@);
    r
}

/// A copy of a path into a register.
pub fn copy_accessor(accessor: &Vec<Accessor>) -> (r: Vec<Accessor>)
    ensures
        r@ == accessor@,
{
    let mut r: Vec<Accessor> = Vec::new();
    let mut i: usize = 0;
    while i < accessor.len()
        invariant
            i <= accessor@.len(),
            r@ == accessor@.take(i as int),
        decreases accessor@.len() - i,
    {
        r.push(accessor[i]);
        i = i + 1;
        assert(r@ =~= accessor@.take(i as int));
    }
    assert(accessor@.take(i as int) =~= accessor@);
    r
}

impl Event {
    pub fn copy(&self) -> (r: Event)
        ensures
            r@ == self@,
    {
        match self {
            Event::Smt(def, attrs, info) => Event::Smt(def.copy(), *attrs, *info),
            Event::ReadReg(reg, acc, v) => Event::ReadReg(*reg, copy_accessor(acc), v.dup()),
            Event::WriteReg(reg, acc, v) => Event::WriteReg(*reg, copy_accessor(acc), v.dup()),
            Event::AssumeReg(reg, acc, v) => Event::AssumeReg(*reg, copy_accessor(acc), v.dup()),
            Event::Assume(exp) => Event::Assume(exp.clone()),
            Event::AssumeFun { name, args, return_value } => Event::AssumeFun {
                name: *name,
                args: copy_vals(args),
                return_value: return_value.dup(),
            },
            Event::UseFunAssumption { name, args, return_value } => Event::UseFunAssumption {
                name: *name,
                args: copy_vals(args),
                return_value: return_value.dup(),
            },
            Event::Abstract { name, primitive, args, return_value } => Event::Abstract {
                name: *name,
                primitive: *primitive,
                args: copy_vals(args),
                return_value: return_value.dup(),
            },
            Event::Fork(n, v, branch, info) => Event::Fork(*n, *v, *branch, *info),
            Event::Instr(opcode) => Event::Instr(opcode.dup()),
            Event::Function { name, call } => Event::Function { name: *name, call: *call },
            Event::External(code) => Event::External(*code),
        }
    }
}

/// The events of a list, as they are in the mathematics.
pub open spec fn event_views(events: Seq<Event>) -> Seq<EventView> {
    Seq::new(events.len(), |i: int| events[i]@)
}

/// A copy of a list of events.
pub fn copy_events(events: &Vec<Event>) -> (r: Vec<Event>)
    ensures
        event_views(r@) == event_views(events@),
{
    let mut r: Vec<Event> = Vec::new();
    let mut i: usize = 0;
    while i < events.len()
        invariant
            i <= events@.len(),
            r@.len() == i,
            forall|j: int| 0 <= j < i ==> (#[trigger] r@[j])@ == events@[j]@,
        decreases events@.len() - i,
    {
        r.push(events[i].copy());
        i = i + 1;
    }
    assert(event_views(r@) =~= event_views(events@));
    r
}

/// Something that is decided elsewhere.
pub enum Request {
    /// A fresh value of a type.
    Symbolic(Ty),
    /// The enumeration with this name and as many members.
    GetEnum(Name, usize),
    Op(Op, Vec<Val>),
    Primop(Primop, Vec<Val>),
    /// A primitive operation that may change the frame.
    PrimopVariadic(Primop, Vec<Val>, Frame),
    /// A vector with an element changed. This may change the frame too.
    VectorUpdate(Vec<Val>, Frame),
    /// The first value if the symbol is true, else the second.
    Ite(Sym, Val, Val),
    /// The value whose symbol is true.
    ItePhi(Vec<(Sym, Val)>),
    EqAnything(Val, Val),
    /// A value as an SMT expression.
    SmtValue(Val),
    /// The initial value of a register.
    Reset(Reset, Memory),
    /// The length of a bitvector.
    Length(Sym),
    CheckSat,
    CheckSatWith(smtlib::Exp<Sym>),
    /// The value of a symbol in the model.
    ModelValue(Sym),
    /// The whole model, in words.
    ModelText,
    /// The nanoseconds since the start.
    Elapsed,
}

pub enum RequestView {
    Symbolic(Ty),
    GetEnum(Name, usize),
    Op(Op, Seq<Val>),
    Primop(Primop, Seq<Val>),
    PrimopVariadic(Primop, Seq<Val>, FrameView),
    VectorUpdate(Seq<Val>, FrameView),
    Ite(Sym, Val, Val),
    ItePhi(Seq<(Sym, Val)>),
    EqAnything(Val, Val),
    SmtValue(Val),
    Reset(Reset, Memory),
    Length(Sym),
    CheckSat,
    CheckSatWith(Tree<Sym>),
    ModelValue(Sym),
    ModelText,
    Elapsed,
}

impl View for Request {
    type V = RequestView;

    open spec fn view(&self) -> RequestView {
        match self {
            Request::Symbolic(ty) => RequestView::Symbolic(*ty),
            Request::GetEnum(name, size) => RequestView::GetEnum(*name, *size),
            Request::Op(op, args) => RequestView::Op(*op, args@),
            Request::Primop(f, args) => RequestView::Primop(*f, args@),
            Request::PrimopVariadic(f, args, frame) => RequestView::PrimopVariadic(*f, args@, frame@),
            Request::VectorUpdate(args, frame) => RequestView::VectorUpdate(args@, frame@),
            Request::Ite(v, a, b) => RequestView::Ite(*v, *a, *b),
            Request::ItePhi(choices) => RequestView::ItePhi(choices@),
            Request::EqAnything(a, b) => RequestView::EqAnything(*a, *b),
            Request::SmtValue(v) => RequestView::SmtValue(*v),
            Request::Reset(reset, mem) => RequestView::Reset(*reset, *mem),
            Request::Length(v) => RequestView::Length(*v),
            Request::CheckSat => RequestView::CheckSat,
            Request::CheckSatWith(exp) => RequestView::CheckSatWith(exp.tree()),
            Request::ModelValue(v) => RequestView::ModelValue(*v),
            Request::ModelText => RequestView::ModelText,
            Request::Elapsed => RequestView::Elapsed,
        }
    }
}

/// The answer to a request.
/// What a model gives for a symbol.
pub enum SymbolValue {
    Bits(B64),
    /// Something that is not a bitvector that fits in a word, in words.
    Other(String),
}

pub enum Answer {
    Val(Val),
    /// A value, and the frame as it is then.
    Stepped(Val, Frame),
    Exp(smtlib::Exp<Sym>),
    Sat(SmtResult),
    Length(Option<u32>),
    Model(Option<SymbolValue>),
    Enum(EnumId),
    Text(String),
    Elapsed(u64),
    Error(ExecError),
}

pub enum AnswerView {
    Val(Val),
    Stepped(Val, FrameView),
    Exp(Tree<Sym>),
    Sat(SmtResult),
    Length(Option<u32>),
    Model(Option<SymbolValue>),
    Enum(EnumId),
    Text(String),
    Elapsed(u64),
    Error(ExecError),
}

impl View for Answer {
    type V = AnswerView;

    open spec fn view(&self) -> AnswerView {
        match self {
            Answer::Val(v) => AnswerView::Val(*v),
            Answer::Stepped(v, frame) => AnswerView::Stepped(*v, frame@),
            Answer::Exp(exp) => AnswerView::Exp(exp.tree()),
            Answer::Sat(r) => AnswerView::Sat(*r),
            Answer::Length(len) => AnswerView::Length(*len),
            Answer::Model(v) => AnswerView::Model(*v),
            Answer::Enum(id) => AnswerView::Enum(*id),
            Answer::Text(s) => AnswerView::Text(*s),
            Answer::Elapsed(ns) => AnswerView::Elapsed(*ns),
            Answer::Error(e) => AnswerView::Error(*e),
        }
    }
}

impl Answer {
    pub fn copy(&self) -> (r: Answer)
        ensures
            r@ == self@,
    {
        match self {
            Answer::Val(v) => Answer::Val(v.dup()),
            Answer::Stepped(v, frame) => Answer::Stepped(v.dup(), frame.dup()),
            Answer::Exp(exp) => Answer::Exp(exp.clone()),
            Answer::Sat(r) => Answer::Sat(*r),
            Answer::Length(len) => Answer::Length(*len),
            Answer::Model(Some(SymbolValue::Bits(b))) => Answer::Model(Some(SymbolValue::Bits(*b))),
            Answer::Model(Some(SymbolValue::Other(s))) => Answer::Model(
                Some(SymbolValue::Other(s.clone())),
            ),
            Answer::Model(None) => Answer::Model(None),
            Answer::Enum(id) => Answer::Enum(*id),
            Answer::Text(s) => Answer::Text(s.clone()),
            Answer::Elapsed(ns) => Answer::Elapsed(*ns),
            Answer::Error(e) => Answer::Error(e.dup()),
        }
    }
}

/// An answer, with what the work on it has added to the path.
pub struct Reply {
    /// How many symbols it has introduced.
    pub fresh: u32,
    pub events: Vec<Event>,
    pub answer: Answer,
}

pub struct ReplyView {
    pub fresh: u32,
    pub events: Seq<EventView>,
    pub answer: AnswerView,
}

impl View for Reply {
    type V = ReplyView;

    open spec fn view(&self) -> ReplyView {
        ReplyView {
            fresh: self.fresh,
            events: event_views(self.events@),
            answer: self.answer@,
        }
    }
}

/// A request, with the circumstances in which it was made.
pub struct Asked {
    pub request: Request,
    pub attrs: DefAttrs,
    pub info: SourceLoc,
}

pub struct AskedView {
    pub request: RequestView,
    pub attrs: DefAttrs,
    pub info: SourceLoc,
}

impl View for Asked {
    type V = AskedView;

    open spec fn view(&self) -> AskedView {
        AskedView { request: self.request@, attrs: self.attrs, info: self.info }
    }
}

/// The state of the solver along a path.
pub struct Solver {
    next: Sym,
    attrs: DefAttrs,
    trace: Vec<Event>,
    replies: Vec<Reply>,
    asked: Vec<Asked>,
}

pub struct SolverView {
    /// The next symbol that is free.
    pub next: Sym,
    /// How definitions are marked.
    pub attrs: DefAttrs,
    pub trace: Seq<EventView>,
    pub replies: Seq<ReplyView>,
    /// The requests so far; each was answered by the reply at its position.
    pub asked: Seq<AskedView>,
}

impl View for Solver {
    type V = SolverView;

    closed spec fn view(&self) -> SolverView {
        SolverView {
            next: self.next,
            attrs: self.attrs,
            trace: event_views(self.trace@),
            replies: Seq::new(self.replies@.len(), |i: int| self.replies@[i]@),
            asked: Seq::new(self.asked@.len(), |i: int| self.asked@[i]@),
        }
    }
}

impl SolverView {
    pub open spec fn record(self, event: EventView) -> SolverView {
        SolverView { trace: self.trace.push(event), ..self }
    }

    /// Adds a definition or an assertion.
    pub open spec fn define(self, def: DefView, info: SourceLoc) -> SolverView {
        self.record(EventView::Smt(def, self.attrs, info))
    }

    pub open spec fn assert_exp(self, exp: Tree<Sym>) -> SolverView {
        self.define(DefView::Assert(exp), SourceLoc::Unknown)
    }

    /// Defines a fresh symbol.
    pub open spec fn define_const(self, exp: Tree<Sym>, info: SourceLoc) -> (
        SolverView,
        Result<Sym, ExecError>,
    ) {
        if self.next < u32::MAX {
            (
                SolverView { next: (self.next + 1) as u32, ..self }.define(
                    DefView::DefineConst(self.next, exp),
                    info,
                ),
                Ok(self.next),
            )
        } else {
            (self, Err(ExecError::SymbolsExhausted))
        }
    }

    /// Declares a fresh symbol.
    pub open spec fn declare_const(self, ty: smtlib::Ty, info: SourceLoc) -> (
        SolverView,
        Result<Sym, ExecError>,
    ) {
        if self.next < u32::MAX {
            (
                SolverView { next: (self.next + 1) as u32, ..self }.define(
                    DefView::DeclareConst(self.next, ty),
                    info,
                ),
                Ok(self.next),
            )
        } else {
            (self, Err(ExecError::SymbolsExhausted))
        }
    }

    /// Makes a request, and takes the reply if there is one.
    pub open spec fn ask(self, request: RequestView, info: SourceLoc) -> (
        SolverView,
        Result<AnswerView, ExecError>,
    ) {
        let n = self.asked.len();
        let s = SolverView {
            asked: self.asked.push(AskedView { request, attrs: self.attrs, info }),
            ..self
        };
        if n >= self.replies.len() {
            (s, Err(ExecError::Pending))
        } else {
            let reply = self.replies[n as int];
            if self.next + reply.fresh > u32::MAX {
                (s, Err(ExecError::SymbolsExhausted))
            } else {
                (
                    SolverView {
                        next: (self.next + reply.fresh) as u32,
                        trace: self.trace + reply.events,
                        ..s
                    },
                    match reply.answer {
                        AnswerView::Error(e) => Err(e),
                        answer => Ok(answer),
                    },
                )
            }
        }
    }

    /// Makes a request for a value.
    pub open spec fn ask_val(self, request: RequestView, info: SourceLoc) -> (
        SolverView,
        Result<Val, ExecError>,
    ) {
        let (s, r) = self.ask(request, info);
        (
            s,
            match r {
                Ok(AnswerView::Val(v)) => Ok(v),
                Ok(_) => Err(ExecError::UnexpectedAnswer),
                Err(e) => Err(e),
            },
        )
    }

    /// Makes a request for a verdict on satisfiability.
    pub open spec fn ask_sat(self, request: RequestView, info: SourceLoc) -> (
        SolverView,
        Result<SmtResult, ExecError>,
    ) {
        let (s, r) = self.ask(request, info);
        (
            s,
            match r {
                Ok(AnswerView::Sat(v)) => Ok(v),
                Ok(_) => Err(ExecError::UnexpectedAnswer),
                Err(e) => Err(e),
            },
        )
    }
}

impl Solver {
    /// The state at the start of a path that continues the given one.
    pub fn resume(next: Sym, trace: Vec<Event>, replies: Vec<Reply>) -> (r: Solver)
        ensures
            r@ == (SolverView {
                next,
                attrs: DefAttrs { uninteresting: false },
                trace: event_views(trace@),
                replies: Seq::new(replies@.len(), |i: int| replies@[i]@),
                asked: seq![],
            }),
    {
        let r = Solver {
            next,
            attrs: DefAttrs { uninteresting: false },
            trace,
            replies,
            asked: Vec::new(),
        };
        assert(r@.asked =~= seq![]);
        r
    }

    /// The next symbol that is free.
    pub fn next_sym(&self) -> (r: Sym)
        ensures
            r == self@.next,
    {
        self.next
    }

    /// A copy of the events so far.
    pub fn trace(&self) -> (r: Vec<Event>)
        ensures
            event_views(r@) == self@.trace,
    {
        copy_events(&self.trace)
    }

    /// The requests so far.
    pub fn asked(&self) -> (r: &Vec<Asked>)
        ensures
            Seq::new(r@.len(), |i: int| r@[i]@) == self@.asked,
    {
        &self.asked
    }

    pub fn attrs(&self) -> (r: DefAttrs)
        ensures
            r == self@.attrs,
    {
        self.attrs
    }

    pub fn set_def_attrs(&mut self, attrs: DefAttrs)
        ensures
            final(self)@ == (SolverView { attrs, ..old(self)@ }),
    {
        self.attrs = attrs;
    }

    pub fn add_event(&mut self, event: Event)
        ensures
            final(self)@ == old(self)@.record(event@),
    {
        let ghost before = self@;
        self.trace.push(event);
        assert(self@.trace =~= before.trace.push(event@));
    }

    fn add_def(&mut self, def: Def, info: SourceLoc)
        ensures
            final(self)@ == old(self)@.define(def@, info),
    {
        let attrs = self.attrs;
        self.add_event(Event::Smt(def, attrs, info));
    }

    /// Adds a definition or an assertion.
    pub fn add(&mut self, def: Def)
        ensures
            final(self)@ == old(self)@.define(def@, SourceLoc::Unknown),
    {
        self.add_def(def, SourceLoc::Unknown);
    }

    pub fn assert_exp(&mut self, exp: smtlib::Exp<Sym>)
        ensures
            final(self)@ == old(self)@.assert_exp(exp.tree()),
    {
        self.add(Def::Assert(exp));
    }

    pub fn define_const(&mut self, exp: smtlib::Exp<Sym>, info: SourceLoc) -> (r: Result<
        Sym,
        ExecError,
    >)
        ensures
            (final(self)@, r) == old(self)@.define_const(exp.tree(), info),
    {
        if self.next < u32::MAX {
            let v = self.next;
            self.next = v + 1;
            self.add_def(Def::DefineConst(v, exp), info);
            Ok(v)
        } else {
            Err(ExecError::SymbolsExhausted)
        }
    }

    pub fn declare_const(&mut self, ty: smtlib::Ty, info: SourceLoc) -> (r: Result<
        Sym,
        ExecError,
    >)
        ensures
            (final(self)@, r) == old(self)@.declare_const(ty, info),
    {
        if self.next < u32::MAX {
            let v = self.next;
            self.next = v + 1;
            self.add_def(Def::DeclareConst(v, ty), info);
            Ok(v)
        } else {
            Err(ExecError::SymbolsExhausted)
        }
    }

    /// Makes a request, and takes the reply if there is one.
    pub fn ask(&mut self, request: Request, info: SourceLoc) -> (r: Result<Answer, ExecError>)
        ensures
            final(self)@ == old(self)@.ask(request@, info).0,
            match r {
                Ok(answer) => old(self)@.ask(request@, info).1 == Ok::<AnswerView, ExecError>(
                    answer@,
                ),
                Err(e) => old(self)@.ask(request@, info).1 == Err::<AnswerView, ExecError>(e),
            },
    {
        let ghost before = self@;
        let n = self.asked.len();
        let attrs = self.attrs;
        let asked = Asked { request, attrs, info };
        self.asked.push(asked);
        assert(self@.asked =~= before.asked.push(asked@));
        if n >= self.replies.len() {
            return Err(ExecError::Pending);
        }
        assert(before.replies[n as int] == self.replies@[n as int]@);
        let fresh = self.replies[n].fresh;
        if fresh > u32::MAX - self.next {
            return Err(ExecError::SymbolsExhausted);
        }
        let mut events = copy_events(&self.replies[n].events);
        let answer = self.replies[n].answer.copy();
        self.next = self.next + fresh;
        let ghost added = events@;
        let ghost trace = self.trace@;
        self.trace.append(&mut events);
        assert(event_views(self.trace@) =~= event_views(trace) + event_views(added));
        match answer {
            Answer::Error(e) => Err(e),
            answer => Ok(answer),
        }
    }

    /// Makes a request for a value.
    pub fn ask_val(&mut self, request: Request, info: SourceLoc) -> (r: Result<Val, ExecError>)
        ensures
            (final(self)@, r) == old(self)@.ask_val(request@, info),
    {
        match self.ask(request, info) {
            Ok(Answer::Val(v)) => Ok(v),
            Ok(_) => Err(ExecError::UnexpectedAnswer),
            Err(e) => Err(e),
        }
    }

    /// Makes a request for a verdict on satisfiability.
    pub fn ask_sat(&mut self, request: Request, info: SourceLoc) -> (r: Result<
        SmtResult,
        ExecError,
    >)
        ensures
            (final(self)@, r) == old(self)@.ask_sat(request@, info),
    {
        match self.ask(request, info) {
            Ok(Answer::Sat(v)) => Ok(v),
            Ok(_) => Err(ExecError::UnexpectedAnswer),
            Err(e) => Err(e),
        }
    }
}

/// A variable as a tree.
pub open spec fn var(v: Sym) -> Tree<Sym> {
    Tree::Var(v)
}

/// The tree of an operator on one operand.
pub open spec fn unary(op: tree::Op, a: Tree<Sym>) -> Tree<Sym> {
    Tree::Node(op, seq![a])
}

/// The tree of an operator on two operands.
pub open spec fn binary(op: tree::Op, a: Tree<Sym>, b: Tree<Sym>) -> Tree<Sym> {
    Tree::Node(op, seq![a, b])
}

} // verus!
