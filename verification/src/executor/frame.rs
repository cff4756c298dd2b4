//! Snapshots of a program that is being executed.

use super::ir::{Bindings, Instr, Loc, SourceLoc, Ty, UVal, Val, Vals, CURRENT_EXCEPTION, HAVE_EXCEPTION, NULL, RETURN, SAIL_EXCEPTION, THROW_LOCATION};
use super::names::{Dup, Name, NameMap};
use super::solver::Memory;
use super::state::{LocalState, LocalView, RegisterBindings, RegistersView};
use crate::bitvector::B64;
use std::sync::Arc;
use vstd::prelude::*;

verus! {

/// Another handle on the same contents. Calls `std::sync::Arc::clone`, which
/// makes a new pointer to the same allocation; so the contents are equal.
#[verifier::external_body]
pub(crate) fn share<T>(a: &Arc<T>) -> (r: Arc<T>)
    ensures
        r == *a,
{
    Arc::clone(a)
}

/// What a function needs to know to return to its caller.
pub struct CallRecord {
    /// Where to go on.
    pub pc: usize,
    pub instrs: Arc<Vec<Instr>>,
    /// Where the result goes.
    pub loc: Loc,
    pub info: SourceLoc,
}

impl Dup for CallRecord {
    fn dup(&self) -> (r: Self) {
        CallRecord {
            pc: self.pc,
            instrs: share(&self.instrs),
            loc: self.loc.dup(),
            info: self.info,
        }
    }
}

/// A function call whose result is known beforehand.
pub struct Assumption {
    pub function: Name,
    pub args: Vals,
    pub result: Val,
}

impl Dup for Assumption {
    fn dup(&self) -> (r: Self) {
        Assumption {
            function: self.function,
            args: self.args.dup(),
            result: self.result.dup(),
        }
    }
}

/// The functions that have called each other to get here, each with the
/// position of the call.
pub type Backtrace = Vec<(Name, usize)>;

/// A mutable frame, as it is used by the thread that executes it. It is
/// turned into an immutable `Frame` when the control flow forks.
pub struct LocalFrame {
    pub(crate) function_name: Name,
    pub(crate) pc: usize,
    pub(crate) forks: u32,
    pub(crate) backjumps: u32,
    pub(crate) local_state: LocalState,
    pub(crate) memory: Memory,
    pub(crate) instrs: Arc<Vec<Instr>>,
    pub(crate) stack_vars: Vec<Bindings>,
    pub(crate) stack_call: Vec<CallRecord>,
    pub(crate) backtrace: Backtrace,
    pub(crate) function_assumptions: Vec<Assumption>,
    pub(crate) pc_visits: Vec<B64>,
}

pub struct FrameView {
    pub function_name: Name,
    pub pc: usize,
    pub forks: u32,
    pub backjumps: u32,
    pub local: LocalView,
    pub memory: Memory,
    pub instrs: Arc<Vec<Instr>>,
    /// The variables of the callers, the innermost last.
    pub stack_vars: Seq<Map<Name, UVal>>,
    pub stack_call: Seq<CallRecord>,
    pub backtrace: Seq<(Name, usize)>,
    pub function_assumptions: Seq<Assumption>,
    /// The addresses of the instructions that have been reached.
    pub pc_visits: Seq<Seq<bool>>,
}

pub open spec fn binding_views(stack: Seq<Bindings>) -> Seq<Map<Name, UVal>> {
    Seq::new(stack.len(), |i: int| stack[i]@)
}

pub open spec fn bits_views(visits: Seq<B64>) -> Seq<Seq<bool>> {
    Seq::new(visits.len(), |i: int| visits[i]@)
}

impl View for LocalFrame {
    type V = FrameView;

    open(crate) spec fn view(&self) -> FrameView {
        FrameView {
            function_name: self.function_name,
            pc: self.pc,
            forks: self.forks,
            backjumps: self.backjumps,
            local: self.local_state@,
            memory: self.memory,
            instrs: self.instrs,
            stack_vars: binding_views(self.stack_vars@),
            stack_call: self.stack_call@,
            backtrace: self.backtrace@,
            function_assumptions: self.function_assumptions@,
            pc_visits: bits_views(self.pc_visits@),
        }
    }
}

/// An immutable snapshot of a program that is being executed.
pub struct Frame {
    snapshot: Arc<LocalFrame>,
}

impl View for Frame {
    type V = FrameView;

    closed spec fn view(&self) -> FrameView {
        self.snapshot@
    }
}

/// A copy of a list.
fn copy_list<T: Dup>(list: &Vec<T>) -> (r: Vec<T>)
    ensures
        r@ == list@,
{
    let mut r: Vec<T> = Vec::new();
    let mut i: usize = 0;
    while i < list.len()
        invariant
            i <= list@.len(),
            r@ == list@.take(i as int),
        decreases list@.len() - i,
    {
        r.push(list[i].dup());
        i = i + 1;
        assert(r@ =~= list@.take(i as int));
    }
    assert(list@.take(i as int) =~= list@);
    r
}

fn copy_bindings(stack: &Vec<Bindings>) -> (r: Vec<Bindings>)
    ensures
        binding_views(r@) == binding_views(stack@),
{
    let mut r: Vec<Bindings> = Vec::new();
    let mut i: usize = 0;
    while i < stack.len()
        invariant
            i <= stack@.len(),
            r@.len() == i,
            forall|j: int| 0 <= j < i ==> (#[trigger] r@[j])@ == stack@[j]@,
        decreases stack@.len() - i,
    {
        r.push(stack[i].copy());
        i = i + 1;
    }
    assert(binding_views(r@) =~= binding_views(stack@));
    r
}

fn copy_backtrace(backtrace: &Backtrace) -> (r: Backtrace)
    ensures
        r@ == backtrace@,
{
    let mut r: Backtrace = Vec::new();
    let mut i: usize = 0;
    while i < backtrace.len()
        invariant
            i <= backtrace@.len(),
            r@ == backtrace@.take(i as int),
        decreases backtrace@.len() - i,
    {
        r.push((backtrace[i].0, backtrace[i].1));
        i = i + 1;
        assert(r@ =~= backtrace@.take(i as int));
    }
    assert(backtrace@.take(i as int) =~= backtrace@);
    r
}

fn copy_visits(visits: &Vec<B64>) -> (r: Vec<B64>)
    ensures
        r@ == visits@,
{
    let mut r: Vec<B64> = Vec::new();
    let mut i: usize = 0;
    while i < visits.len()
        invariant
            i <= visits@.len(),
            r@ == visits@.take(i as int),
        decreases visits@.len() - i,
    {
        r.push(visits[i]);
        i = i + 1;
        assert(r@ =~= visits@.take(i as int));
    }
    assert(visits@.take(i as int) =~= visits@);
    r
}

fn copy_frame(frame: &LocalFrame) -> (r: LocalFrame)
    ensures
        r@ == frame@,
{
    LocalFrame {
        function_name: frame.function_name,
        pc: frame.pc,
        forks: frame.forks,
        backjumps: frame.backjumps,
        local_state: frame.local_state.copy(),
        memory: frame.memory,
        instrs: share(&frame.instrs),
        stack_vars: copy_bindings(&frame.stack_vars),
        stack_call: copy_list(&frame.stack_call),
        backtrace: copy_backtrace(&frame.backtrace),
        function_assumptions: copy_list(&frame.function_assumptions),
        pc_visits: copy_visits(&frame.pc_visits),
    }
}

/// A mutable copy of a snapshot.
pub fn unfreeze_frame(frame: &Frame) -> (r: LocalFrame)
    ensures
        r@ == frame@,
{
    copy_frame(&frame.snapshot)
}

/// A snapshot of a frame.
pub fn freeze_frame(frame: &LocalFrame) -> (r: Frame)
    ensures
        r@ == frame@,
{
    Frame { snapshot: Arc::new(copy_frame(frame)) }
}

/// A snapshot of a frame that continues elsewhere.
pub(crate) fn freeze_frame_at(frame: &LocalFrame, pc: usize) -> (r: Frame)
    ensures
        r@ == (FrameView { pc, ..frame@ }),
{
    let mut copy = copy_frame(frame);
    copy.pc = pc;
    Frame { snapshot: Arc::new(copy) }
}

impl Dup for Frame {
    fn dup(&self) -> (r: Self) {
        Frame { snapshot: share(&self.snapshot) }
    }
}

/// The variables of a function that is called: each parameter with its
/// argument as long as there are both.
pub open spec fn bind_args(
    m: Map<Name, UVal>,
    params: Seq<(Name, Ty)>,
    vals: Seq<Val>,
    i: int,
) -> Map<Name, UVal>
    decreases params.len() - i,
{
    if 0 <= i < params.len() && i < vals.len() {
        bind_args(m.insert(params[i].0, UVal::Init(vals[i])), params, vals, i + 1)
    } else {
        m
    }
}

/// The variables of a function that is called with arguments that are not
/// known.
pub open spec fn bind_unknown(m: Map<Name, UVal>, params: Seq<(Name, Ty)>, i: int) -> Map<
    Name,
    UVal,
>
    decreases params.len() - i,
{
    if 0 <= i < params.len() {
        bind_unknown(m.insert(params[i].0, UVal::Uninit(params[i].1)), params, i + 1)
    } else {
        m
    }
}

/// The variables at the start of a function.
pub open spec fn initial_vars(
    params: Seq<(Name, Ty)>,
    ret_ty: Ty,
    vals: Option<Seq<Val>>,
) -> Map<Name, UVal> {
    let m = Map::<Name, UVal>::empty().insert(RETURN, UVal::Uninit(ret_ty));
    match vals {
        Some(vals) => bind_args(m, params, vals, 0),
        None => bind_unknown(m, params, 0),
    }
}

/// The variables at the top level before anything is executed.
pub open spec fn initial_lets() -> Map<Name, UVal> {
    Map::<Name, UVal>::empty().insert(HAVE_EXCEPTION, UVal::Init(Val::Bool(false))).insert(
        CURRENT_EXCEPTION,
        UVal::Uninit(Ty::Union(SAIL_EXCEPTION)),
    ).insert(THROW_LOCATION, UVal::Uninit(Ty::String)).insert(
        NULL,
        UVal::Init(Val::List(Vals::Nil)),
    )
}

/// A frame at the start of a function.
pub open spec fn initial_frame(
    name: Name,
    params: Seq<(Name, Ty)>,
    ret_ty: Ty,
    vals: Option<Seq<Val>>,
    instrs: Arc<Vec<Instr>>,
) -> FrameView {
    FrameView {
        function_name: name,
        pc: 0,
        forks: 0,
        backjumps: 0,
        local: LocalView {
            vars: initial_vars(params, ret_ty, vals),
            regs: RegistersView { values: Map::empty(), unsynchronized: Set::empty() },
            lets: initial_lets(),
        },
        memory: Memory { image: 0 },
        instrs,
        stack_vars: seq![],
        stack_call: seq![],
        backtrace: seq![],
        function_assumptions: seq![],
        pc_visits: seq![],
    }
}

/// The exception that is being thrown, with the place where it was thrown.
pub open spec fn current_exception(lets: Map<Name, UVal>) -> Option<(Val, Seq<char>)> {
    if lets.dom().contains(HAVE_EXCEPTION) && lets[HAVE_EXCEPTION] == UVal::Init(Val::Bool(true))
        && lets.dom().contains(CURRENT_EXCEPTION) && lets[CURRENT_EXCEPTION] is Init {
        Some(
            (
                lets[CURRENT_EXCEPTION]->Init_0,
                if lets.dom().contains(THROW_LOCATION) {
                    match lets[THROW_LOCATION] {
                        UVal::Init(Val::String(s)) => s@,
                        UVal::Init(_) => "location has wrong type"@,
                        UVal::Uninit(_) => "missing location"@,
                    }
                } else {
                    "missing location"@
                },
            ),
        )
    } else {
        None
    }
}

fn vars_for_call(params: &Vec<(Name, Ty)>, ret_ty: &Ty, vals: Option<&Vec<Val>>) -> (r: Bindings)
    ensures
        r@ == initial_vars(
            params@,
            *ret_ty,
            match vals {
                Some(vals) => Some(vals@),
                None => None,
            },
        ),
{
    let mut vars: Bindings = NameMap::new();
    vars.insert(RETURN, UVal::Uninit(ret_ty.dup()));
    let mut i: usize = 0;
    match vals {
        Some(vals) => {
            let ghost whole = bind_args(vars@, params@, vals@, 0);
            while i < params.len() && i < vals.len()
                invariant
                    i <= params@.len(),
                    whole == bind_args(vars@, params@, vals@, i as int),
                decreases params@.len() - i,
            {
                vars.insert(params[i].0, UVal::Init(vals[i].dup()));
                i = i + 1;
            }
        },
        None => {
            let ghost whole = bind_unknown(vars@, params@, 0);
            while i < params.len()
                invariant
                    i <= params@.len(),
                    whole == bind_unknown(vars@, params@, i as int),
                decreases params@.len() - i,
            {
                vars.insert(params[i].0, UVal::Uninit(params[i].1.dup()));
                i = i + 1;
            }
        },
    }
    vars
}

impl LocalFrame {
    pub fn vars_mut(&mut self) -> (r: &mut Bindings)
        ensures
            r@ == old(self)@.local.vars,
            final(self)@ == (FrameView {
                local: LocalView { vars: final(r)@, ..old(self)@.local },
                ..old(self)@
            }),
    {
        &mut self.local_state.vars
    }

    pub fn vars(&self) -> (r: &Bindings)
        ensures
            r@ == self@.local.vars,
    {
        &self.local_state.vars
    }

    pub fn regs_mut(&mut self) -> (r: &mut RegisterBindings)
        ensures
            r@ == old(self)@.local.regs,
            final(self)@ == (FrameView {
                local: LocalView { regs: final(r)@, ..old(self)@.local },
                ..old(self)@
            }),
    {
        &mut self.local_state.regs
    }

    pub fn regs(&self) -> (r: &RegisterBindings)
        ensures
            r@ == self@.local.regs,
    {
        &self.local_state.regs
    }

    /// Takes over the contents of registers.
    pub fn add_regs(&mut self, regs: &RegisterBindings) -> (r: &mut Self)
        ensures
            *final(self) == *final(r),
            r@ == old(self)@.with_regs(regs@.values),
            r@ == (FrameView {
                local: LocalView {
                    regs: RegistersView {
                        values: old(self)@.local.regs.values.union_prefer_right(regs@.values),
                        unsynchronized: old(self)@.local.regs.unsynchronized,
                    },
                    ..old(self)@.local
                },
                ..old(self)@
            }),
    {
        self.local_state.regs.extend(regs);
        self
    }

    pub fn lets_mut(&mut self) -> (r: &mut Bindings)
        ensures
            r@ == old(self)@.local.lets,
            final(self)@ == (FrameView {
                local: LocalView { lets: final(r)@, ..old(self)@.local },
                ..old(self)@
            }),
    {
        &mut self.local_state.lets
    }

    pub fn lets(&self) -> (r: &Bindings)
        ensures
            r@ == self@.local.lets,
    {
        &self.local_state.lets
    }

    /// Takes over variables at the top level.
    pub fn add_lets(&mut self, lets: &Bindings) -> (r: &mut Self)
        ensures
            *final(self) == *final(r),
            r@ == old(self)@.with_lets(lets@),
            r@ == (FrameView {
                local: LocalView {
                    lets: old(self)@.local.lets.union_prefer_right(lets@),
                    ..old(self)@.local
                },
                ..old(self)@
            }),
    {
        self.local_state.lets.extend(lets);
        self
    }

    /// The exception that is being thrown, with the place where it was
    /// thrown.
    pub fn get_exception(&self) -> (r: Option<(&Val, &str)>)
        ensures
            match r {
                Some((v, loc)) => current_exception(self@.local.lets) == Some((*v, loc@)),
                None => current_exception(self@.local.lets) is None,
            },
    {
        match self.lets().get(HAVE_EXCEPTION) {
            Some(UVal::Init(Val::Bool(true))) => {},
            _ => {
                return None;
            },
        }
        match self.lets().get(CURRENT_EXCEPTION) {
            Some(UVal::Init(v)) => {
                let loc: &str = match self.lets().get(THROW_LOCATION) {
                    Some(UVal::Init(Val::String(s))) => s.as_str(),
                    Some(UVal::Init(_)) => "location has wrong type",
                    _ => "missing location",
                };
                Some((v, loc))
            },
            _ => None,
        }
    }

    pub fn memory(&self) -> (r: &Memory)
        ensures
            *r == self@.memory,
    {
        &self.memory
    }

    pub fn memory_mut(&mut self) -> (r: &mut Memory)
        ensures
            *r == old(self)@.memory,
            final(self)@ == (FrameView { memory: *final(r), ..old(self)@ }),
    {
        &mut self.memory
    }

    pub fn set_memory(&mut self, memory: Memory) -> (r: &mut Self)
        ensures
            *final(self) == *final(r),
            r@ == (FrameView { memory, ..old(self)@ }),
    {
        self.memory = memory;
        self
    }

    /// A frame at the start of a function.
    pub fn new(
        name: Name,
        args: &Vec<(Name, Ty)>,
        ret_ty: &Ty,
        vals: Option<&Vec<Val>>,
        instrs: Arc<Vec<Instr>>,
    ) -> (r: LocalFrame)
        ensures
            r@ == initial_frame(
                name,
                args@,
                *ret_ty,
                match vals {
                    Some(vals) => Some(vals@),
                    None => None,
                },
                instrs,
            ),
    {
        let vars = vars_for_call(args, ret_ty, vals);
        let mut lets: Bindings = NameMap::new();
        lets.insert(HAVE_EXCEPTION, UVal::Init(Val::Bool(false)));
        lets.insert(CURRENT_EXCEPTION, UVal::Uninit(Ty::Union(SAIL_EXCEPTION)));
        lets.insert(THROW_LOCATION, UVal::Uninit(Ty::String));
        lets.insert(NULL, UVal::Init(Val::List(Vals::Nil)));
        let r = LocalFrame {
            function_name: name,
            pc: 0,
            forks: 0,
            backjumps: 0,
            local_state: LocalState { vars, regs: RegisterBindings::new(), lets },
            memory: Memory { image: 0 },
            instrs,
            stack_vars: Vec::new(),
            stack_call: Vec::new(),
            backtrace: Vec::new(),
            function_assumptions: Vec::new(),
            pc_visits: Vec::new(),
        };
        assert(r@.stack_vars =~= seq![]);
        assert(r@.pc_visits =~= seq![]);
        assert(r@.stack_call =~= seq![]);
        assert(r@.backtrace =~= seq![]);
        assert(r@.function_assumptions =~= seq![]);
        r
    }

    /// A frame at the start of a function that finds the registers, the
    /// variables at the top level and the memory as they are here.
    pub fn new_call(
        &self,
        name: Name,
        args: &Vec<(Name, Ty)>,
        ret_ty: &Ty,
        vals: Option<&Vec<Val>>,
        instrs: Arc<Vec<Instr>>,
    ) -> (r: LocalFrame)
        ensures
            ({
                let fresh = initial_frame(
                    name,
                    args@,
                    *ret_ty,
                    match vals {
                        Some(vals) => Some(vals@),
                        None => None,
                    },
                    instrs,
                );
                &&& r@ == FrameView {
                    forks: self@.forks,
                    local: LocalView {
                        vars: fresh.local.vars,
                        regs: self@.local.regs,
                        lets: self@.local.lets,
                    },
                    memory: self@.memory,
                    ..fresh
                }
                &&& r@ == self@.calling(fresh)
            }),
    {
        let mut r = LocalFrame::new(name, args, ret_ty, vals, instrs);
        r.forks = self.forks;
        r.local_state.regs = self.local_state.regs.copy();
        r.local_state.lets = self.local_state.lets.copy();
        r.memory = self.memory;
        r
    }
}

impl FrameView {
    /// The frame with the contents of registers taken over.
    pub open spec fn with_regs(self, values: Map<Name, UVal>) -> FrameView {
        let regs = RegistersView {
            values: self.local.regs.values.union_prefer_right(values),
            unsynchronized: self.local.regs.unsynchronized,
        };
        FrameView { local: LocalView { regs, ..self.local }, ..self }
    }

    /// The frame with variables at the top level taken over.
    pub open spec fn with_lets(self, lets: Map<Name, UVal>) -> FrameView {
        let lets = self.local.lets.union_prefer_right(lets);
        FrameView { local: LocalView { lets, ..self.local }, ..self }
    }

    /// A frame at the start of a function that finds the registers, the
    /// variables at the top level and the memory of this one.
    pub open spec fn calling(self, fresh: FrameView) -> FrameView {
        FrameView {
            forks: self.forks,
            local: LocalView { regs: self.local.regs, lets: self.local.lets, ..fresh.local },
            memory: self.memory,
            ..fresh
        }
    }

    /// Puts the variables away while another function executes.
    pub open spec fn push_vars(self) -> FrameView {
        FrameView {
            local: LocalView { vars: Map::empty(), ..self.local },
            stack_vars: self.stack_vars.push(self.local.vars),
            ..self
        }
    }

    /// Takes the variables back that were put away last.
    pub open spec fn pop_vars(self) -> FrameView {
        if self.stack_vars.len() > 0 {
            FrameView {
                local: LocalView { vars: self.stack_vars.last(), ..self.local },
                stack_vars: self.stack_vars.drop_last(),
                ..self
            }
        } else {
            self
        }
    }
}

pub(crate) fn push_call_stack(frame: &mut LocalFrame)
    ensures
        final(frame)@ == old(frame)@.push_vars(),
{
    let ghost before = frame@;
    let mut vars: Bindings = NameMap::new();
    core::mem::swap(&mut vars, &mut frame.local_state.vars);
    frame.stack_vars.push(vars);
    assert(frame@.stack_vars =~= before.push_vars().stack_vars);
}

pub(crate) fn pop_call_stack(frame: &mut LocalFrame)
    ensures
        final(frame)@ == old(frame)@.pop_vars(),
{
    let ghost before = frame@;
    match frame.stack_vars.pop() {
        Some(vars) => {
            frame.local_state.vars = vars;
            assert(frame@.stack_vars =~= before.pop_vars().stack_vars);
        },
        None => {},
    }
}

/// Taking variables back undoes putting them away, whatever the function that
/// executed in between has made of its own variables.
pub proof fn law_pop_undoes_push(before: FrameView, vars: Map<Name, UVal>)
    ensures
        ({
            let called = before.push_vars();
            let ended = FrameView { local: LocalView { vars, ..called.local }, ..called };
            ended.pop_vars() == before
        }),
{
    let called = before.push_vars();
    assert(called.stack_vars.drop_last() =~= before.stack_vars);
}

} // verus!
