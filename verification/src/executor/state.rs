//! The variables and registers along a path, and how they are read.

use super::error::{ExecError, Malformed};
use super::ir::{Bindings, Loc, SharedState, SourceLoc, UVal, Val};
use super::names::{Dup, Name, NameMap};
use super::solver::{copy_accessor, Accessor, Answer, AnswerView, Event, EventView, Request, RequestView, Solver, SolverView};
use crate::smt::smtlib::EnumMember;
use vstd::prelude::*;

verus! {

/// The registers.
pub struct RegisterBindings {
    values: Bindings,
    unsynchronized: Vec<Name>,
}

pub struct RegistersView {
    pub values: Map<Name, UVal>,
    /// The registers that have been written to since they were last
    /// synchronized.
    pub unsynchronized: Set<Name>,
}

impl View for RegisterBindings {
    type V = RegistersView;

    closed spec fn view(&self) -> RegistersView {
        RegistersView {
            values: self.values@,
            unsynchronized: Set::new(|r: Name| self.unsynchronized@.contains(r)),
        }
    }
}

/// What a table holds for a name, after the name has been given a fresh value
/// if it had none.
pub open spec fn initialize(
    m: Map<Name, UVal>,
    id: Name,
    solver: SolverView,
    info: SourceLoc,
) -> (Map<Name, UVal>, SolverView, Result<Option<Val>, ExecError>) {
    if m.dom().contains(id) {
        match m[id] {
            UVal::Init(v) => (m, solver, Ok(Some(v))),
            UVal::Uninit(ty) => {
                let (s, r) = solver.ask_val(RequestView::Symbolic(ty), info);
                match r {
                    Ok(v) => (m.insert(id, UVal::Init(v)), s, Ok(Some(v))),
                    Err(e) => (m, s, Err(e)),
                }
            },
        }
    } else {
        (m, solver, Ok(None))
    }
}

/// Gets a value from a table of variables.
///
/// A variable that is declared holds nothing but its type. It gets a symbolic
/// value when it is first read. If it is assigned to before that, the solver
/// never hears of it.
pub fn get_and_initialize(
    id: Name,
    vars: &mut Bindings,
    solver: &mut Solver,
    info: SourceLoc,
) -> (r: Result<Option<Val>, ExecError>)
    ensures
        (final(vars)@, final(solver)@, r) == initialize(old(vars)@, id, old(solver)@, info),
{
    let ty = match vars.get(id) {
        None => {
            return Ok(None);
        },
        Some(UVal::Init(v)) => {
            return Ok(Some(v.dup()));
        },
        Some(UVal::Uninit(ty)) => ty.dup(),
    };
    match solver.ask_val(Request::Symbolic(ty), info) {
        Ok(v) => {
            vars.insert(id, UVal::Init(v.dup()));
            Ok(Some(v))
        },
        Err(e) => Err(e),
    }
}

impl RegistersView {
    pub open spec fn assign(self, reg: Name, v: Val) -> RegistersView {
        RegistersView {
            values: self.values.insert(reg, UVal::Init(v)),
            unsynchronized: self.unsynchronized.insert(reg),
        }
    }

    pub open spec fn get(self, reg: Name, solver: SolverView, info: SourceLoc) -> (
        RegistersView,
        SolverView,
        Result<Option<Val>, ExecError>,
    ) {
        let (values, s, r) = initialize(self.values, reg, solver, info);
        (RegistersView { values, ..self }, s, r)
    }
}

impl RegisterBindings {
    pub fn new() -> (r: Self)
        ensures
            r@.values == Map::<Name, UVal>::empty(),
            r@.unsynchronized == Set::<Name>::empty(),
    {
        let r = RegisterBindings { values: NameMap::new(), unsynchronized: Vec::new() };
        assert(r@.unsynchronized =~= Set::<Name>::empty());
        r
    }

    /// Reads a register, if there is one with that name.
    pub fn get(&mut self, reg: Name, solver: &mut Solver, info: SourceLoc) -> (r: Result<
        Option<Val>,
        ExecError,
    >)
        ensures
            (final(self)@, final(solver)@, r) == old(self)@.get(reg, old(solver)@, info),
    {
        get_and_initialize(reg, &mut self.values, solver, info)
    }

    /// Writes to a register.
    pub fn assign(&mut self, reg: Name, v: Val)
        ensures
            final(self)@ == old(self)@.assign(reg, v),
    {
        let ghost before = self@;
        let ghost names = self.unsynchronized@;
        self.values.insert(reg, UVal::Init(v));
        self.unsynchronized.push(reg);
        assert(self@.unsynchronized =~= before.unsynchronized.insert(reg)) by {
            assert forall|r: Name| #[trigger]
                self.unsynchronized@.contains(r) == (names.contains(r) || r == reg) by {
                lemma_push_contains(names, reg, r);
            }
        }
    }

    /// Gives a register its contents from outside the program.
    pub fn insert_register(&mut self, reg: Name, v: UVal)
        ensures
            final(self)@ == (RegistersView {
                values: old(self)@.values.insert(reg, v),
                unsynchronized: old(self)@.unsynchronized,
            }),
    {
        self.values.insert(reg, v);
    }

    /// Takes over the contents of other registers.
    pub fn extend(&mut self, other: &RegisterBindings)
        ensures
            final(self)@ == (RegistersView {
                values: old(self)@.values.union_prefer_right(other@.values),
                unsynchronized: old(self)@.unsynchronized,
            }),
    {
        self.values.extend(&other.values);
    }

    pub fn synchronize(&mut self)
        ensures
            final(self)@ == (RegistersView {
                values: old(self)@.values,
                unsynchronized: Set::empty(),
            }),
    {
        self.unsynchronized = Vec::new();
        assert(self@.unsynchronized =~= Set::<Name>::empty());
    }

    pub fn synchronize_register(&mut self, reg: Name)
        ensures
            final(self)@ == (RegistersView {
                values: old(self)@.values,
                unsynchronized: old(self)@.unsynchronized.remove(reg),
            }),
    {
        let ghost before = self@;
        let mut rest: Vec<Name> = Vec::new();
        let mut i: usize = 0;
        while i < self.unsynchronized.len()
            invariant
                i <= self.unsynchronized@.len(),
                forall|r: Name| #[trigger]
                    rest@.contains(r) == (r != reg && self.unsynchronized@.take(i as int).contains(
                        r,
                    )),
                self.values@ == before.values,
                before == self@,
            decreases self.unsynchronized@.len() - i,
        {
            let name = self.unsynchronized[i];
            let ghost done = self.unsynchronized@.take(i as int);
            assert(self.unsynchronized@.take(i + 1) =~= done.push(name));
            let ghost kept = rest@;
            if name != reg {
                rest.push(name);
            }
            assert forall|r: Name| #[trigger]
                rest@.contains(r) == (r != reg && done.push(name).contains(r)) by {
                lemma_push_contains(done, name, r);
                lemma_push_contains(kept, name, r);
            }
            i = i + 1;
        }
        assert(self.unsynchronized@.take(i as int) =~= self.unsynchronized@);
        self.unsynchronized = rest;
        assert(self@.unsynchronized =~= before.unsynchronized.remove(reg));
    }

    pub fn copy(&self) -> (r: Self)
        ensures
            r@ == self@,
    {
        let mut names: Vec<Name> = Vec::new();
        let mut i: usize = 0;
        while i < self.unsynchronized.len()
            invariant
                i <= self.unsynchronized@.len(),
                names@ == self.unsynchronized@.take(i as int),
            decreases self.unsynchronized@.len() - i,
        {
            names.push(self.unsynchronized[i]);
            i = i + 1;
            assert(names@ =~= self.unsynchronized@.take(i as int));
        }
        assert(names@ =~= self.unsynchronized@);
        RegisterBindings { values: self.values.copy(), unsynchronized: names }
    }
}

/// What a sequence contains after one more element.
proof fn lemma_push_contains(s: Seq<Name>, a: Name, b: Name)
    ensures
        s.push(a).contains(b) == (s.contains(b) || a == b),
{
    if s.contains(b) {
        let i = choose|i: int| 0 <= i < s.len() && s[i] == b;
        assert(s.push(a)[i] == b);
    }
    if a == b {
        assert(s.push(a)[s.len() as int] == b);
    }
}

/// The variables of the function that is executing, the registers, and the
/// variables at the top level.
pub struct LocalState {
    pub vars: Bindings,
    pub regs: RegisterBindings,
    pub lets: Bindings,
}

pub struct LocalView {
    pub vars: Map<Name, UVal>,
    pub regs: RegistersView,
    pub lets: Map<Name, UVal>,
}

impl View for LocalState {
    type V = LocalView;

    open spec fn view(&self) -> LocalView {
        LocalView { vars: self.vars@, regs: self.regs@, lets: self.lets@ }
    }
}

impl LocalState {
    pub fn copy(&self) -> (r: LocalState)
        ensures
            r@ == self@,
    {
        LocalState { vars: self.vars.copy(), regs: self.regs.copy(), lets: self.lets.copy() }
    }
}

/// All that changes while an instruction is executed.
pub struct World {
    pub local: LocalView,
    pub solver: SolverView,
}

pub open spec fn world(local: LocalState, solver: Solver) -> World {
    World { local: local@, solver: solver@ }
}

/// Reads a variable at the top level or a member of an enumeration.
pub open spec fn read_global(w: World, sh: SharedState, id: Name, info: SourceLoc) -> (
    World,
    Result<Val, ExecError>,
) {
    let (lets, s, r) = initialize(w.local.lets, id, w.solver, info);
    let w = World { local: LocalView { lets, ..w.local }, solver: s };
    match r {
        Err(e) => (w, Err(e)),
        Ok(Some(v)) => (w, Ok(v)),
        Ok(None) => if sh.enum_members@.dom().contains(id) {
            let member = sh.enum_members@[id];
            let (s, r) = w.solver.ask(
                RequestView::GetEnum(member.enum_name, member.size),
                info,
            );
            (
                World { solver: s, ..w },
                match r {
                    Ok(AnswerView::Enum(enum_id)) => Ok(
                        Val::Enum(EnumMember { enum_id, member: member.member }),
                    ),
                    Ok(_) => Err(ExecError::UnexpectedAnswer),
                    Err(e) => Err(e),
                },
            )
        } else {
            (w, Err(ExecError::VariableNotFound(id)))
        },
    }
}

/// Reads a register, or else what is at the top level. A register that is
/// read to be used, and not only to be written back, is recorded.
pub open spec fn read_register(
    w: World,
    sh: SharedState,
    id: Name,
    accessor: Seq<Accessor>,
    info: SourceLoc,
    for_write: bool,
) -> (World, Result<Val, ExecError>) {
    let (regs, s, r) = w.local.regs.get(id, w.solver, info);
    let w = World { local: LocalView { regs, ..w.local }, solver: s };
    match r {
        Err(e) => (w, Err(e)),
        Ok(Some(v)) => (
            if for_write || sh.spec_is_tlb(id) {
                w
            } else {
                World { solver: s.record(EventView::ReadReg(id, accessor, v)), ..w }
            },
            Ok(v),
        ),
        Ok(None) => read_global(w, sh, id, info),
    }
}

/// Reads a name: a variable, else a register, else a variable at the top
/// level, else a member of an enumeration.
pub open spec fn read_id(
    w: World,
    sh: SharedState,
    id: Name,
    accessor: Seq<Accessor>,
    info: SourceLoc,
    for_write: bool,
) -> (World, Result<Val, ExecError>) {
    let (vars, s, r) = initialize(w.local.vars, id, w.solver, info);
    let w = World { local: LocalView { vars, ..w.local }, solver: s };
    match r {
        Err(e) => (w, Err(e)),
        Ok(Some(v)) => (w, Ok(v)),
        Ok(None) => read_register(w, sh, id, accessor, info, for_write),
    }
}

fn get_global(
    id: Name,
    local_state: &mut LocalState,
    shared_state: &SharedState,
    solver: &mut Solver,
    info: SourceLoc,
) -> (r: Result<Val, ExecError>)
    ensures
        (world(*final(local_state), *final(solver)), r) == read_global(
            world(*old(local_state), *old(solver)),
            *shared_state,
            id,
            info,
        ),
{
    match get_and_initialize(id, &mut local_state.lets, solver, info) {
        Err(e) => Err(e),
        Ok(Some(v)) => Ok(v),
        Ok(None) => match shared_state.enum_members.get(id) {
            Some(m) => {
                match solver.ask(Request::GetEnum(m.enum_name, m.size), info) {
                    Ok(Answer::Enum(enum_id)) => Ok(
                        Val::Enum(EnumMember { enum_id, member: m.member }),
                    ),
                    Ok(_) => Err(ExecError::UnexpectedAnswer),
                    Err(e) => Err(e),
                }
            },
            None => Err(ExecError::VariableNotFound(id)),
        },
    }
}

/// Reads a name. The path from the register to the part that is asked for is
/// recorded together with the register.
pub fn get_id_and_initialize(
    id: Name,
    local_state: &mut LocalState,
    shared_state: &SharedState,
    solver: &mut Solver,
    accessor: &Vec<Accessor>,
    info: SourceLoc,
    for_write: bool,
) -> (r: Result<Val, ExecError>)
    ensures
        (world(*final(local_state), *final(solver)), r) == read_id(
            world(*old(local_state), *old(solver)),
            *shared_state,
            id,
            accessor@,
            info,
            for_write,
        ),
{
    match get_and_initialize(id, &mut local_state.vars, solver, info) {
        Err(e) => {
            return Err(e);
        },
        Ok(Some(v)) => {
            return Ok(v);
        },
        Ok(None) => {},
    }
    match local_state.regs.get(id, solver, info) {
        Err(e) => Err(e),
        Ok(Some(v)) => {
            if !for_write && !shared_state.is_tlb(id) {
                solver.add_event(Event::ReadReg(id, copy_accessor(accessor), v.dup()));
            }
            Ok(v)
        },
        Ok(None) => get_global(id, local_state, shared_state, solver, info),
    }
}

impl Loc {
    /// The fields that lead to the place, the innermost first.
    pub open spec fn path(self) -> Seq<Accessor>
        decreases self,
    {
        match self {
            Loc::Field(loc, field) => seq![Accessor::Field(field)] + loc.path(),
            _ => seq![],
        }
    }
}

/// Reads a place.
pub open spec fn read_loc(
    w: World,
    sh: SharedState,
    loc: Loc,
    accessor: Seq<Accessor>,
    info: SourceLoc,
    for_write: bool,
) -> (World, Result<Val, ExecError>)
    decreases loc,
{
    match loc {
        Loc::Id(id) => read_id(w, sh, id, accessor, info, for_write),
        Loc::Field(loc, field) => {
            let (w, r) = read_loc(
                w,
                sh,
                *loc,
                accessor.push(Accessor::Field(field)),
                info,
                for_write,
            );
            (
                w,
                match r {
                    Ok(Val::Struct(fields)) => if fields@.dom().contains(field) {
                        Ok(fields@[field])
                    } else {
                        Err(ExecError::Malformed(Malformed::NoField(field)))
                    },
                    Ok(_) => Err(ExecError::Malformed(Malformed::NotAStruct)),
                    Err(e) => Err(e),
                },
            )
        },
        Loc::Addr(_) => (w, Err(ExecError::Malformed(Malformed::UnreadablePlace))),
    }
}

/// Reads a place, and extends the accessor by the path to it.
pub fn get_loc_and_initialize(
    loc: &Loc,
    local_state: &mut LocalState,
    shared_state: &SharedState,
    solver: &mut Solver,
    accessor: &mut Vec<Accessor>,
    info: SourceLoc,
    for_write: bool,
) -> (r: Result<Val, ExecError>)
    ensures
        (world(*final(local_state), *final(solver)), r) == read_loc(
            world(*old(local_state), *old(solver)),
            *shared_state,
            *loc,
            old(accessor)@,
            info,
            for_write,
        ),
        final(accessor)@ == old(accessor)@ + loc.path(),
    decreases loc,
{
    match loc {
        Loc::Id(id) => {
            assert(accessor@ + loc.path() =~= accessor@);
            get_id_and_initialize(
                *id,
                local_state,
                shared_state,
                solver,
                accessor,
                info,
                for_write,
            )
        },
        Loc::Field(inner, field) => {
            let ghost before = accessor@;
            accessor.push(Accessor::Field(*field));
            let r = get_loc_and_initialize(
                inner,
                local_state,
                shared_state,
                solver,
                accessor,
                info,
                for_write,
            );
            assert(before.push(Accessor::Field(*field)) + inner.path() =~= before + loc.path());
            match r {
                Ok(Val::Struct(fields)) => match fields.get(*field) {
                    Some(v) => Ok(v.dup()),
                    None => Err(ExecError::Malformed(Malformed::NoField(*field))),
                },
                Ok(_) => Err(ExecError::Malformed(Malformed::NotAStruct)),
                Err(e) => Err(e),
            }
        },
        Loc::Addr(_) => {
            assert(accessor@ + loc.path() =~= accessor@);
            Err(ExecError::Malformed(Malformed::UnreadablePlace))
        },
    }
}

} // verus!
