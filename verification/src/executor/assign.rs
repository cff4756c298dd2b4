//! Assigning to variables, registers and parts of them.

use super::error::{ExecError, Malformed};
use super::ir::{Loc, SharedState, SourceLoc, UVal, Val};
use super::names::{Dup, Name};
use super::solver::{copy_accessor, Accessor, Event, EventView, Solver};
use super::state::{self, get_loc_and_initialize, LocalState, LocalView, World};
use vstd::prelude::*;

verus! {

/// Assigns to a name: to a variable, else to a variable at the top level,
/// else to a register, which is recorded.
pub open spec fn assign_id(
    w: World,
    sh: SharedState,
    id: Name,
    v: Val,
    accessor: Seq<Accessor>,
) -> World {
    if w.local.vars.dom().contains(id) {
        World {
            local: LocalView { vars: w.local.vars.insert(id, UVal::Init(v)), ..w.local },
            ..w
        }
    } else if w.local.lets.dom().contains(id) {
        World {
            local: LocalView { lets: w.local.lets.insert(id, UVal::Init(v)), ..w.local },
            ..w
        }
    } else {
        World {
            local: LocalView { regs: w.local.regs.assign(id, v), ..w.local },
            solver: if sh.spec_is_tlb(id) {
                w.solver
            } else {
                w.solver.record(EventView::WriteReg(id, accessor, v))
            },
        }
    }
}

/// Assigns to a place. To assign to a field, the struct is read, changed and
/// assigned back; to assign through a reference, the register is read from
/// the place.
pub open spec fn assigned(
    w: World,
    sh: SharedState,
    loc: Loc,
    v: Val,
    accessor: Seq<Accessor>,
    info: SourceLoc,
) -> (World, Result<(), ExecError>)
    decreases loc,
{
    match loc {
        Loc::Id(id) => (assign_id(w, sh, id, v, accessor), Ok(())),
        Loc::Field(loc, field) => {
            let (w, r) = state::read_loc(w, sh, *loc, accessor, info, true);
            match r {
                Err(e) => (w, Err(e)),
                Ok(Val::Struct(fields)) => if fields@.dom().contains(field) {
                    assigned(
                        w,
                        sh,
                        *loc,
                        Val::Struct(fields.with(field, v)),
                        accessor.push(Accessor::Field(field)),
                        info,
                    )
                } else {
                    (w, Err(ExecError::Malformed(Malformed::NoFieldToAssign)))
                },
                Ok(_) => (w, Err(ExecError::Malformed(Malformed::NotAStruct))),
            }
        },
        Loc::Addr(loc) => {
            let (w, r) = state::read_loc(w, sh, *loc, accessor, info, true);
            match r {
                Err(e) => (w, Err(e)),
                Ok(Val::Ref(reg)) => (
                    assign_id(w, sh, reg, v, accessor + loc.path()),
                    Ok(()),
                ),
                Ok(_) => (w, Err(ExecError::Malformed(Malformed::NotAReference))),
            }
        },
    }
}

impl Loc {
    /// The path that an assignment to the place is recorded with.
    pub open spec fn written_path(self) -> Seq<Accessor>
        decreases self,
    {
        match self {
            Loc::Id(_) => seq![],
            Loc::Field(loc, field) => seq![Accessor::Field(field)] + loc.written_path(),
            Loc::Addr(loc) => loc.path(),
        }
    }
}

/// The accessor after an assignment, whether it goes through or not: it is
/// extended by the steps up to where the assignment ends.
pub open spec fn accessor_after(
    w: World,
    sh: SharedState,
    loc: Loc,
    v: Val,
    accessor: Seq<Accessor>,
    info: SourceLoc,
) -> Seq<Accessor>
    decreases loc,
{
    match loc {
        Loc::Id(_) => accessor,
        Loc::Field(loc, field) => {
            let (w, r) = state::read_loc(w, sh, *loc, accessor, info, true);
            match r {
                Ok(Val::Struct(fields)) => if fields@.dom().contains(field) {
                    accessor_after(
                        w,
                        sh,
                        *loc,
                        Val::Struct(fields.with(field, v)),
                        accessor.push(Accessor::Field(field)),
                        info,
                    )
                } else {
                    accessor.push(Accessor::Field(field))
                },
                _ => accessor,
            }
        },
        Loc::Addr(loc) => accessor + loc.path(),
    }
}

fn assign_to_id(
    id: Name,
    v: Val,
    local_state: &mut LocalState,
    shared_state: &SharedState,
    solver: &mut Solver,
    accessor: &Vec<Accessor>,
)
    ensures
        state::world(*final(local_state), *final(solver)) == assign_id(
            state::world(*old(local_state), *old(solver)),
            *shared_state,
            id,
            v,
            accessor@,
        ),
{
    if local_state.vars.contains_key(id) {
        local_state.vars.insert(id, UVal::Init(v));
    } else if local_state.lets.contains_key(id) {
        local_state.lets.insert(id, UVal::Init(v));
    } else {
        if !shared_state.is_tlb(id) {
            solver.add_event(Event::WriteReg(id, copy_accessor(accessor), v.dup()));
        }
        local_state.regs.assign(id, v);
    }
}

/// Assigns to a place, and extends the accessor by the path to it.
pub fn assign_with_accessor(
    loc: &Loc,
    v: Val,
    local_state: &mut LocalState,
    shared_state: &SharedState,
    solver: &mut Solver,
    accessor: &mut Vec<Accessor>,
    info: SourceLoc,
) -> (r: Result<(), ExecError>)
    ensures
        (state::world(*final(local_state), *final(solver)), r) == assigned(
            state::world(*old(local_state), *old(solver)),
            *shared_state,
            *loc,
            v,
            old(accessor)@,
            info,
        ),
        final(accessor)@ == accessor_after(
            state::world(*old(local_state), *old(solver)),
            *shared_state,
            *loc,
            v,
            old(accessor)@,
            info,
        ),
        r is Ok ==> final(accessor)@ == old(accessor)@ + loc.written_path(),
    decreases loc,
{
    let ghost before = accessor@;
    match loc {
        Loc::Id(id) => {
            assert(before + loc.written_path() =~= before);
            assign_to_id(*id, v, local_state, shared_state, solver, accessor);
            Ok(())
        },
        Loc::Field(inner, field) => {
            let mut read_accessor = copy_accessor(accessor);
            match get_loc_and_initialize(
                inner,
                local_state,
                shared_state,
                solver,
                &mut read_accessor,
                info,
                true,
            ) {
                Err(e) => Err(e),
                Ok(Val::Struct(fields)) => {
                    accessor.push(Accessor::Field(*field));
                    if fields.get(*field).is_some() {
                        let r = assign_with_accessor(
                            inner,
                            Val::Struct(fields.insert(*field, v)),
                            local_state,
                            shared_state,
                            solver,
                            accessor,
                            info,
                        );
                        assert(before.push(Accessor::Field(*field)) + inner.written_path()
                            =~= before + loc.written_path());
                        r
                    } else {
                        Err(ExecError::Malformed(Malformed::NoFieldToAssign))
                    }
                },
                Ok(_) => Err(ExecError::Malformed(Malformed::NotAStruct)),
            }
        },
        Loc::Addr(inner) => {
            match get_loc_and_initialize(
                inner,
                local_state,
                shared_state,
                solver,
                accessor,
                info,
                true,
            ) {
                Err(e) => Err(e),
                Ok(Val::Ref(reg)) => {
                    assign_to_id(reg, v, local_state, shared_state, solver, accessor);
                    Ok(())
                },
                Ok(_) => Err(ExecError::Malformed(Malformed::NotAReference)),
            }
        },
    }
}

/// Assigns to a place.
pub fn assign(
    loc: &Loc,
    v: Val,
    local_state: &mut LocalState,
    shared_state: &SharedState,
    solver: &mut Solver,
    info: SourceLoc,
) -> (r: Result<(), ExecError>)
    ensures
        (state::world(*final(local_state), *final(solver)), r) == assigned(
            state::world(*old(local_state), *old(solver)),
            *shared_state,
            *loc,
            v,
            seq![],
            info,
        ),
{
    let mut accessor: Vec<Accessor> = Vec::new();
    assert(accessor@ =~= seq![]);
    assign_with_accessor(loc, v, local_state, shared_state, solver, &mut accessor, info)
}

} // verus!
