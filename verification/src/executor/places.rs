//! What is read and written at a place, and what the path records of it.

use super::assign;
use super::error::ExecError;
use super::ir::{Loc, SharedState, SourceLoc, UVal, Val};
use super::laws;
use super::names::Name;
use super::solver::{Accessor, AnswerView, DefView, EventView, RequestView, SmtResult, SolverView};
use super::state::{self, World};
use crate::smt::smtlib::{self, EnumMember, Sym};
use crate::smt::tree::Tree;
use vstd::prelude::*;

verus! {

/// Whether a name is that of a variable, in the innermost scope.
pub open spec fn is_variable(w: World, id: Name) -> bool {
    w.local.vars.dom().contains(id)
}

/// Whether a name is that of a register, and of no variable.
pub open spec fn is_register(w: World, id: Name) -> bool {
    !is_variable(w, id) && w.local.regs.values.dom().contains(id)
}

/// Whether a name has its meaning at the top level only.
pub open spec fn is_global(w: World, id: Name) -> bool {
    !is_variable(w, id) && !is_register(w, id)
}

/// A variable that has a value gives it, whatever else has the same name, and
/// the read leaves no trace.
pub proof fn law_variable_is_read(
    w: World,
    sh: SharedState,
    id: Name,
    accessor: Seq<Accessor>,
    info: SourceLoc,
    for_write: bool,
    v: Val,
)
    requires
        is_variable(w, id),
        w.local.vars[id] == UVal::Init(v),
    ensures
        state::read_id(w, sh, id, accessor, info, for_write) == (w, Ok::<Val, ExecError>(v)),
{
}

/// A register that has a value gives it. The read is recorded with the path
/// inside the register and with the whole value, unless it only prepares a
/// write or the register caches translations.
pub proof fn law_register_is_read(
    w: World,
    sh: SharedState,
    id: Name,
    accessor: Seq<Accessor>,
    info: SourceLoc,
    for_write: bool,
    v: Val,
)
    requires
        is_register(w, id),
        w.local.regs.values[id] == UVal::Init(v),
    ensures
        ({
            let (after, r) = state::read_id(w, sh, id, accessor, info, for_write);
            &&& r == Ok::<Val, ExecError>(v)
            &&& after.local == w.local
            &&& after.solver.asked == w.solver.asked
            &&& for_write || sh.decoded(id) == "_TLB"@ ==> after.solver.trace == w.solver.trace
            &&& !for_write && sh.decoded(id) != "_TLB"@ ==> after.solver.trace
                == w.solver.trace.push(EventView::ReadReg(id, accessor, v))
        }),
{
}

/// What has a value at the top level gives it. Else a name may be that of a
/// member of an enumeration, of which the name and the size are given to ask
/// for it. Any other name has no meaning.
pub proof fn law_global_is_read(
    w: World,
    sh: SharedState,
    id: Name,
    accessor: Seq<Accessor>,
    info: SourceLoc,
    for_write: bool,
)
    requires
        is_global(w, id),
    ensures
        ({
            let (after, r) = state::read_id(w, sh, id, accessor, info, for_write);
            let n = w.solver.asked.len() as int;
            let known = w.local.lets.dom().contains(id);
            let member = sh.enum_members@[id];
            &&& known && w.local.lets[id] is Init ==> after == w && r == Ok::<Val, ExecError>(
                w.local.lets[id]->Init_0,
            )
            &&& !known && sh.enum_members@.dom().contains(id) ==> {
                &&& after.solver.asked.len() == n + 1
                &&& after.solver.asked[n].request == RequestView::GetEnum(
                    member.enum_name,
                    member.size,
                )
                &&& r is Ok ==> (w.solver.replies[n].answer matches AnswerView::Enum(enum_id) && r
                    == Ok::<Val, ExecError>(
                    Val::Enum(EnumMember { enum_id, member: member.member }),
                ))
            }
            &&& !known && !sh.enum_members@.dom().contains(id) ==> after == w && r == Err::<
                Val,
                ExecError,
            >(ExecError::VariableNotFound(id))
        }),
{
}

/// What has no value yet is given any value of its type, and keeps it: where
/// the name is found first, and nowhere else.
pub proof fn law_unset_is_given_a_value(
    w: World,
    sh: SharedState,
    id: Name,
    accessor: Seq<Accessor>,
    info: SourceLoc,
    for_write: bool,
)
    requires
        is_variable(w, id) ==> w.local.vars[id] is Uninit,
        is_register(w, id) ==> w.local.regs.values[id] is Uninit,
        is_global(w, id) ==> w.local.lets.dom().contains(id) && w.local.lets[id] is Uninit,
    ensures
        ({
            let (after, r) = state::read_id(w, sh, id, accessor, info, for_write);
            let n = w.solver.asked.len() as int;
            let ty = if is_variable(w, id) {
                w.local.vars[id]->Uninit_0
            } else if is_register(w, id) {
                w.local.regs.values[id]->Uninit_0
            } else {
                w.local.lets[id]->Uninit_0
            };
            &&& after.solver.asked.len() == n + 1
            &&& after.solver.asked[n].request == RequestView::Symbolic(ty)
            &&& r matches Ok(v) ==> {
                &&& w.solver.replies[n].answer == AnswerView::Val(v)
                &&& state::read_id(after, sh, id, accessor, info, for_write).1 == Ok::<
                    Val,
                    ExecError,
                >(v)
                &&& !is_variable(w, id) ==> after.local.vars == w.local.vars
                &&& !is_register(w, id) ==> after.local.regs == w.local.regs
                &&& !is_global(w, id) ==> after.local.lets == w.local.lets
                &&& after.local.regs.unsynchronized == w.local.regs.unsynchronized
            }
            &&& r is Err ==> after.local == w.local
        }),
{
}

/// An assignment to a variable changes that variable, and nothing is recorded.
pub proof fn law_variable_is_written(
    w: World,
    sh: SharedState,
    id: Name,
    v: Val,
    accessor: Seq<Accessor>,
    info: SourceLoc,
)
    requires
        is_variable(w, id),
    ensures
        ({
            let (after, r) = assign::assigned(w, sh, Loc::Id(id), v, accessor, info);
            &&& r is Ok
            &&& after.solver == w.solver
            &&& after.local.vars == w.local.vars.insert(id, UVal::Init(v))
            &&& after.local.regs == w.local.regs
            &&& after.local.lets == w.local.lets
        }),
{
}

/// An assignment to a register changes that register, which from then on
/// counts as not synchronised, and is recorded with the path and the value,
/// unless the register caches translations.
pub proof fn law_register_is_written(
    w: World,
    sh: SharedState,
    id: Name,
    v: Val,
    accessor: Seq<Accessor>,
    info: SourceLoc,
)
    requires
        is_register(w, id),
        !w.local.lets.dom().contains(id),
    ensures
        ({
            let (after, r) = assign::assigned(w, sh, Loc::Id(id), v, accessor, info);
            &&& r is Ok
            &&& after.local.vars == w.local.vars
            &&& after.local.lets == w.local.lets
            &&& after.local.regs.values == w.local.regs.values.insert(id, UVal::Init(v))
            &&& after.local.regs.unsynchronized == w.local.regs.unsynchronized.insert(id)
            &&& after.solver.asked == w.solver.asked
            &&& sh.decoded(id) == "_TLB"@ ==> after.solver.trace == w.solver.trace
            &&& sh.decoded(id) != "_TLB"@ ==> after.solver.trace == w.solver.trace.push(
                EventView::WriteReg(id, accessor, v),
            )
        }),
{
}

/// The steps from the register to a field are recorded with the last step
/// first, in the same way for a read as for a write.
pub proof fn law_paths(loc: Loc, field: Name)
    requires
        laws::is_direct(loc),
    ensures
        ({
            let inner = Loc::Field(Box::new(loc), field);
            &&& inner.path().len() == loc.path().len() + 1
            &&& inner.path()[0] == Accessor::Field(field)
            &&& inner.path().skip(1) == loc.path()
            &&& inner.written_path() == inner.path()
            &&& loc is Id ==> loc.path().len() == 0
        }),
    decreases loc,
{
    let inner = Loc::Field(Box::new(loc), field);
    match loc {
        Loc::Field(outer, name) => {
            law_paths(*outer, name);
        },
        _ => {
            assert(loc.path() =~= seq![] && loc.written_path() =~= seq![]);
        },
    }
    assert(inner.path().skip(1) =~= loc.path());
}

/// A field of a register is read out of what the register holds, and recorded
/// with the path to the field.
pub proof fn law_field_of_register_is_read(
    w: World,
    sh: SharedState,
    loc: Loc,
    accessor: Seq<Accessor>,
    info: SourceLoc,
    whole: Val,
)
    requires
        laws::is_direct(loc),
        is_register(w, loc.base()),
        w.local.regs.values[loc.base()] == UVal::Init(whole),
        sh.decoded(loc.base()) != "_TLB"@,
    ensures
        ({
            let (after, r) = state::read_loc(w, sh, loc, accessor, info, false);
            &&& after.local == w.local
            &&& after.solver.trace == w.solver.trace.push(
                EventView::ReadReg(loc.base(), accessor + loc.path(), whole),
            )
            &&& r == part(whole, loc)
        }),
    decreases loc,
{
    if let Loc::Field(outer, field) = loc {
        let step = seq![Accessor::Field(field)];
        law_field_of_register_is_read(
            w,
            sh,
            *outer,
            accessor.push(Accessor::Field(field)),
            info,
            whole,
        );
        assert(accessor.push(Accessor::Field(field)) + outer.path() =~= accessor + (step
            + outer.path()));
    } else {
        assert(accessor + loc.path() =~= accessor);
    }
}

/// The part of a value that a place inside it holds.
pub open spec fn part(whole: Val, loc: Loc) -> Result<Val, ExecError>
    decreases loc,
{
    match loc {
        Loc::Field(outer, field) => match part(whole, *outer) {
            Ok(Val::Struct(fields)) => if fields@.dom().contains(field) {
                Ok(fields@[field])
            } else {
                Err(ExecError::Malformed(super::error::Malformed::NoField(field)))
            },
            Ok(_) => Err(ExecError::Malformed(super::error::Malformed::NotAStruct)),
            Err(e) => Err(e),
        },
        _ => Ok(whole),
    }
}

/// An assignment to a field of a register writes the register: what it holds
/// afterwards has the value in that field, and is what is recorded, together
/// with the path to the field. Nothing is asked for it and no read is
/// recorded.
pub proof fn law_field_of_register_is_written(
    w: World,
    sh: SharedState,
    loc: Loc,
    v: Val,
    accessor: Seq<Accessor>,
    info: SourceLoc,
    whole: Val,
)
    requires
        laws::is_direct(loc),
        is_register(w, loc.base()),
        !w.local.lets.dom().contains(loc.base()),
        w.local.regs.values[loc.base()] == UVal::Init(whole),
        sh.decoded(loc.base()) != "_TLB"@,
    ensures
        ({
            let (after, r) = assign::assigned(w, sh, loc, v, accessor, info);
            let reg = loc.base();
            &&& r is Ok ==> (after.local.regs.values[reg] matches UVal::Init(changed) && {
                &&& after.local.regs.values == w.local.regs.values.insert(reg, UVal::Init(changed))
                &&& part(changed, loc) == Ok::<Val, ExecError>(v)
                &&& after.solver.trace == w.solver.trace.push(
                    EventView::WriteReg(reg, accessor + loc.path(), changed),
                )
                &&& after.solver.asked == w.solver.asked
                &&& after.local.regs.unsynchronized == w.local.regs.unsynchronized.insert(reg)
            })
            &&& r is Err ==> after == w
        }),
    decreases loc,
{
    if let Loc::Field(outer, field) = loc {
        lemma_quiet_read(w, sh, *outer, accessor, info, whole);
        if let Ok(Val::Struct(fields)) = part(whole, *outer) {
            if fields@.dom().contains(field) {
                fields.lemma_with(field, v);
                let changed = Val::Struct(fields.with(field, v));
                let longer = accessor.push(Accessor::Field(field));
                law_field_of_register_is_written(w, sh, *outer, changed, longer, info, whole);
                let step = seq![Accessor::Field(field)];
                assert(longer + outer.path() =~= accessor + (step + outer.path()));
                assert(assign::assigned(w, sh, loc, v, accessor, info) == assign::assigned(
                    w,
                    sh,
                    *outer,
                    changed,
                    longer,
                    info,
                ));
            }
        }
    } else {
        assert(accessor + loc.path() =~= accessor);
    }
}

/// A read that prepares a write records nothing.
proof fn lemma_quiet_read(
    w: World,
    sh: SharedState,
    loc: Loc,
    accessor: Seq<Accessor>,
    info: SourceLoc,
    whole: Val,
)
    requires
        laws::is_direct(loc),
        is_register(w, loc.base()),
        w.local.regs.values[loc.base()] == UVal::Init(whole),
    ensures
        state::read_loc(w, sh, loc, accessor, info, true) == (w, part(whole, loc)),
    decreases loc,
{
    if let Loc::Field(outer, field) = loc {
        lemma_quiet_read(w, sh, *outer, accessor.push(Accessor::Field(field)), info, whole);
    }
}

/// An assignment through a reference goes to the register that is referred
/// to, and leaves the reference as it is.
pub proof fn law_assignment_through_reference(
    w: World,
    sh: SharedState,
    id: Name,
    reg: Name,
    v: Val,
    info: SourceLoc,
)
    requires
        is_variable(w, id),
        w.local.vars[id] == UVal::Init(Val::Ref(reg)),
        is_register(w, reg),
        !w.local.lets.dom().contains(reg),
        sh.decoded(reg) != "_TLB"@,
    ensures
        ({
            let place = Loc::Addr(Box::new(Loc::Id(id)));
            let (after, r) = assign::assigned(w, sh, place, v, seq![], info);
            &&& r is Ok
            &&& after.local.vars == w.local.vars
            &&& after.local.regs.values == w.local.regs.values.insert(reg, UVal::Init(v))
            &&& after.solver.trace == w.solver.trace.push(EventView::WriteReg(reg, seq![], v))
        }),
{
    assert(Seq::<Accessor>::empty() + Loc::Id(id).path() =~= seq![]);
}

/// Whether there is a model and whether there is none are opposite questions,
/// and neither has an answer if the solver has none.
pub proof fn law_verdicts_are_opposite(r: SmtResult)
    ensures
        r.spec_is_sat() == Ok::<bool, ExecError>(true) <==> r is Sat,
        r.spec_is_unsat() == Ok::<bool, ExecError>(true) <==> r is Unsat,
        r.spec_is_sat() matches Ok(sat) ==> r.spec_is_unsat() == Ok::<bool, ExecError>(!sat),
        r.spec_is_sat() is Err <==> r.spec_is_unsat() is Err,
        r.spec_is_sat() is Err ==> r.spec_is_sat() == Err::<bool, ExecError>(ExecError::Unknown)
            && r.spec_is_unsat() == Err::<bool, ExecError>(ExecError::Unknown),
{
}

/// A symbol that is defined or declared is a fresh one, and no later one is
/// the same. Its definition or its type is recorded last.
pub proof fn law_symbols_are_fresh(
    s: SolverView,
    t: Tree<Sym>,
    ty: smtlib::Ty,
    info: SourceLoc,
)
    requires
        s.next < u32::MAX,
    ensures
        ({
            let (defined, d) = s.define_const(t, info);
            let (declared, c) = s.declare_const(ty, info);
            &&& d == Ok::<Sym, ExecError>(s.next)
            &&& c == Ok::<Sym, ExecError>(s.next)
            &&& defined.next > s.next
            &&& declared.next > s.next
            &&& defined.trace.drop_last() == s.trace
            &&& declared.trace.drop_last() == s.trace
            &&& (defined.trace.last() matches EventView::Smt(def, attrs, at) && def
                == DefView::DefineConst(s.next, t) && attrs == s.attrs && at == info)
            &&& (declared.trace.last() matches EventView::Smt(def, attrs, at) && def
                == DefView::DeclareConst(s.next, ty) && attrs == s.attrs && at == info)
        }),
{
    let (defined, _) = s.define_const(t, info);
    let (declared, _) = s.declare_const(ty, info);
    assert(defined.trace.drop_last() =~= s.trace);
    assert(declared.trace.drop_last() =~= s.trace);
}

/// Each request gets the reply at its own position, together with what
/// happened while it was worked on.
pub proof fn law_replies_in_order(s: SolverView, request: RequestView, info: SourceLoc)
    ensures
        ({
            let (after, r) = s.ask(request, info);
            let n = s.asked.len() as int;
            &&& after.asked.len() == n + 1
            &&& after.asked[n].request == request && after.asked[n].info == info
            &&& after.asked[n].attrs == s.attrs
            &&& after.replies == s.replies
            &&& n >= s.replies.len() ==> r == Err::<AnswerView, ExecError>(ExecError::Pending)
                && after.trace == s.trace
            &&& r matches Ok(answer) ==> {
                &&& n < s.replies.len()
                &&& answer == s.replies[n].answer
                &&& after.trace == s.trace + s.replies[n].events
                &&& after.next == s.next + s.replies[n].fresh
            }
            &&& n < s.replies.len() && s.next + s.replies[n].fresh <= u32::MAX ==> (
            s.replies[n].answer matches AnswerView::Error(e) ==> r == Err::<AnswerView, ExecError>(
                e,
            ))
        }),
{
}

} // verus!
