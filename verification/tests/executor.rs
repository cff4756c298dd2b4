use isla::bitvector::B64;
use isla::executor::assign::{assign, assign_with_accessor};
use isla::executor::collect::{
    all_unsat_collector, footprint_collector, trace_collector, trace_result_collector, trace_value_collector,
    Collected, TraceError, TraceQueue,
};
use isla::executor::error::{ExecError, Malformed, TypeError};
use isla::executor::eval::eval_exp;
use isla::executor::explore::{do_work, start_single, Exploration, Work};
use isla::executor::frame::{freeze_frame, unfreeze_frame, LocalFrame};
use isla::executor::ir::{
    EnumInfo, ExitCause, Exp, Fields, Function, FunctionAssumption, Instr, Loc, Op, SharedState, SourceLoc, Symbol, Ty,
    UVal, Val, Vals, ABSTRACT_CALL, CURRENT_EXCEPTION, HAVE_EXCEPTION, INSTR_ANNOUNCE, INTERNAL_VECTOR_INIT,
    INTERNAL_VECTOR_UPDATE, ITE_PHI, READ_REGISTER_FROM_VECTOR, REG_DEREF, RESET_REGISTERS, RETURN, THROW_LOCATION,
    WRITE_REGISTER_FROM_VECTOR,
};
use isla::executor::multi::{Activity, Decision, Orchestrator, Phase, ThreadEvent, ThreadState};
use isla::executor::names::{Name, NameMap};
use isla::executor::queue::TaskQueue;
use isla::executor::reset::{smt_exp_to_value, TaskState};
use isla::executor::resets::Resets;
use isla::executor::run::{run_step, Context, Flow, RunResult};
use isla::executor::solver::{Accessor, Answer, Event, Memory, Reply, Request, SmtResult, Solver, SymbolValue};
use isla::executor::state::{LocalState, RegisterBindings};
use isla::executor::stop::{StopAction, StopConditions, StopPoint};
use isla::executor::task::{checkpoint, Checkpoint, Task};
use isla::executor::vector::{fix_index_length, required_index_bits};
use isla::smt::smtlib::{self, Def, EnumId, EnumMember};
use std::sync::Arc;

const INFO: SourceLoc = SourceLoc::Unknown;
const FUEL: u64 = 1000;

/// Names of the programs below.
const X: Name = 100;
const Y: Name = 101;
const PC: Name = 102;
const R0: Name = 103;
const R1: Name = 104;
const F: Name = 200;
const G: Name = 201;
const FIELD: Name = 300;
const SOME_CTOR: Name = 400;
const NONE_CTOR: Name = 401;
const MEMBER: Name = 500;

fn shared() -> SharedState {
    SharedState {
        symtab: Vec::new(),
        functions: NameMap::new(),
        externs: NameMap::new(),
        enum_members: NameMap::new(),
        union_ctors: vec![SOME_CTOR, NONE_CTOR],
        trace_functions: Vec::new(),
        places: Vec::new(),
        reset_registers: Resets::new(),
        reset_constraints: Vec::new(),
        function_assumptions: Vec::new(),
    }
}

fn frame(instrs: Vec<Instr>) -> LocalFrame {
    LocalFrame::new(F, &Vec::new(), &Ty::I64, None, Arc::new(instrs))
}

fn task(instrs: Vec<Instr>) -> Task {
    frame(instrs).task(0, Arc::new(TaskState::new()))
}

fn copy(id: Name, exp: Exp) -> Instr {
    Instr::Copy(Loc::Id(id), exp, INFO)
}

fn bits(value: u64, len: u32) -> Val {
    Val::Bits(B64::new(value, len))
}

fn reply(answer: Answer) -> Reply {
    Reply { fresh: 0, events: Vec::new(), answer }
}

/// A reply that introduces a symbol.
fn fresh(sym: u32) -> Reply {
    let def = Def::DeclareConst(sym, smtlib::Ty::Bool);
    let attrs = isla::executor::solver::DefAttrs { uninteresting: false };
    Reply { fresh: 1, events: vec![Event::Smt(def, attrs, INFO)], answer: Answer::Val(Val::Symbolic(sym)) }
}

fn sat() -> Reply {
    reply(Answer::Sat(SmtResult::Sat))
}

fn unsat() -> Reply {
    reply(Answer::Sat(SmtResult::Unsat))
}

fn work(instrs: Vec<Instr>, replies: Vec<Reply>, sh: &SharedState) -> Work {
    do_work(&task(instrs), replies, None, sh, FUEL)
}

/// The value that a path ends with.
fn value(w: &Work) -> &Val {
    match &w.result {
        Some(Ok((v, _))) => v,
        Some(Err(_)) => panic!("the path fails"),
        None => panic!("the path goes on"),
    }
}

fn error(w: &Work) -> &ExecError {
    match &w.result {
        Some(Err((e, _))) => e,
        _ => panic!("the path does not fail"),
    }
}

fn is_bits(v: &Val, value: u64, len: u32) -> bool {
    match v {
        Val::Bits(b) => b.lower_u64() == value && b.len() == len,
        _ => false,
    }
}

fn solver(replies: Vec<Reply>) -> Solver {
    Solver::resume(0, Vec::new(), replies)
}

fn local() -> LocalState {
    LocalState { vars: NameMap::new(), regs: RegisterBindings::new(), lets: NameMap::new() }
}

fn context() -> Context {
    Context { task_id: 0, timeout: None, stop_conditions: None, task_state: Arc::new(TaskState::new()) }
}

/// A jump on an unknown boolean, to 2 if it holds and to 1 if it does not.
fn branching() -> Vec<Instr> {
    vec![
        Instr::Decl(X, Ty::Bool, INFO),
        Instr::Jump(Exp::Id(X), 4, INFO),
        copy(RETURN, Exp::I64(1)),
        Instr::Goto(5),
        copy(RETURN, Exp::I64(2)),
        Instr::End,
    ]
}

#[test]
fn straight_line_programs_end_with_their_result() {
    let w = work(vec![copy(RETURN, Exp::I64(7)), Instr::End], Vec::new(), &shared());
    assert!(matches!(value(&w), Val::I64(7)));
    assert_eq!(w.spawned.len(), 0);
    assert_eq!(w.solver.asked().len(), 0);
    assert_eq!(w.solver.trace().len(), 0);
}

#[test]
fn bindings_without_an_end_give_unit() {
    let w = work(vec![Instr::Init(X, Ty::I64, Exp::I64(7), INFO)], Vec::new(), &shared());
    assert!(matches!(value(&w), Val::Unit));
    match &w.result {
        Some(Ok((_, frame))) => assert!(matches!(frame.vars().get(X), Some(UVal::Init(Val::I64(7))))),
        _ => panic!("the path does not end"),
    }
}

#[test]
fn unread_results_are_symbolic() {
    let w = work(vec![Instr::End], vec![fresh(0)], &shared());
    assert!(matches!(value(&w), Val::Symbolic(0)));
    assert!(matches!(w.solver.asked()[0].request, Request::Symbolic(Ty::I64)));
}

#[test]
fn paths_wait_for_replies() {
    let sh = shared();
    let w = work(branching(), Vec::new(), &sh);
    assert!(matches!(error(&w), ExecError::Pending));
    assert_eq!(w.solver.asked().len(), 1);
    assert!(matches!(w.solver.asked()[0].request, Request::Symbolic(Ty::Bool)));
    let w = work(branching(), vec![fresh(0)], &sh);
    assert!(matches!(error(&w), ExecError::Pending));
    assert_eq!(w.solver.asked().len(), 2);
    assert!(matches!(w.solver.asked()[1].request, Request::CheckSatWith(smtlib::Exp::Var(0))));
    let w = work(branching(), vec![fresh(0), sat()], &sh);
    assert!(matches!(error(&w), ExecError::Pending));
    match &w.solver.asked()[2].request {
        Request::CheckSatWith(smtlib::Exp::Not(e)) => assert!(matches!(**e, smtlib::Exp::Var(0))),
        _ => panic!("another request"),
    }
}

#[test]
fn more_replies_change_nothing_for_a_path_that_has_ended() {
    let sh = shared();
    let enough = work(branching(), vec![fresh(0), sat(), unsat()], &sh);
    let more = work(branching(), vec![fresh(0), sat(), unsat(), sat(), fresh(1)], &sh);
    assert!(matches!(value(&enough), Val::I64(2)));
    assert!(matches!(value(&more), Val::I64(2)));
    assert_eq!(enough.solver.asked().len(), 3);
    assert_eq!(more.solver.asked().len(), 3);
    assert_eq!(enough.solver.trace().len(), more.solver.trace().len());
    assert_eq!(enough.solver.next_sym(), more.solver.next_sym());
}

#[test]
fn traces_grow_along_a_path() {
    let sh = shared();
    let mut frame = frame(branching());
    let mut solver = solver(vec![fresh(0), sat(), sat()]);
    let mut spawned = Vec::new();
    let mut length = 0;
    loop {
        let r = run_step(&context(), &mut spawned, &mut frame, &sh, &mut solver);
        let trace = solver.trace();
        assert!(trace.len() >= length);
        length = trace.len();
        match r {
            Ok(Flow::Next) => {}
            Ok(Flow::Done(v)) => {
                assert!(matches!(v, Val::I64(2)));
                break;
            }
            Err(_) => panic!("the path fails"),
        }
    }
    assert_eq!(length, 3);
    assert_eq!(spawned.len(), 1);
}

#[test]
fn jumps_that_can_go_both_ways_split_the_path() {
    let sh = shared();
    let w = work(branching(), vec![fresh(0), sat(), sat()], &sh);
    assert!(matches!(value(&w), Val::I64(2)));
    assert_eq!(w.spawned.len(), 1);
    let trace = w.solver.trace();
    assert!(matches!(trace[0], Event::Smt(Def::DeclareConst(0, _), _, _)));
    assert!(matches!(trace[1], Event::Fork(0, 0, 0, _)));
    assert!(matches!(trace[2], Event::Smt(Def::Assert(smtlib::Exp::Var(0)), _, _)));
    let other = do_work(&w.spawned[0], Vec::new(), None, &sh, FUEL);
    assert!(matches!(value(&other), Val::I64(1)));
    let trace = other.solver.trace();
    assert_eq!(trace.len(), 3);
    assert!(matches!(trace[0], Event::Smt(Def::DeclareConst(0, _), _, _)));
    assert!(matches!(trace[1], Event::Fork(0, 0, 1, _)));
    assert!(matches!(trace[2], Event::Smt(Def::Assert(smtlib::Exp::Not(_)), _, _)));
}

#[test]
fn jumps_that_can_go_one_way_take_it() {
    let sh = shared();
    let w = work(branching(), vec![fresh(0), unsat(), sat()], &sh);
    assert!(matches!(value(&w), Val::I64(1)));
    assert_eq!(w.spawned.len(), 0);
    let w = work(branching(), vec![fresh(0), sat(), unsat()], &sh);
    assert!(matches!(value(&w), Val::I64(2)));
    assert_eq!(w.spawned.len(), 0);
    let w = work(branching(), vec![fresh(0), unsat(), unsat()], &sh);
    assert!(matches!(error(&w), ExecError::Dead));
    let w = work(branching(), vec![fresh(0), reply(Answer::Sat(SmtResult::Unknown))], &sh);
    assert!(matches!(error(&w), ExecError::Unknown));
}

#[test]
fn jumps_on_known_conditions_ask_nothing() {
    let sh = shared();
    let program = |b: bool| {
        vec![
            Instr::Jump(Exp::Bool(b), 3, INFO),
            copy(RETURN, Exp::I64(1)),
            Instr::End,
            copy(RETURN, Exp::I64(2)),
            Instr::End,
        ]
    };
    assert!(matches!(value(&work(program(false), Vec::new(), &sh)), Val::I64(1)));
    assert!(matches!(value(&work(program(true), Vec::new(), &sh)), Val::I64(2)));
    let w = work(vec![Instr::Jump(Exp::I64(1), 0, INFO)], Vec::new(), &sh);
    assert!(matches!(error(&w), ExecError::Type(TypeError::JumpOnNonBoolean(Val::I64(1)), _)));
}

fn monomorphizing() -> Vec<Instr> {
    vec![
        Instr::Decl(X, Ty::Bits(8), INFO),
        Instr::Monomorphize(X, INFO),
        copy(RETURN, Exp::Id(X)),
        Instr::End,
    ]
}

#[test]
fn monomorphization_splits_off_the_other_values() {
    let sh = shared();
    let model = || reply(Answer::Model(Some(SymbolValue::Bits(B64::new(5, 8)))));
    let replies = vec![fresh(0), reply(Answer::Length(Some(8))), sat(), model()];
    let w = work(monomorphizing(), replies, &sh);
    assert!(is_bits(value(&w), 5, 8));
    assert_eq!(w.spawned.len(), 1);
    assert_eq!(w.solver.next_sym(), 2);
    match w.solver.trace().last() {
        Some(Event::Smt(Def::Assert(smtlib::Exp::Eq(a, b)), _, _)) => {
            assert!(matches!(**a, smtlib::Exp::Var(0)));
            match &**b {
                smtlib::Exp::Bits64(b) => assert_eq!((b.lower_u64(), b.len()), (5, 8)),
                _ => panic!("no constant"),
            }
        }
        _ => panic!("no assertion"),
    }
    let replies = vec![reply(Answer::Length(Some(8))), unsat()];
    let other = do_work(&w.spawned[0], replies, None, &sh, FUEL);
    assert!(matches!(error(&other), ExecError::Dead));
    let trace = other.solver.trace();
    assert!(matches!(trace[1], Event::Fork(0, 0, 1, _)));
    assert!(matches!(trace[2], Event::Smt(Def::Assert(smtlib::Exp::Neq(_, _)), _, _)));
}

#[test]
fn monomorphization_needs_a_length_and_a_model() {
    let sh = shared();
    let w = work(monomorphizing(), vec![fresh(0), reply(Answer::Length(None))], &sh);
    assert!(matches!(error(&w), ExecError::Type(TypeError::Monomorphize(0), _)));
    let replies = |e| vec![fresh(0), reply(Answer::Length(Some(8))), sat(), reply(Answer::Model(e))];
    let w = work(monomorphizing(), replies(None), &sh);
    assert!(matches!(error(&w), ExecError::NoModelValue(0)));
    let w = work(monomorphizing(), replies(Some(SymbolValue::Other("Bool(true)".to_string()))), &sh);
    assert!(matches!(error(&w), ExecError::Type(TypeError::MonomorphizeModel(s), _) if s == "Bool(true)"));
    let concrete = vec![
        Instr::Init(X, Ty::I64, Exp::I64(3), INFO),
        Instr::Monomorphize(X, INFO),
        copy(RETURN, Exp::Id(X)),
        Instr::End,
    ];
    let w = work(concrete, Vec::new(), &sh);
    assert!(matches!(value(&w), Val::I64(3)));
    assert_eq!(w.spawned.len(), 0);
}

#[test]
fn the_path_that_was_split_off_last_is_explored_first() {
    let sh = shared();
    let program = vec![
        Instr::Decl(X, Ty::Bool, INFO),
        Instr::Decl(Y, Ty::Bool, INFO),
        Instr::Jump(Exp::Id(X), 5, INFO),
        copy(RETURN, Exp::I64(1)),
        Instr::End,
        Instr::Jump(Exp::Id(Y), 8, INFO),
        copy(RETURN, Exp::I64(2)),
        Instr::End,
        copy(RETURN, Exp::I64(3)),
        Instr::End,
    ];
    let mut explorer = start_single(task(program));
    match explorer.explore(&sh, vec![fresh(0)], FUEL) {
        Exploration::Pending { solver } => assert_eq!(solver.asked().len(), 2),
        _ => panic!("the path does not wait"),
    }
    let replies = || vec![fresh(0), sat(), sat(), fresh(1), sat(), sat()];
    let mut results = Vec::new();
    let mut next = replies();
    loop {
        match explorer.explore(&sh, next, FUEL) {
            Exploration::Path { task_id, result, solver } => {
                assert_eq!(task_id, 0);
                assert!(!solver.trace().is_empty());
                match result {
                    Ok((Val::I64(n), _)) => results.push(n),
                    _ => panic!("the path fails"),
                }
            }
            Exploration::Finished => break,
            _ => panic!("the path does not end"),
        }
        next = Vec::new();
    }
    assert_eq!(results, vec![3, 2, 1]);
}

#[test]
fn endless_paths_are_left_unfinished() {
    let sh = shared();
    let mut explorer = start_single(task(vec![Instr::Goto(0)]));
    assert!(matches!(explorer.explore(&sh, Vec::new(), 50), Exploration::Unfinished));
    let w = do_work(&task(vec![Instr::Goto(0)]), Vec::new(), None, &sh, 50);
    assert!(w.result.is_none());
}

#[test]
fn queues_give_back_the_last_task() {
    let mut queue = TaskQueue::new();
    let ids = |queue: &mut TaskQueue| match queue.pop() {
        Some(t) => {
            let w = do_work(&t, Vec::new(), None, &shared(), FUEL);
            match value(&w) {
                Val::I64(n) => Some(*n),
                _ => panic!("no number"),
            }
        }
        None => None,
    };
    let numbered = |n: i64| task(vec![copy(RETURN, Exp::I64(n)), Instr::End]);
    assert_eq!(ids(&mut queue), None);
    queue.push(numbered(1));
    queue.push_all(vec![numbered(2), numbered(3)]);
    assert_eq!(ids(&mut queue), Some(3));
    queue.push(numbered(4));
    assert_eq!(ids(&mut queue), Some(4));
    assert_eq!(ids(&mut queue), Some(2));
    assert_eq!(ids(&mut queue), Some(1));
    assert_eq!(ids(&mut queue), None);
}

#[test]
fn time_runs_out() {
    let sh = shared();
    let program = || vec![copy(RETURN, Exp::I64(1)), Instr::End];
    let elapsed = |ns: u64| reply(Answer::Elapsed(ns));
    let w = do_work(&task(program()), vec![elapsed(0), elapsed(2_000_000_000)], Some(2), &sh, FUEL);
    assert!(matches!(value(&w), Val::I64(1)));
    let w = do_work(&task(program()), vec![elapsed(0), elapsed(2_000_000_001)], Some(2), &sh, FUEL);
    assert!(matches!(error(&w), ExecError::Timeout));
    assert!(matches!(w.solver.asked()[1].request, Request::Elapsed));
    let w = do_work(&task(program()), vec![sat()], Some(2), &sh, FUEL);
    assert!(matches!(error(&w), ExecError::UnexpectedAnswer));
}

fn identity() -> Function {
    Function {
        params: vec![(X, Ty::I64)],
        ret_ty: Ty::I64,
        instrs: Arc::new(vec![copy(RETURN, Exp::Id(X)), Instr::End]),
    }
}

fn calling(args: Vec<Exp>) -> Vec<Instr> {
    vec![
        Instr::Init(X, Ty::I64, Exp::I64(1), INFO),
        Instr::Call(Loc::Id(RETURN), false, G, args, INFO),
        Instr::Init(Y, Ty::I64, Exp::Id(X), INFO),
        Instr::End,
    ]
}

#[test]
fn calls_come_back_with_the_variables_of_the_caller() {
    let mut sh = shared();
    sh.functions.insert(G, identity());
    sh.trace_functions = vec![G];
    let w = work(calling(vec![Exp::I64(9)]), Vec::new(), &sh);
    assert!(matches!(value(&w), Val::I64(9)));
    match &w.result {
        Some(Ok((_, frame))) => assert!(matches!(frame.vars().get(Y), Some(UVal::Init(Val::I64(1))))),
        _ => panic!("the path does not end"),
    }
    let trace = w.solver.trace();
    assert_eq!(trace.len(), 2);
    assert!(matches!(trace[0], Event::Function { name: G, call: true }));
    assert!(matches!(trace[1], Event::Function { name: G, call: false }));
}

#[test]
fn calls_bind_the_arguments_there_are() {
    let mut sh = shared();
    sh.functions.insert(G, identity());
    let w = work(calling(Vec::new()), Vec::new(), &sh);
    assert!(matches!(error(&w), ExecError::VariableNotFound(X)));
    let w = work(calling(vec![Exp::I64(1), Exp::I64(2)]), Vec::new(), &sh);
    assert!(matches!(error(&w), ExecError::Malformed(Malformed::MissingArguments)));
}

#[test]
fn errors_say_where_they_came_up() {
    let mut sh = shared();
    let failing = Function {
        params: Vec::new(),
        ret_ty: Ty::I64,
        instrs: Arc::new(vec![Instr::Goto(1), Instr::Exit(ExitCause::Explicit, INFO)]),
    };
    sh.functions.insert(G, failing);
    let w = work(calling(Vec::new()), Vec::new(), &sh);
    match &w.result {
        Some(Err((ExecError::Exit, backtrace))) => assert_eq!(*backtrace, vec![(F, 1), (G, 1)]),
        _ => panic!("no exit"),
    }
}

#[test]
fn exits_are_told_apart() {
    let sh = shared();
    let exit = |cause| work(vec![Instr::Exit(cause, SourceLoc::CommandLine)], Vec::new(), &sh);
    assert!(matches!(error(&exit(ExitCause::Explicit)), ExecError::Exit));
    let w = exit(ExitCause::MatchFailure);
    assert!(matches!(error(&w), ExecError::MatchFailure(_)));
    assert_eq!(error(&w).source_loc(), SourceLoc::CommandLine);
    assert!(matches!(error(&exit(ExitCause::AssertionFailure)), ExecError::AssertionFailure(None, _)));
    assert_eq!(error(&exit(ExitCause::Explicit)).source_loc(), SourceLoc::Unknown);
    let w = work(vec![Instr::Arbitrary], Vec::new(), &sh);
    assert!(matches!(value(&w), Val::Poison));
}

#[test]
fn unknown_names_are_errors() {
    let sh = shared();
    let w = work(vec![copy(RETURN, Exp::Id(Y)), Instr::End], Vec::new(), &sh);
    assert!(matches!(error(&w), ExecError::VariableNotFound(Y)));
    let w = work(calling(Vec::new()), Vec::new(), &sh);
    assert!(matches!(error(&w), ExecError::NoFunction(G, _)));
}

#[test]
fn stop_conditions_end_paths() {
    let mut sh = shared();
    sh.functions.insert(G, identity());
    let stopped = |action| {
        let mut conditions = StopConditions::new();
        conditions.add(G, None, action);
        let mut t = task(calling(vec![Exp::I64(9)]));
        t.set_stop_conditions(Arc::new(conditions));
        do_work(&t, Vec::new(), None, &sh, FUEL)
    };
    assert!(matches!(error(&stopped(StopAction::Kill)), ExecError::Stopped(G)));
    let w = stopped(StopAction::Abstract);
    assert!(matches!(value(&w), Val::Poison));
    match &w.solver.trace()[0] {
        Event::Abstract { name, primitive, args, return_value } => {
            assert_eq!((*name, *primitive, args.len()), (G, false, 1));
            assert!(matches!(args[0], Val::I64(9)));
            assert!(matches!(return_value, Val::Poison));
        }
        _ => panic!("no abstract call"),
    }
}

#[test]
fn stop_conditions_look_at_the_callers() {
    let mut conditions = StopConditions::new();
    conditions.add(F, None, StopAction::Abstract);
    conditions.add(G, Some(F), StopAction::Kill);
    let none = Vec::new();
    assert_eq!(conditions.should_stop(F, X, &none), Some(StopAction::Abstract));
    assert_eq!(conditions.should_stop(G, X, &none), None);
    assert_eq!(conditions.should_stop(G, F, &none), Some(StopAction::Kill));
    assert_eq!(conditions.should_stop(G, X, &vec![(Y, 1), (F, 2)]), Some(StopAction::Kill));
    let mut others = StopConditions::new();
    others.add(F, None, StopAction::Kill);
    let both = conditions.union(&others);
    assert_eq!(both.should_stop(F, X, &none), Some(StopAction::Kill));
    assert_eq!(both.should_stop(G, F, &none), Some(StopAction::Kill));
}

#[test]
fn stop_conditions_are_read() {
    let mut sh = shared();
    let symbol = |s: &str, d: Option<&str>| Symbol { spelling: s.to_string(), decoded: d.map(|d| d.to_string()) };
    sh.symtab = vec![symbol("return", None), symbol("zf", Some("f")), symbol("zg", Some("g")), symbol("f", None)];
    let read = |s: &str| StopConditions::parse_condition(s, &sh);
    assert_eq!(read("f"), Some(StopPoint { function: 1, context: None }));
    assert_eq!(read("zg"), Some(StopPoint { function: 2, context: None }));
    assert_eq!(read("f,g"), Some(StopPoint { function: 1, context: Some(2) }));
    assert_eq!(read("h"), None);
    assert_eq!(read("f,h"), None);
    assert_eq!(read("f,g,f"), None);
    let conditions = StopConditions::parse(vec!["f,g".to_string(), "g".to_string()], &sh, StopAction::Kill);
    assert_eq!(conditions.should_stop(1, 2, &Vec::new()), Some(StopAction::Kill));
    assert_eq!(conditions.should_stop(1, 1, &Vec::new()), None);
    assert_eq!(conditions.should_stop(2, 1, &Vec::new()), Some(StopAction::Kill));
}

#[test]
fn what_is_assigned_can_be_read() {
    let sh = shared();
    let mut local = local();
    local.vars.insert(X, UVal::Uninit(Ty::I64));
    local.lets.insert(Y, UVal::Init(Val::I64(1)));
    local.regs.insert_register(R0, UVal::Init(Val::Struct(Fields::Nil.insert(FIELD, Val::I64(2)))));
    let mut solver = solver(Vec::new());
    let set = |loc: &Loc, n: i64, local: &mut LocalState, solver: &mut Solver| {
        assert!(assign(loc, Val::I64(n), local, &sh, solver, INFO).is_ok());
    };
    let in_register = Loc::Field(Box::new(Loc::Id(R0)), FIELD);
    set(&Loc::Id(X), 10, &mut local, &mut solver);
    set(&Loc::Id(Y), 11, &mut local, &mut solver);
    assert_eq!(solver.trace().len(), 0);
    set(&in_register, 12, &mut local, &mut solver);
    let mut get = |exp: Exp| match eval_exp(&exp, &mut local, &sh, &mut solver, INFO) {
        Ok(Val::I64(n)) => n,
        _ => panic!("no number"),
    };
    assert_eq!(get(Exp::Id(X)), 10);
    assert_eq!(get(Exp::Id(Y)), 11);
    assert_eq!(get(Exp::Field(Arc::new(Exp::Id(R0)), FIELD)), 12);
    let trace = solver.trace();
    assert_eq!(trace.len(), 2);
    match &trace[0] {
        Event::WriteReg(R0, accessor, Val::Struct(fields)) => {
            assert_eq!(*accessor, vec![Accessor::Field(FIELD)]);
            assert!(matches!(fields.get(FIELD), Some(Val::I64(12))));
        }
        _ => panic!("no write"),
    }
    match &trace[1] {
        Event::ReadReg(R0, accessor, _) => assert_eq!(*accessor, vec![Accessor::Field(FIELD)]),
        _ => panic!("no read"),
    }
}

#[test]
fn assignments_leave_other_names_alone() {
    let sh = shared();
    let mut local = local();
    local.vars.insert(X, UVal::Init(Val::I64(1)));
    local.vars.insert(Y, UVal::Init(Val::I64(2)));
    local.regs.insert_register(R0, UVal::Init(Val::I64(3)));
    let mut solver = solver(Vec::new());
    assert!(assign(&Loc::Id(X), Val::I64(4), &mut local, &sh, &mut solver, INFO).is_ok());
    assert!(assign(&Loc::Id(R1), Val::I64(5), &mut local, &sh, &mut solver, INFO).is_ok());
    assert!(matches!(local.vars.get(Y), Some(UVal::Init(Val::I64(2)))));
    assert!(matches!(local.regs.get(R0, &mut solver, INFO), Ok(Some(Val::I64(3)))));
    assert!(matches!(local.regs.get(R1, &mut solver, INFO), Ok(Some(Val::I64(5)))));
}

#[test]
fn references_are_assigned_through() {
    let sh = shared();
    let mut local = local();
    local.vars.insert(X, UVal::Init(Val::Ref(R0)));
    let mut solver = solver(Vec::new());
    let place = Loc::Addr(Box::new(Loc::Id(X)));
    assert!(assign(&place, Val::I64(4), &mut local, &sh, &mut solver, INFO).is_ok());
    assert!(matches!(local.regs.get(R0, &mut solver, INFO), Ok(Some(Val::I64(4)))));
    assert!(matches!(local.vars.get(X), Some(UVal::Init(Val::Ref(R0)))));
    local.vars.insert(X, UVal::Init(Val::I64(1)));
    match assign(&place, Val::I64(4), &mut local, &sh, &mut solver, INFO) {
        Err(ExecError::Malformed(m)) => assert_eq!(m, Malformed::NotAReference),
        _ => panic!("assigned through a number"),
    }
    let field = Loc::Field(Box::new(Loc::Id(X)), FIELD);
    match assign(&field, Val::I64(4), &mut local, &sh, &mut solver, INFO) {
        Err(ExecError::Malformed(m)) => assert_eq!(m, Malformed::NotAStruct),
        _ => panic!("assigned to a part of a number"),
    }
    local.vars.insert(X, UVal::Init(Val::Struct(Fields::Nil)));
    match assign(&field, Val::I64(4), &mut local, &sh, &mut solver, INFO) {
        Err(ExecError::Malformed(m)) => assert_eq!(m, Malformed::NoFieldToAssign),
        _ => panic!("assigned to a missing field"),
    }
}

#[test]
fn the_translation_buffer_is_not_recorded() {
    let mut sh = shared();
    sh.symtab = vec![Symbol { spelling: "z_TLB".to_string(), decoded: Some("_TLB".to_string()) }];
    let mut local = local();
    let mut solver = solver(Vec::new());
    assert!(assign(&Loc::Id(0), Val::I64(4), &mut local, &sh, &mut solver, INFO).is_ok());
    assert!(matches!(eval_exp(&Exp::Id(0), &mut local, &sh, &mut solver, INFO), Ok(Val::I64(4))));
    assert_eq!(solver.trace().len(), 0);
}

#[test]
fn expressions_are_evaluated() {
    let mut sh = shared();
    sh.enum_members.insert(MEMBER, EnumInfo { member: 2, size: 3, enum_name: Y });
    let mut local = local();
    local.vars.insert(X, UVal::Init(Val::Ctor(SOME_CTOR, Box::new(Val::I64(5)))));
    let id = EnumId { id: 7 };
    let mut solver = solver(vec![reply(Answer::Enum(id)), reply(Answer::Val(Val::I64(3)))]);
    let mut eval = |exp: Exp| eval_exp(&exp, &mut local, &sh, &mut solver, INFO);
    assert!(matches!(eval(Exp::Unit), Ok(Val::Unit)));
    assert!(matches!(eval(Exp::Ref(R0)), Ok(Val::Ref(R0))));
    assert!(matches!(eval(Exp::I128(1 << 100)), Ok(Val::I128(n)) if n == 1 << 100));
    assert!(matches!(eval(Exp::String("s".to_string())), Ok(Val::String(s)) if s == "s"));
    assert!(matches!(eval(Exp::Bits(B64::new(3, 4))), Ok(v) if is_bits(&v, 3, 4)));
    assert!(matches!(eval(Exp::Id(MEMBER)), Ok(Val::Enum(m)) if m == EnumMember { enum_id: id, member: 2 }));
    let sum = Exp::Call(Op::Add, vec![Exp::I64(1), Exp::I64(2)]);
    assert!(matches!(eval(sum), Ok(Val::I64(3))));
    let unwrap = |ctor| Exp::Unwrap(ctor, Box::new(Exp::Id(X)));
    assert!(matches!(eval(unwrap(SOME_CTOR)), Ok(Val::I64(5))));
    assert!(matches!(eval(unwrap(NONE_CTOR)), Err(ExecError::Type(TypeError::Unwrap(Val::Ctor(SOME_CTOR, _)), _))));
    let kind = |ctor| Exp::Kind(ctor, Box::new(Exp::Id(X)));
    let is_some = eval(kind(SOME_CTOR));
    let is_none = eval(kind(NONE_CTOR));
    assert!(matches!((is_some, is_none), (Ok(Val::Bool(false)), Ok(Val::Bool(true)))));
    assert!(matches!(
        eval(Exp::Kind(SOME_CTOR, Box::new(Exp::I64(1)))),
        Err(ExecError::Type(TypeError::KindCheck(Val::I64(1)), _))
    ));
    assert!(matches!(
        eval(Exp::Field(Arc::new(Exp::I64(1)), FIELD)),
        Err(ExecError::Type(TypeError::NotAStruct { field: FIELD, value: Val::I64(1), .. }, _))
    ));
    let point = Exp::Struct(Y, vec![(FIELD, Exp::I64(6))]);
    assert!(matches!(eval(Exp::Field(Arc::new(point), FIELD)), Ok(Val::I64(6))));
    let missing = eval(Exp::Call(Op::Add, vec![Exp::I64(1)]));
    assert!(matches!(missing, Err(ExecError::Malformed(Malformed::MissingArguments))));
    match &solver.asked()[1].request {
        Request::Op(Op::Add, args) => assert_eq!(args.len(), 2),
        _ => panic!("another request"),
    }
}

#[test]
fn primitives_are_asked_for() {
    let sh = shared();
    let primop = Instr::PrimopBinary(Loc::Id(RETURN), 5, Exp::I64(1), Exp::I64(2), INFO);
    let w = work(vec![primop, Instr::End], vec![reply(Answer::Val(Val::I64(3)))], &sh);
    assert!(matches!(value(&w), Val::I64(3)));
    match &w.solver.asked()[0].request {
        Request::Primop(5, args) => assert_eq!(args.len(), 2),
        _ => panic!("another request"),
    }
    let primop = Instr::PrimopUnary(Loc::Id(RETURN), 5, Exp::I64(1), INFO);
    let w = work(vec![primop, Instr::End], vec![reply(Answer::Error(ExecError::External("broken".to_string())))], &sh);
    assert!(matches!(error(&w), ExecError::External(s) if s == "broken"));
}

#[test]
fn primitives_may_change_the_frame() {
    let sh = shared();
    let mut stepped = frame(Vec::new());
    stepped.vars_mut().insert(RETURN, UVal::Uninit(Ty::I64));
    stepped.vars_mut().insert(X, UVal::Init(Val::I64(8)));
    stepped.set_memory(Memory { image: 17 });
    let program = vec![
        Instr::Init(X, Ty::I64, Exp::I64(1), INFO),
        Instr::PrimopVariadic(Loc::Id(RETURN), 5, vec![Exp::Id(X)], INFO),
        Instr::End,
    ];
    let w = work(program, vec![reply(Answer::Stepped(Val::I64(3), freeze_frame(&stepped)))], &sh);
    assert!(matches!(value(&w), Val::I64(3)));
    match &w.result {
        Some(Ok((_, frame))) => {
            assert!(matches!(frame.vars().get(X), Some(UVal::Init(Val::I64(8)))));
            assert_eq!(frame.memory().image, 17);
        }
        _ => panic!("the path does not end"),
    }
    match &w.solver.asked()[0].request {
        Request::PrimopVariadic(5, _, asked) => {
            let asked = unfreeze_frame(asked);
            assert!(matches!(asked.vars().get(X), Some(UVal::Init(Val::I64(1)))));
        }
        _ => panic!("another request"),
    }
}

fn special(f: Name, args: Vec<Exp>) -> Vec<Instr> {
    vec![Instr::Call(Loc::Id(RETURN), false, f, args, INFO), Instr::End]
}

#[test]
fn constructors_are_applied() {
    let w = work(special(SOME_CTOR, vec![Exp::I64(4)]), Vec::new(), &shared());
    match value(&w) {
        Val::Ctor(SOME_CTOR, v) => assert!(matches!(**v, Val::I64(4))),
        _ => panic!("no constructor"),
    }
}

#[test]
fn vectors_start_poisoned() {
    let sh = shared();
    let vector_of = |len: i64| {
        vec![
            Instr::Decl(X, Ty::Vector(Box::new(Ty::I64)), INFO),
            Instr::Call(Loc::Id(X), false, INTERNAL_VECTOR_INIT, vec![Exp::I64(len)], INFO),
            copy(RETURN, Exp::Id(X)),
            Instr::End,
        ]
    };
    match value(&work(vector_of(3), Vec::new(), &sh)) {
        Val::Vector(vals) => {
            let vals = vals.to_vec();
            assert_eq!(vals.len(), 3);
            assert!(vals.iter().all(|v| matches!(v, Val::Poison)));
        }
        _ => panic!("no vector"),
    }
    let w = work(vector_of(-1), Vec::new(), &sh);
    assert!(matches!(error(&w), ExecError::Malformed(Malformed::NegativeLength)));
    let w = work(special(INTERNAL_VECTOR_INIT, vec![Exp::I64(1)]), Vec::new(), &sh);
    assert!(matches!(error(&w), ExecError::Type(TypeError::VectorInit(Loc::Id(RETURN)), _)));
    let mut stepped = frame(Vec::new());
    stepped.set_memory(Memory { image: 3 });
    let updated = Answer::Stepped(Val::Vector(Vals::from_vec(vec![Val::I64(1)])), freeze_frame(&stepped));
    let args = vec![Exp::Unit, Exp::I64(0), Exp::I64(1)];
    let w = work(special(INTERNAL_VECTOR_UPDATE, args), vec![reply(updated)], &sh);
    match value(&w) {
        Val::Vector(vals) => assert!(matches!(vals.to_vec()[0], Val::I64(1))),
        _ => panic!("no vector"),
    }
}

#[test]
fn values_are_chosen_by_their_conditions() {
    let sh = shared();
    let known = vec![Exp::Bool(false), Exp::I64(1), Exp::Bool(true), Exp::I64(2)];
    assert!(matches!(value(&work(special(ITE_PHI, known), Vec::new(), &sh)), Val::I64(2)));
    let program = vec![
        Instr::Decl(X, Ty::Bool, INFO),
        Instr::Call(
            Loc::Id(RETURN),
            false,
            ITE_PHI,
            vec![Exp::Bool(false), Exp::I64(1), Exp::Id(X), Exp::I64(2)],
            INFO,
        ),
        Instr::End,
    ];
    let w = work(program, vec![fresh(0), reply(Answer::Val(Val::I64(2)))], &sh);
    assert!(matches!(value(&w), Val::I64(2)));
    match &w.solver.asked()[1].request {
        Request::ItePhi(choices) => {
            assert_eq!(choices.len(), 1);
            assert!(matches!(choices[0], (0, Val::I64(2))));
        }
        _ => panic!("another request"),
    }
    let w = work(special(ITE_PHI, vec![Exp::Bool(false), Exp::I64(1)]), Vec::new(), &sh);
    assert!(matches!(error(&w), ExecError::Malformed(Malformed::NothingToChoose)));
}

#[test]
fn registers_are_read_through_references() {
    let sh = shared();
    let mut f = frame(special(REG_DEREF, vec![Exp::Ref(R0)]));
    f.regs_mut().insert_register(R0, UVal::Init(Val::I64(6)));
    let w = do_work(&f.task(0, Arc::new(TaskState::new())), Vec::new(), None, &sh, FUEL);
    assert!(matches!(value(&w), Val::I64(6)));
    assert!(matches!(w.solver.trace()[0], Event::ReadReg(R0, _, Val::I64(6))));
    let w = work(special(REG_DEREF, vec![Exp::Ref(R0)]), Vec::new(), &sh);
    assert!(matches!(error(&w), ExecError::Type(TypeError::RegDeref(R0), _)));
    let w = work(special(REG_DEREF, vec![Exp::I64(1)]), Vec::new(), &sh);
    assert!(matches!(error(&w), ExecError::Type(TypeError::RegDerefNotRegister(_), _)));
}

#[test]
fn abstract_calls_have_unknown_results() {
    let mut sh = shared();
    sh.functions.insert(G, identity());
    let w = work(special(ABSTRACT_CALL, vec![Exp::I64(1), Exp::Ref(G)]), vec![fresh(0)], &sh);
    assert!(matches!(value(&w), Val::Symbolic(0)));
    match &w.solver.trace()[1] {
        Event::Abstract { name: G, primitive: false, args, .. } => assert_eq!(args.len(), 1),
        _ => panic!("no abstract call"),
    }
    let w = work(special(ABSTRACT_CALL, vec![Exp::Ref(Y)]), Vec::new(), &sh);
    assert!(matches!(error(&w), ExecError::Malformed(Malformed::NoAbstractFunction)));
}

/// A frame with a vector of two registers.
fn register_file(f: Name, args: Vec<Exp>) -> Task {
    let mut frame = frame(special(f, args));
    frame.vars_mut().insert(X, UVal::Init(Val::Vector(Vals::from_vec(vec![Val::Ref(R0), Val::Ref(R1)]))));
    frame.regs_mut().insert_register(R0, UVal::Init(Val::I64(10)));
    frame.regs_mut().insert_register(R1, UVal::Init(Val::I64(11)));
    frame.task(0, Arc::new(TaskState::new()))
}

#[test]
fn register_files_are_read() {
    let sh = shared();
    let read = |n: Exp, replies: Vec<Reply>| {
        let t = register_file(READ_REGISTER_FROM_VECTOR, vec![n, Exp::Id(X)]);
        do_work(&t, replies, None, &sh, FUEL)
    };
    assert!(matches!(value(&read(Exp::I64(1), Vec::new())), Val::I64(11)));
    assert!(matches!(value(&read(Exp::Bits(B64::new(0, 1)), Vec::new())), Val::I64(10)));
    let w = read(Exp::I64(2), Vec::new());
    assert!(matches!(error(&w), ExecError::Malformed(Malformed::IndexOutOfRange)));
    let w = read(Exp::I64(-1), Vec::new());
    assert!(matches!(error(&w), ExecError::Type(TypeError::ReadVectorIndex, _)));
    let w = read(Exp::Unit, Vec::new());
    assert!(matches!(error(&w), ExecError::Type(TypeError::ReadVectorIndexType, _)));
}

#[test]
fn register_files_are_written() {
    let sh = shared();
    let t = register_file(WRITE_REGISTER_FROM_VECTOR, vec![Exp::I64(1), Exp::I64(5), Exp::Id(X)]);
    let mut w = do_work(&t, Vec::new(), None, &sh, FUEL);
    assert!(matches!(value(&w), Val::Unit));
    match w.result.take() {
        Some(Ok((_, mut frame))) => {
            let mut s = solver(Vec::new());
            assert!(matches!(frame.regs_mut().get(R0, &mut s, INFO), Ok(Some(Val::I64(10)))));
            assert!(matches!(frame.regs_mut().get(R1, &mut s, INFO), Ok(Some(Val::I64(5)))));
        }
        _ => panic!("the path does not end"),
    }
}

#[test]
fn indices_have_as_many_bits_as_they_need() {
    let expected = [(0, 1), (1, 1), (2, 1), (3, 2), (4, 2), (5, 3), (31, 5), (32, 5), (33, 6)];
    for (n, bits) in expected {
        assert_eq!(required_index_bits(n), bits);
    }
    let mut s = Solver::resume(1, Vec::new(), Vec::new());
    assert!(matches!(fix_index_length(0, 5, 5, &mut s, INFO), Ok(0)));
    assert_eq!(s.trace().len(), 0);
    assert!(matches!(fix_index_length(0, 8, 5, &mut s, INFO), Ok(1)));
    assert!(matches!(fix_index_length(0, 3, 5, &mut s, INFO), Ok(2)));
    let trace = s.trace();
    assert!(matches!(trace[0], Event::Smt(Def::DefineConst(1, smtlib::Exp::Extract(4, 0, _)), _, _)));
    assert!(matches!(trace[1], Event::Smt(Def::DefineConst(2, smtlib::Exp::ZeroExtend(2, _)), _, _)));
}

#[test]
fn instructions_are_counted() {
    let sh = shared();
    let announced = |times: usize, limit: usize| {
        let mut program = Vec::new();
        for _ in 0..times {
            let args = vec![Exp::Bits(B64::new(3, 32))];
            program.push(Instr::Call(Loc::Id(Y), false, INSTR_ANNOUNCE, args, INFO));
        }
        program.push(copy(RETURN, Exp::I64(1)));
        program.push(Instr::End);
        let mut f = frame(program);
        f.vars_mut().insert(Y, UVal::Uninit(Ty::Unit));
        f.regs_mut().insert_register(PC, UVal::Init(bits(0x8000, 64)));
        let state = TaskState::new().with_pc_limit(PC, limit);
        do_work(&f.task(0, Arc::new(state)), Vec::new(), None, &sh, FUEL)
    };
    let w = announced(2, 2);
    assert!(matches!(value(&w), Val::I64(1)));
    assert!(w.solver.trace().iter().all(|e| matches!(e, Event::Instr(v) if is_bits(v, 3, 32))));
    assert_eq!(w.solver.trace().len(), 2);
    let w = announced(3, 2);
    assert!(matches!(error(&w), ExecError::PCLimitReached(0x8000)));
    assert_eq!(w.solver.trace().len(), 2);
}

#[test]
fn registers_are_reset() {
    let mut sh = shared();
    sh.reset_registers.insert(Loc::Id(R0), 9);
    sh.reset_registers.insert(Loc::Id(R1), 2);
    sh.reset_registers.insert(Loc::Id(R0), 1);
    assert_eq!(sh.reset_registers.list().len(), 2);
    let mut f = frame(vec![
        Instr::Decl(Y, Ty::Unit, INFO),
        Instr::Call(Loc::Id(Y), false, RESET_REGISTERS, Vec::new(), INFO),
        copy(RETURN, Exp::Id(R1)),
        Instr::End,
    ]);
    f.regs_mut().insert_register(R0, UVal::Uninit(Ty::I64));
    f.regs_mut().insert_register(R1, UVal::Uninit(Ty::I64));
    let mut own = Resets::new();
    own.insert(Loc::Id(R1), 3);
    let state = TaskState::new().with_reset_registers(own);
    let replies = vec![reply(Answer::Val(Val::I64(10))), reply(Answer::Val(Val::I64(11)))];
    let w = do_work(&f.task(0, Arc::new(state)), replies, None, &sh, FUEL);
    assert!(matches!(value(&w), Val::I64(11)));
    let asked = w.solver.asked();
    assert_eq!(asked.len(), 2);
    assert!(matches!(asked[0].request, Request::Reset(1, _)));
    assert!(matches!(asked[1].request, Request::Reset(3, _)));
}

#[test]
fn assumed_results_replace_calls() {
    let mut sh = shared();
    sh.functions.insert(G, identity());
    sh.function_assumptions =
        vec![FunctionAssumption { function: G, args: vec![None], result: smtlib::Exp::Bits64(B64::new(1, 8)) }];
    let f = frame(vec![
        Instr::Decl(Y, Ty::Unit, INFO),
        Instr::Call(Loc::Id(Y), false, RESET_REGISTERS, Vec::new(), INFO),
        Instr::Call(Loc::Id(RETURN), false, G, vec![Exp::I64(4)], INFO),
        Instr::End,
    ]);
    let replies = vec![reply(Answer::Val(Val::Bool(true)))];
    let w = do_work(&f.task(0, Arc::new(TaskState::new())), replies, None, &sh, FUEL);
    assert!(is_bits(value(&w), 1, 8));
    let trace = w.solver.trace();
    assert!(trace.iter().any(|e| matches!(e, Event::AssumeFun { name: G, .. })));
    assert!(matches!(trace.last(), Some(Event::UseFunAssumption { name: G, .. })));
    let replies = vec![reply(Answer::Val(Val::Bool(false)))];
    let w = do_work(&f.task(0, Arc::new(TaskState::new())), replies, None, &sh, FUEL);
    assert!(matches!(value(&w), Val::I64(4)));
}

#[test]
fn constants_become_values() {
    let mut s = solver(Vec::new());
    assert!(matches!(smt_exp_to_value(smtlib::Exp::Bool(true), &mut s), Ok(Val::Bool(true))));
    assert!(matches!(smt_exp_to_value(smtlib::Exp::Var(3), &mut s), Ok(Val::Symbolic(3))));
    let constant = smtlib::Exp::Bits64(B64::new(9, 16));
    assert!(matches!(smt_exp_to_value(constant, &mut s), Ok(v) if is_bits(&v, 9, 16)));
    assert_eq!(s.trace().len(), 0);
    let not = smtlib::Exp::Not(Box::new(smtlib::Exp::Var(3)));
    assert!(matches!(smt_exp_to_value(not, &mut s), Ok(Val::Symbolic(0))));
    assert!(matches!(s.trace()[0], Event::Smt(Def::DefineConst(0, _), _, SourceLoc::CommandLine)));
}

#[test]
fn symbols_can_run_out() {
    let mut s = Solver::resume(u32::MAX, Vec::new(), vec![fresh(0)]);
    assert!(matches!(s.declare_const(smtlib::Ty::Bool, INFO), Err(ExecError::SymbolsExhausted)));
    assert!(matches!(s.define_const(smtlib::Exp::Bool(true), INFO), Err(ExecError::SymbolsExhausted)));
    assert!(matches!(s.ask(Request::CheckSat, INFO), Err(ExecError::SymbolsExhausted)));
}

#[test]
fn checkpoints_bring_back_the_solver() {
    let mut s = solver(Vec::new());
    assert!(s.declare_const(smtlib::Ty::Bool, INFO).is_ok());
    let point = checkpoint(&s);
    s.assert_exp(smtlib::Exp::Var(0));
    let resumed = point.resume(Vec::new());
    assert_eq!(resumed.next_sym(), 1);
    assert_eq!(resumed.trace().len(), 1);
    assert_eq!(s.trace().len(), 2);
    assert_eq!(Checkpoint::new().resume(Vec::new()).trace().len(), 0);
}

#[test]
fn snapshots_do_not_change() {
    let mut f = frame(vec![Instr::End]);
    f.vars_mut().insert(X, UVal::Init(Val::I64(1)));
    let snapshot = freeze_frame(&f);
    f.vars_mut().insert(X, UVal::Init(Val::I64(2)));
    f.set_memory(Memory { image: 4 });
    let back = unfreeze_frame(&snapshot);
    assert!(matches!(back.vars().get(X), Some(UVal::Init(Val::I64(1)))));
    assert!(matches!(f.vars().get(X), Some(UVal::Init(Val::I64(2)))));
    assert_eq!((back.memory().image, f.memory().image), (0, 4));
}

#[test]
fn new_calls_keep_registers_and_memory() {
    let mut f = frame(vec![Instr::End]);
    f.vars_mut().insert(X, UVal::Init(Val::I64(1)));
    f.regs_mut().insert_register(R0, UVal::Init(Val::I64(2)));
    f.lets_mut().insert(Y, UVal::Init(Val::I64(3)));
    f.set_memory(Memory { image: 4 });
    let params = vec![(R1, Ty::I64)];
    let mut called = f.new_call(G, &params, &Ty::Bool, Some(&vec![Val::I64(5)]), Arc::new(vec![Instr::End]));
    assert!(called.vars().get(X).is_none());
    assert!(matches!(called.vars().get(R1), Some(UVal::Init(Val::I64(5)))));
    assert!(matches!(called.vars().get(RETURN), Some(UVal::Uninit(Ty::Bool))));
    assert!(matches!(called.lets().get(Y), Some(UVal::Init(Val::I64(3)))));
    assert_eq!(called.memory().image, 4);
    let mut s = solver(Vec::new());
    assert!(matches!(called.regs_mut().get(R0, &mut s, INFO), Ok(Some(Val::I64(2)))));
}

#[test]
fn frames_take_over_bindings() {
    let mut f = frame(vec![Instr::End]);
    f.lets_mut().insert(X, UVal::Init(Val::I64(1)));
    f.regs_mut().insert_register(R0, UVal::Init(Val::I64(2)));
    let mut lets = NameMap::new();
    lets.insert(X, UVal::Init(Val::I64(3)));
    lets.insert(Y, UVal::Init(Val::I64(4)));
    let mut regs = RegisterBindings::new();
    regs.insert_register(R1, UVal::Init(Val::I64(5)));
    f.add_lets(&lets).add_regs(&regs);
    f.memory_mut().image = 9;
    assert!(matches!(f.lets().get(X), Some(UVal::Init(Val::I64(3)))));
    assert!(matches!(f.lets().get(Y), Some(UVal::Init(Val::I64(4)))));
    let mut s = solver(Vec::new());
    assert!(matches!(f.regs_mut().get(R0, &mut s, INFO), Ok(Some(Val::I64(2)))));
    assert!(matches!(f.regs_mut().get(R1, &mut s, INFO), Ok(Some(Val::I64(5)))));
    assert_eq!(f.memory().image, 9);
}

#[test]
fn exceptions_are_found() {
    let mut f = frame(vec![Instr::End]);
    assert!(f.get_exception().is_none());
    f.lets_mut().insert(HAVE_EXCEPTION, UVal::Init(Val::Bool(true)));
    f.lets_mut().insert(CURRENT_EXCEPTION, UVal::Init(Val::I64(3)));
    f.lets_mut().insert(THROW_LOCATION, UVal::Init(Val::String("here".to_string())));
    match f.get_exception() {
        Some((v, place)) => {
            assert!(matches!(v, Val::I64(3)));
            assert_eq!(place, "here");
        }
        None => panic!("no exception"),
    }
    f.lets_mut().insert(HAVE_EXCEPTION, UVal::Init(Val::Bool(false)));
    assert!(f.get_exception().is_none());
}

#[test]
fn type_errors_have_words() {
    assert_eq!(TypeError::JumpOnNonBoolean(Val::Unit).message(), "Jump on non boolean");
    assert_eq!(TypeError::KindCheck(Val::Unit).text("", "", "Unit"), "Kind check on non-constructor Unit");
    assert_eq!(TypeError::ItePhi.text("", "", ""), "ite_phi");
    let field = TypeError::NotAStruct { field: FIELD, exp: Arc::new(Exp::Id(X)), value: Val::I64(1) };
    assert_eq!(
        field.text("zf", "Id(x)", "1"),
        "When accessing field zf struct expression Id(x) did not evaluate to a struct, instead 1"
    );
    assert_eq!(TypeError::Monomorphize(3).message(), "_monomorphize");
}

fn finished(v: Val) -> RunResult {
    Ok((v, frame(Vec::new())))
}

fn failed(e: ExecError) -> RunResult {
    Err((e, Vec::new()))
}

#[test]
fn functions_that_are_always_true() {
    let collected = |result: RunResult, replies: Vec<Reply>| {
        let mut collected = true;
        let r = all_unsat_collector(&result, &mut solver(replies), &mut collected);
        (r.is_ok(), collected)
    };
    assert_eq!(collected(finished(Val::Bool(true)), Vec::new()), (true, true));
    assert_eq!(collected(finished(Val::Bool(false)), Vec::new()), (true, false));
    assert_eq!(collected(finished(Val::Symbolic(0)), vec![unsat()]), (true, true));
    assert_eq!(collected(finished(Val::Symbolic(0)), vec![sat()]), (true, false));
    assert_eq!(collected(finished(Val::Symbolic(0)), Vec::new()), (false, true));
    assert_eq!(collected(failed(ExecError::Dead), Vec::new()), (true, true));
    assert_eq!(collected(failed(ExecError::Exit), Vec::new()), (true, false));
    let mut still = false;
    assert!(all_unsat_collector(&finished(Val::Bool(true)), &mut solver(Vec::new()), &mut still).is_ok());
    assert!(!still);
}

#[test]
fn traces_are_collected_in_order() {
    let mut queue = TraceQueue::new();
    assert!(queue.pop().is_none());
    let mut s = solver(Vec::new());
    s.add_event(Event::External(5));
    assert!(trace_collector(1, finished(Val::Unit), &mut s, &mut queue).is_ok());
    assert!(trace_collector(2, failed(ExecError::Exit), &mut s, &mut queue).is_ok());
    assert!(trace_collector(3, failed(ExecError::Dead), &mut s, &mut queue).is_ok());
    let mut s = solver(vec![sat(), reply(Answer::Text("x = 1".to_string()))]);
    assert!(trace_collector(4, failed(ExecError::Timeout), &mut s, &mut queue).is_ok());
    let mut s = solver(vec![unsat()]);
    assert!(trace_collector(5, failed(ExecError::Timeout), &mut s, &mut queue).is_ok());
    assert!(matches!(
        trace_collector(6, failed(ExecError::Timeout), &mut solver(Vec::new()), &mut queue),
        Err(ExecError::Pending)
    ));
    for id in 1..3 {
        match queue.pop() {
            Some(Collected::Trace { task_id, events }) => {
                assert_eq!(task_id, id);
                assert!(matches!(events[0], Event::External(5)));
            }
            _ => panic!("no trace"),
        }
    }
    match queue.pop() {
        Some(Collected::Error(TraceError::Exec { err: ExecError::Timeout, model: Some(model) })) => {
            assert_eq!(model, "x = 1");
        }
        _ => panic!("no error with a model"),
    }
    assert!(matches!(queue.pop(), Some(Collected::Error(TraceError::Exec { model: None, .. }))));
    assert!(queue.pop().is_none());
}

#[test]
fn values_are_collected() {
    let mut queue = TraceQueue::new();
    let mut s = solver(vec![unsat()]);
    assert!(trace_value_collector(1, finished(Val::I64(6)), &mut s, &mut queue).is_ok());
    assert!(trace_value_collector(2, failed(ExecError::Dead), &mut s, &mut queue).is_ok());
    assert!(trace_value_collector(3, failed(ExecError::Exit), &mut s, &mut queue).is_ok());
    assert!(matches!(queue.pop(), Some(Collected::TraceValue { task_id: 1, value: Val::I64(6), .. })));
    assert!(matches!(queue.pop(), Some(Collected::Error(TraceError::Exec { err: ExecError::Exit, .. }))));
    assert!(queue.pop().is_none());
}

#[test]
fn booleans_are_collected() {
    let mut queue = TraceQueue::new();
    let s = solver(Vec::new());
    trace_result_collector(1, finished(Val::Bool(false)), &s, &mut queue);
    trace_result_collector(2, finished(Val::Unit), &s, &mut queue);
    trace_result_collector(3, failed(ExecError::Dead), &s, &mut queue);
    trace_result_collector(4, failed(ExecError::Exit), &s, &mut queue);
    assert!(matches!(queue.pop(), Some(Collected::TraceResult { task_id: 1, result: false, .. })));
    assert!(matches!(queue.pop(), Some(Collected::Error(TraceError::UnexpectedValue(Val::Unit)))));
    assert!(matches!(queue.pop(), Some(Collected::Error(TraceError::Exec { err: ExecError::Exit, model: None }))));
    assert!(queue.pop().is_none());
}

#[test]
fn footprints_are_collected() {
    let mut queue = TraceQueue::new();
    let s = solver(Vec::new());
    footprint_collector(1, finished(Val::Bool(true)), &s, &mut queue);
    footprint_collector(2, finished(Val::Bool(false)), &s, &mut queue);
    footprint_collector(2, finished(Val::Unit), &s, &mut queue);
    footprint_collector(3, finished(Val::I64(1)), &s, &mut queue);
    footprint_collector(4, failed(ExecError::Dead), &s, &mut queue);
    footprint_collector(5, failed(ExecError::MatchFailure(SourceLoc::CommandLine)), &s, &mut queue);
    assert!(matches!(queue.pop(), Some(Collected::Trace { task_id: 1, .. })));
    assert!(matches!(queue.pop(), Some(Collected::Error(TraceError::UnexpectedValue(Val::I64(1))))));
    match queue.pop() {
        Some(Collected::Error(e)) => assert_eq!(e.source_loc(), SourceLoc::CommandLine),
        _ => panic!("no error"),
    }
    assert!(queue.pop().is_none());
}

#[test]
fn threads_end_when_all_are_idle_twice() {
    let mut orchestrator = Orchestrator::new(2);
    let poked = |o: &mut Orchestrator| match o.decide() {
        Decision::Poke(tids) => Some(tids),
        Decision::Kill => None,
    };
    assert_eq!(poked(&mut orchestrator), Some(Vec::new()));
    orchestrator.receive(Activity::Idle(1));
    assert_eq!(poked(&mut orchestrator), Some(vec![1]));
    orchestrator.receive(Activity::Idle(0));
    orchestrator.receive(Activity::Idle(1));
    assert_eq!(poked(&mut orchestrator), Some(vec![0, 1]));
    orchestrator.receive(Activity::Busy(0));
    orchestrator.receive(Activity::Idle(1));
    assert_eq!(poked(&mut orchestrator), Some(vec![1]));
    orchestrator.receive(Activity::Idle(0));
    orchestrator.receive(Activity::Idle(0));
    orchestrator.receive(Activity::Idle(1));
    assert_eq!(poked(&mut orchestrator), None);
}

#[test]
fn threads_say_what_they_do() {
    let mut thread = ThreadState::new(3);
    assert_eq!(thread.phase(), Phase::Looking);
    assert_eq!(thread.on(ThreadEvent::Found), Some(Activity::Busy(3)));
    assert_eq!(thread.phase(), Phase::Working);
    assert_eq!(thread.on(ThreadEvent::Found), None);
    assert_eq!(thread.on(ThreadEvent::NothingFound), Some(Activity::Idle(3)));
    assert_eq!(thread.phase(), Phase::Waiting);
    assert_eq!(thread.on(ThreadEvent::Poked), None);
    assert_eq!(thread.on(ThreadEvent::NothingFound), Some(Activity::Idle(3)));
    assert_eq!(thread.on(ThreadEvent::Killed), None);
    assert_eq!(thread.phase(), Phase::Ended);
    assert_eq!(thread.on(ThreadEvent::Poked), None);
    assert_eq!(thread.phase(), Phase::Ended);
}

#[test]
fn trace_errors_have_words() {
    assert_eq!(TraceError::UnexpectedValue(Val::Unit).text("unit"), "Unexpected value unit");
    assert_eq!(TraceError::exec(ExecError::Timeout).text("timeout"), "timeout");
    let with_model = TraceError::Exec { err: ExecError::Timeout, model: Some("x = 1".to_string()) };
    assert_eq!(with_model.text("timeout"), "timeout\nModel: x = 1");
}

#[test]
fn variables_are_initialised_once() {
    let program = vec![
        Instr::Decl(X, Ty::I64, INFO),
        copy(RETURN, Exp::Id(X)),
        Instr::Init(Y, Ty::I64, Exp::Id(X), INFO),
        Instr::End,
    ];
    let w = work(program, vec![fresh(0)], &shared());
    assert!(matches!(value(&w), Val::Symbolic(0)));
    assert_eq!(w.solver.asked().len(), 1);
    let assigned = vec![
        Instr::Decl(X, Ty::I64, INFO),
        copy(X, Exp::I64(3)),
        copy(RETURN, Exp::Id(X)),
        Instr::End,
    ];
    let w = work(assigned, Vec::new(), &shared());
    assert!(matches!(value(&w), Val::I64(3)));
    assert_eq!(w.solver.asked().len(), 0);
}

#[test]
fn accessors_of_failed_assignments() {
    let sh = shared();
    let mut local = local();
    local.vars.insert(X, UVal::Init(Val::Struct(Fields::Nil)));
    let mut s = solver(Vec::new());
    let mut assign_to = |loc: Loc| {
        let mut accessor = Vec::new();
        let r = assign_with_accessor(&loc, Val::I64(1), &mut local, &sh, &mut s, &mut accessor, INFO);
        assert!(r.is_err());
        accessor
    };
    let field = || Loc::Field(Box::new(Loc::Id(X)), FIELD);
    assert_eq!(assign_to(field()), vec![Accessor::Field(FIELD)]);
    assert_eq!(assign_to(Loc::Field(Box::new(field()), FIELD)), Vec::new());
    assert_eq!(assign_to(Loc::Addr(Box::new(field()))), vec![Accessor::Field(FIELD)]);
}

#[test]
fn symbols_are_decoded() {
    let mut sh = shared();
    let symbol = |s: &str, d: Option<&str>| Symbol { spelling: s.to_string(), decoded: d.map(|d| d.to_string()) };
    sh.symtab = vec![symbol("zf", Some("f")), symbol("return", None)];
    assert_eq!(sh.decoded_name(0), "f");
    assert_eq!(sh.decoded_name(1), "return");
    assert_eq!(sh.decoded_name(2), "");
}
