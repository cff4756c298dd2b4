//! The order in which page tables are set up.
//!
//! The tables, the memory and the solver are elsewhere. A setup is a state
//! that says what is to be done next, and is told what has come of it.

use super::address::{self, ModelValue};
use super::setup::{
    self, needed_walk, physical_address, EvalError, EvalErrorView, MapOp, PageTableSetup,
    PageTableSetupView, SelfMapping, Stage, TablePlan, TablePlanView, Val, Walk,
};
use super::IsaConfig;
use crate::executor::solver::SmtResult;
use std::collections::HashMap;
use vstd::prelude::*;

verus! {

broadcast use vstd::std_specs::hash::group_hash_axioms;

/// How far a setup has come.
pub enum SetupState {
    /// The tables of both stages are being created.
    Creating(PageTableSetup),
    MappingCode(PageTableSetup),
    /// The solver looks for the addresses of the plan.
    FindingAddresses(PageTableSetup),
    MappingTables(TablePlan),
    /// The tables are mapped into themselves. What the constraints say of the
    /// initial contents of memory is kept for later.
    MappingThemselves { progress: SelfMapping, initials: Vec<(Val, Val)> },
    /// The tables of a stage become a region of memory.
    AddingRegion { stage: Stage, initials: Vec<(Val, Val)> },
    /// The physical address of initial contents is looked up.
    Walking { initials: Vec<(Val, Val)>, i: usize, contents: HashMap<u64, u64> },
    Ended,
}

/// What is to be done.
pub enum SetupAction {
    /// Create tables for both stages, with a top level table each.
    CreateTables,
    /// Carry out the operations. All of them have to succeed.
    MapCode(Vec<MapOp>),
    /// Look for the addresses of the plan.
    FindAddresses,
    /// Carry out the operations up to the first that fails.
    MapTables(Vec<MapOp>),
    /// Carry out the operations, whatever comes of each of them, and find out
    /// where the tables end then.
    MapThemselves(Vec<MapOp>),
    /// Make the tables of a stage a region of memory.
    AddRegion(Stage),
    /// Follow the tables from an address.
    Follow(Walk),
    /// The setup is complete, with these initial contents of memory.
    Finish(HashMap<u64, u64>),
    /// The setup fails.
    Fail(EvalError),
}

/// What has come of an action.
pub enum SetupEvent {
    TablesCreated,
    /// How many of the operations have succeeded before one failed.
    Mapped(usize),
    /// The verdict of the solver, and what its model says of the variables of
    /// the plan.
    Found(SmtResult, Vec<ModelValue>),
    /// Where the tables of the stages end.
    Ends { s1_end: u64, s2_end: u64 },
    RegionAdded,
    /// The physical address, or why it could not be found.
    Followed(Result<u64, String>),
}

pub enum SetupStateView {
    Creating(PageTableSetupView),
    MappingCode(PageTableSetupView),
    FindingAddresses(PageTableSetupView),
    MappingTables(TablePlanView),
    MappingThemselves { progress: SelfMapping, initials: Seq<(Val, Val)> },
    AddingRegion { stage: Stage, initials: Seq<(Val, Val)> },
    Walking { initials: Seq<(Val, Val)>, i: int, contents: Map<u64, u64> },
    Ended,
}

impl View for SetupState {
    type V = SetupStateView;

    open spec fn view(&self) -> SetupStateView {
        match self {
            SetupState::Creating(setup) => SetupStateView::Creating(setup@),
            SetupState::MappingCode(setup) => SetupStateView::MappingCode(setup@),
            SetupState::FindingAddresses(setup) => SetupStateView::FindingAddresses(
                setup@,
            ),
            SetupState::MappingTables(plan) => SetupStateView::MappingTables(plan@),
            SetupState::MappingThemselves { progress, initials } =>
                SetupStateView::MappingThemselves { progress: *progress, initials: initials@ },
            SetupState::AddingRegion { stage, initials } => SetupStateView::AddingRegion {
                stage: *stage,
                initials: initials@,
            },
            SetupState::Walking { initials, i, contents } => SetupStateView::Walking {
                initials: initials@,
                i: *i as int,
                contents: contents@,
            },
            SetupState::Ended => SetupStateView::Ended,
        }
    }
}

pub enum SetupActionView {
    CreateTables,
    MapCode(Seq<MapOp>),
    FindAddresses,
    MapTables(Seq<MapOp>),
    MapThemselves(Seq<MapOp>),
    AddRegion(Stage),
    Follow(Walk),
    Finish(Map<u64, u64>),
    Fail(EvalErrorView),
}

impl View for SetupAction {
    type V = SetupActionView;

    open spec fn view(&self) -> SetupActionView {
        match self {
            SetupAction::CreateTables => SetupActionView::CreateTables,
            SetupAction::MapCode(ops) => SetupActionView::MapCode(ops@),
            SetupAction::FindAddresses => SetupActionView::FindAddresses,
            SetupAction::MapTables(ops) => SetupActionView::MapTables(ops@),
            SetupAction::MapThemselves(ops) => SetupActionView::MapThemselves(ops@),
            SetupAction::AddRegion(stage) => SetupActionView::AddRegion(*stage),
            SetupAction::Follow(walk) => SetupActionView::Follow(*walk),
            SetupAction::Finish(contents) => SetupActionView::Finish(contents@),
            SetupAction::Fail(e) => SetupActionView::Fail(e@),
        }
    }
}

pub open spec fn failed(e: EvalErrorView) -> (SetupStateView, SetupActionView) {
    (SetupStateView::Ended, SetupActionView::Fail(e))
}

/// Goes on with the initial contents from position `i` on, up to the next
/// address whose physical address has to be looked up.
pub open spec fn lookup(initials: Seq<(Val, Val)>, i: int, contents: Map<u64, u64>) -> (
    SetupStateView,
    SetupActionView,
)
    decreases initials.len() - i,
{
    if 0 <= i < initials.len() {
        match setup::walk_of(initials[i].0) {
            Some(walk) => (
                SetupStateView::Walking { initials, i, contents },
                SetupActionView::Follow(walk),
            ),
            None => match setup::physical(initials[i].0, Ok(0)) {
                Err(e) => failed(e),
                Ok(pa) => match setup::number(initials[i].1) {
                    Err(e) => failed(e),
                    Ok(n) => lookup(initials, i + 1, contents.insert(pa, n)),
                },
            },
        }
    } else {
        (SetupStateView::Ended, SetupActionView::Finish(contents))
    }
}

/// Takes up the physical address of the contents at position `i`, and goes
/// on.
pub open spec fn followed(
    initials: Seq<(Val, Val)>,
    i: int,
    contents: Map<u64, u64>,
    walk: Result<u64, String>,
) -> (SetupStateView, SetupActionView) {
    match setup::physical(initials[i].0, walk) {
        Err(e) => failed(e),
        Ok(pa) => match setup::number(initials[i].1) {
            Err(e) => failed(e),
            Ok(n) => lookup(initials, i + 1, contents.insert(pa, n)),
        },
    }
}

/// Whether an event can come of the action that a state has asked for. The
/// code of the threads is always mapped, and no table goes on behind the last
/// address.
pub open spec fn fits(state: SetupStateView, event: SetupEvent, config: IsaConfig) -> bool {
    match (state, event) {
        (SetupStateView::Creating(_), SetupEvent::TablesCreated) => true,
        (SetupStateView::MappingCode(setup), SetupEvent::Mapped(n)) => n >= setup.code_ops.len(),
        (SetupStateView::FindingAddresses(setup), SetupEvent::Found(verdict, values)) => verdict
            == SmtResult::Sat ==> values@.len() >= setup.addresses.vars.len(),
        (SetupStateView::MappingTables(_), SetupEvent::Mapped(_)) => true,
        (
            SetupStateView::MappingThemselves { progress, .. },
            SetupEvent::Ends { s1_end, s2_end },
        ) => match progress {
            SelfMapping::StageTwo(page) => page < s2_end ==> page + config.s2_page_size <= u64::MAX,
            SelfMapping::StageOne(page) => page < s1_end ==> page + config.page_size <= u64::MAX,
            SelfMapping::Done => true,
        },
        (SetupStateView::AddingRegion { .. }, SetupEvent::RegionAdded) => true,
        (SetupStateView::Walking { initials, i, .. }, SetupEvent::Followed(_)) => 0 <= i
            < initials.len(),
        _ => false,
    }
}

/// How a setup goes on. The steps are: tables are created, the code is mapped,
/// addresses are found, the constraints are carried out, the tables are mapped
/// into themselves, the tables of the first and of the second stage become
/// regions, and the initial contents are looked up.
pub open spec fn next_step(
    state: SetupStateView,
    event: SetupEvent,
    constraints: Seq<setup::Constraint>,
    config: IsaConfig,
) -> (SetupStateView, SetupActionView) {
    match (state, event) {
        (SetupStateView::Creating(prepared), _) => (
            SetupStateView::MappingCode(prepared),
            SetupActionView::MapCode(prepared.code_ops),
        ),
        (SetupStateView::MappingCode(prepared), _) => (
            SetupStateView::FindingAddresses(prepared),
            SetupActionView::FindAddresses,
        ),
        (SetupStateView::FindingAddresses(prepared), SetupEvent::Found(verdict, values)) =>
            match address::found_addresses(prepared.addresses, verdict, values@, prepared.vars) {
                Err(e) => failed(e),
                Ok(vars) => {
                    let plan = setup::table_plan(constraints, vars, 0, seq![], seq![]);
                    (SetupStateView::MappingTables(plan), SetupActionView::MapTables(plan.ops))
                },
            },
        (SetupStateView::MappingTables(plan), SetupEvent::Mapped(succeeded)) => if succeeded
            < plan.ops.len() {
            failed(EvalErrorView::MappingFailure)
        } else {
            match plan.end {
                Err(e) => failed(e),
                Ok(initials) => (
                    SetupStateView::MappingThemselves {
                        progress: SelfMapping::StageTwo(config.s2_page_table_base),
                        initials,
                    },
                    SetupActionView::MapThemselves(seq![]),
                ),
            }
        },
        (
            SetupStateView::MappingThemselves { progress, initials },
            SetupEvent::Ends { s1_end, s2_end },
        ) => {
            let (progress, ops) = progress.spec_next(config, s1_end, s2_end);
            if progress is Done {
                (
                    SetupStateView::AddingRegion { stage: Stage::One, initials },
                    SetupActionView::AddRegion(Stage::One),
                )
            } else {
                (
                    SetupStateView::MappingThemselves { progress, initials },
                    SetupActionView::MapThemselves(ops),
                )
            }
        },
        (SetupStateView::AddingRegion { stage, initials }, _) => match stage {
            Stage::One => (
                SetupStateView::AddingRegion { stage: Stage::Two, initials },
                SetupActionView::AddRegion(Stage::Two),
            ),
            Stage::Two => lookup(initials, 0, Map::empty()),
        },
        (SetupStateView::Walking { initials, i, contents }, SetupEvent::Followed(walk)) =>
            followed(initials, i, contents, walk),
        (_, _) => arbitrary(),
    }
}

/// Starts a setup.
pub fn start_setup(setup: PageTableSetup) -> (r: (SetupState, SetupAction))
    ensures
        r.0@ == SetupStateView::Creating(setup@),
        r.1@ == SetupActionView::CreateTables,
{
    (SetupState::Creating(setup), SetupAction::CreateTables)
}

fn fail(e: EvalError) -> (r: (SetupState, SetupAction))
    ensures
        (r.0@, r.1@) == failed(e@),
{
    (SetupState::Ended, SetupAction::Fail(e))
}

#[verifier::loop_isolation(false)]
fn look_up(initials: Vec<(Val, Val)>, from: usize, contents: HashMap<u64, u64>) -> (r: (
    SetupState,
    SetupAction,
))
    ensures
        (r.0@, r.1@) == lookup(initials@, from as int, contents@),
{
    let ghost whole = lookup(initials@, from as int, contents@);
    let mut contents = contents;
    let mut i = from;
    while i < initials.len()
        invariant
            whole == lookup(initials@, i as int, contents@),
        decreases initials@.len() - i,
    {
        match needed_walk(&initials[i].0) {
            Some(walk) => {
                return (SetupState::Walking { initials, i, contents }, SetupAction::Follow(walk));
            },
            None => {},
        }
        let pa = match physical_address(&initials[i].0, &Ok(0)) {
            Err(e) => {
                return fail(e);
            },
            Ok(pa) => pa,
        };
        match initials[i].1.to_u64() {
            Err(e) => {
                return fail(e);
            },
            Ok(n) => {
                contents.insert(pa, n);
            },
        }
        i = i + 1;
    }
    (SetupState::Ended, SetupAction::Finish(contents))
}

fn take_walk(
    initials: Vec<(Val, Val)>,
    i: usize,
    contents: HashMap<u64, u64>,
    walk: Result<u64, String>,
) -> (r: (SetupState, SetupAction))
    requires
        i < initials@.len(),
    ensures
        (r.0@, r.1@) == followed(initials@, i as int, contents@, walk),
{
    let mut contents = contents;
    match physical_address(&initials[i].0, &walk) {
        Err(e) => fail(e),
        Ok(pa) => match initials[i].1.to_u64() {
            Err(e) => fail(e),
            Ok(n) => {
                contents.insert(pa, n);
                assert(i < initials.len());
                look_up(initials, i + 1, contents)
            },
        },
    }
}

fn copy_ops(ops: &Vec<MapOp>) -> (r: Vec<MapOp>)
    ensures
        r@ == ops@,
{
    let mut r: Vec<MapOp> = Vec::new();
    let mut i: usize = 0;
    while i < ops.len()
        invariant
            i <= ops@.len(),
            r@ == ops@.take(i as int),
        decreases ops@.len() - i,
    {
        r.push(ops[i]);
        i = i + 1;
        assert(r@ =~= ops@.take(i as int));
    }
    assert(r@ =~= ops@);
    r
}

impl SetupState {
    /// Takes an event. The result is the state after it and what is to be
    /// done next.
    pub fn step(
        self,
        event: SetupEvent,
        constraints: &Vec<setup::Constraint>,
        config: &IsaConfig,
    ) -> (r: (SetupState, SetupAction))
        requires
            fits(self@, event, *config),
        ensures
            (r.0@, r.1@) == next_step(self@, event, constraints@, *config),
    {
        match (self, event) {
            (SetupState::Creating(setup), _) => {
                let ops = copy_ops(&setup.code_ops);
                (SetupState::MappingCode(setup), SetupAction::MapCode(ops))
            },
            (SetupState::MappingCode(setup), _) => (
                SetupState::FindingAddresses(setup),
                SetupAction::FindAddresses,
            ),
            (SetupState::FindingAddresses(setup), SetupEvent::Found(verdict, values)) =>
                match setup.with_addresses(verdict, &values, constraints) {
                    Err(e) => fail(e),
                    Ok(plan) => {
                        let ops = copy_ops(&plan.ops);
                        (SetupState::MappingTables(plan), SetupAction::MapTables(ops))
                    },
                },
            (SetupState::MappingTables(plan), SetupEvent::Mapped(succeeded)) =>
                match plan.outcome(succeeded) {
                    Err(e) => fail(e),
                    Ok(initials) => {
                        let ops: Vec<MapOp> = Vec::new();
                        assert(ops@ =~= seq![]);
                        (
                            SetupState::MappingThemselves {
                                progress: SelfMapping::new(config),
                                initials,
                            },
                            SetupAction::MapThemselves(ops),
                        )
                    },
                },
            (
                SetupState::MappingThemselves { progress, initials },
                SetupEvent::Ends { s1_end, s2_end },
            ) => {
                let mut progress = progress;
                let ops = progress.next(config, s1_end, s2_end);
                if progress == SelfMapping::Done {
                    (
                        SetupState::AddingRegion { stage: Stage::One, initials },
                        SetupAction::AddRegion(Stage::One),
                    )
                } else {
                    (
                        SetupState::MappingThemselves { progress, initials },
                        SetupAction::MapThemselves(ops),
                    )
                }
            },
            (SetupState::AddingRegion { stage, initials }, _) => match stage {
                Stage::One => (
                    SetupState::AddingRegion { stage: Stage::Two, initials },
                    SetupAction::AddRegion(Stage::Two),
                ),
                Stage::Two => look_up(initials, 0, HashMap::new()),
            },
            (SetupState::Walking { initials, i, contents }, SetupEvent::Followed(walk)) =>
                take_walk(initials, i, contents, walk),
            (_, _) => {
                assert(false);
                (SetupState::Ended, SetupAction::FindAddresses)
            },
        }
    }
}

/// The place of a state in the order of the steps.
pub open spec fn rank(state: SetupStateView) -> int {
    match state {
        SetupStateView::Creating(_) => 0,
        SetupStateView::MappingCode(_) => 1,
        SetupStateView::FindingAddresses(_) => 2,
        SetupStateView::MappingTables(_) => 3,
        SetupStateView::MappingThemselves { .. } => 4,
        SetupStateView::AddingRegion { stage, .. } => if stage is One {
            5
        } else {
            6
        },
        SetupStateView::Walking { .. } => 7,
        SetupStateView::Ended => 8,
    }
}

/// Looking up comes to an address behind those before, or to the end.
proof fn lemma_lookup(initials: Seq<(Val, Val)>, i: int, contents: Map<u64, u64>)
    requires
        0 <= i,
    ensures
        match lookup(initials, i, contents).0 {
            SetupStateView::Walking { initials: left, i: j, .. } => {
                &&& left == initials
                &&& i <= j < initials.len()
                &&& setup::walk_of(initials[j].0) is Some
            },
            SetupStateView::Ended => true,
            _ => false,
        },
    decreases initials.len() - i,
{
    if i < initials.len() && setup::walk_of(initials[i].0) is None {
        if let Ok(pa) = setup::physical(initials[i].0, Ok(0)) {
            if let Ok(n) = setup::number(initials[i].1) {
                lemma_lookup(initials, i + 1, contents.insert(pa, n));
            }
        }
    }
}

/// A setup never goes back, and each step leads to the one that follows or to
/// the end. Only the tables are mapped into themselves, and the initial
/// contents looked up, one after the other.
pub proof fn law_setup_goes_forward(
    state: SetupStateView,
    event: SetupEvent,
    constraints: Seq<setup::Constraint>,
    config: IsaConfig,
)
    requires
        fits(state, event, config),
    ensures
        ({
            let next = next_step(state, event, constraints, config).0;
            ||| next is Ended
            ||| rank(next) == rank(state) + 1
            ||| next is MappingThemselves && state is MappingThemselves
            ||| state matches SetupStateView::Walking { i, .. } && next matches SetupStateView::Walking {
                i: j,
                ..
            } && j > i
        }),
{
    match state {
        SetupStateView::AddingRegion { initials, .. } => {
            lemma_lookup(initials, 0, Map::empty());
        },
        SetupStateView::Walking { initials, i, contents } => {
            if let SetupEvent::Followed(walk) = event {
                if let Ok(pa) = setup::physical(initials[i].0, walk) {
                    if let Ok(n) = setup::number(initials[i].1) {
                        lemma_lookup(initials, i + 1, contents.insert(pa, n));
                    }
                }
            }
        },
        _ => {},
    }
}

/// What looking up the initial contents one by one leads to, if the tables
/// lead to where `walks` says: whatever is left to be done gives what is
/// worked out from all walks at once.
pub open spec fn leads_to(
    next: (SetupStateView, SetupActionView),
    initials: Seq<(Val, Val)>,
    walks: Seq<Result<u64, String>>,
    out: Result<Map<u64, u64>, EvalErrorView>,
) -> bool {
    match (next.0, next.1) {
        (SetupStateView::Ended, SetupActionView::Finish(contents)) => out == Ok::<
            Map<u64, u64>,
            EvalErrorView,
        >(contents),
        (SetupStateView::Ended, SetupActionView::Fail(e)) => out == Err::<
            Map<u64, u64>,
            EvalErrorView,
        >(e),
        (
            SetupStateView::Walking { initials: left, i, contents },
            SetupActionView::Follow(walk),
        ) => {
            &&& left == initials
            &&& 0 <= i < initials.len()
            &&& setup::walk_of(initials[i].0) == Some(walk)
            &&& out == setup::initial_contents(initials, walks, i, contents)
        },
        _ => false,
    }
}

/// Looking up the initial contents one by one gives what is worked out from
/// all walks at once: it starts so, and every walk that is taken up keeps it.
pub proof fn law_contents_are_looked_up(
    initials: Seq<(Val, Val)>,
    walks: Seq<Result<u64, String>>,
    i: int,
    contents: Map<u64, u64>,
)
    requires
        0 <= i,
        walks.len() >= initials.len(),
    ensures
        leads_to(
            lookup(initials, i, contents),
            initials,
            walks,
            setup::initial_contents(initials, walks, i, contents),
        ),
        i < initials.len() ==> leads_to(
            followed(initials, i, contents, walks[i]),
            initials,
            walks,
            setup::initial_contents(initials, walks, i, contents),
        ),
    decreases initials.len() - i,
{
    if i < initials.len() {
        if let Ok(pa) = setup::physical(initials[i].0, walks[i]) {
            if let Ok(n) = setup::number(initials[i].1) {
                law_contents_are_looked_up(initials, walks, i + 1, contents.insert(pa, n));
            }
        }
    }
}

} // verus!
