//! Conditions under which the execution of a path is stopped.

use super::frame::Backtrace;
use super::ir::SharedState;
use super::names::{Dup, Key, Name, Table};
use crate::text::{self, find_char, same_text};
use vstd::prelude::*;

verus! {

#[derive(Clone, Copy, Debug, PartialEq, Eq, Structural)]
pub enum StopAction {
    /// Remove the entire trace.
    Kill,
    /// Keep the trace, and put an abstract call at its end.
    Abstract,
}

impl Dup for StopAction {
    fn dup(&self) -> (r: Self) {
        *self
    }
}

/// A function to stop at, and a function that has to be among its callers if
/// one is given.
#[derive(Clone, Copy, Debug, PartialEq, Eq, Structural)]
pub struct StopPoint {
    pub function: Name,
    pub context: Option<Name>,
}

impl Dup for StopPoint {
    fn dup(&self) -> (r: Self) {
        *self
    }
}

impl Key for StopPoint {
    fn same(&self, other: &Self) -> (r: bool) {
        self.function == other.function && match (self.context, other.context) {
            (Some(a), Some(b)) => a == b,
            (None, None) => true,
            _ => false,
        }
    }
}

/// Functions to stop at, with what is to be done there.
pub struct StopConditions {
    stops: Table<StopPoint, StopAction>,
}

impl View for StopConditions {
    type V = Map<StopPoint, StopAction>;

    closed spec fn view(&self) -> Map<StopPoint, StopAction> {
        self.stops@
    }
}

/// Whether a function is the caller or one of those that have called it.
pub open spec fn among_callers(name: Name, caller: Name, backtrace: Seq<(Name, usize)>) -> bool {
    name == caller || exists|i: int|
        0 <= i < backtrace.len() && (#[trigger] backtrace[i]).0 == name
}

/// A condition that asks for one of the callers, and finds it.
pub open spec fn stops_in_context(
    stops: Map<StopPoint, StopAction>,
    context: Name,
    callee: Name,
    caller: Name,
    backtrace: Seq<(Name, usize)>,
) -> bool {
    &&& stops.dom().contains(StopPoint { function: callee, context: Some(context) })
    &&& among_callers(context, caller, backtrace)
}

/// What is to be done at a call, looking at conditions in the given order
/// from position `i` on.
pub open spec fn first_stop(
    stops: Map<StopPoint, StopAction>,
    order: Seq<StopPoint>,
    callee: Name,
    caller: Name,
    backtrace: Seq<(Name, usize)>,
    i: int,
) -> Option<StopAction>
    decreases order.len() - i,
{
    if 0 <= i < order.len() {
        let point = order[i];
        if point.function == callee && point.context is Some && among_callers(
            point.context->0,
            caller,
            backtrace,
        ) {
            stops.get(point)
        } else {
            first_stop(stops, order, callee, caller, backtrace, i + 1)
        }
    } else {
        stops.get(StopPoint { function: callee, context: None })
    }
}

/// The first symbol from position `i` on that has the spelling or the meaning
/// that is looked for.
pub open spec fn find_symbol(sh: SharedState, name: Seq<char>, decoded: bool, i: int) -> Option<
    Name,
>
    decreases sh.symtab@.len() - i,
{
    if 0 <= i < sh.symtab@.len() {
        let symbol = sh.symtab@[i];
        let matches = if decoded {
            symbol.decoded is Some && symbol.decoded->0@ == name
        } else {
            symbol.spelling@ == name
        };
        if matches {
            Some(i as Name)
        } else {
            find_symbol(sh, name, decoded, i + 1)
        }
    } else {
        None
    }
}

/// The function with a name. What an encoded symbol stands for goes before
/// the spelling of a symbol.
pub open spec fn function_named(sh: SharedState, name: Seq<char>) -> Option<Name> {
    match find_symbol(sh, name, true, 0) {
        Some(f) => Some(f),
        None => find_symbol(sh, name, false, 0),
    }
}

/// A stop condition as it is written: a function, or a function and a context
/// with a comma between them.
pub open spec fn condition(sh: SharedState, arg: Seq<char>) -> Option<StopPoint> {
    let comma = text::position(arg, ',');
    if comma >= arg.len() {
        match function_named(sh, arg) {
            Some(function) => Some(StopPoint { function, context: None }),
            None => None,
        }
    } else {
        let rest = arg.skip(comma as int + 1);
        if text::position(rest, ',') < rest.len() {
            None
        } else {
            match (function_named(sh, arg.take(comma as int)), function_named(sh, rest)) {
                (Some(function), Some(context)) => Some(
                    StopPoint { function, context: Some(context) },
                ),
                _ => None,
            }
        }
    }
}

/// The conditions from position `i` on, added to `stops`.
pub open spec fn add_conditions(
    stops: Map<StopPoint, StopAction>,
    sh: SharedState,
    args: Seq<String>,
    action: StopAction,
    i: int,
) -> Map<StopPoint, StopAction>
    decreases args.len() - i,
{
    if 0 <= i < args.len() {
        add_conditions(
            stops.insert(condition(sh, args[i]@)->0, action),
            sh,
            args,
            action,
            i + 1,
        )
    } else {
        stops
    }
}

fn find_in_symtab(sh: &SharedState, name: &str, decoded: bool) -> (r: Option<Name>)
    requires
        sh.symtab@.len() <= u32::MAX,
    ensures
        r == find_symbol(*sh, name@, decoded, 0),
{
    let mut i: usize = 0;
    while i < sh.symtab.len()
        invariant
            i <= sh.symtab@.len() <= u32::MAX,
            find_symbol(*sh, name@, decoded, 0) == find_symbol(*sh, name@, decoded, i as int),
        decreases sh.symtab@.len() - i,
    {
        let found = if decoded {
            match &sh.symtab[i].decoded {
                Some(s) => same_text(s.as_str(), name),
                None => false,
            }
        } else {
            same_text(sh.symtab[i].spelling.as_str(), name)
        };
        if found {
            return Some(i as Name);
        }
        i = i + 1;
    }
    None
}

/// All conditions of two sets. Where both have one, the second counts.
pub open spec fn united(
    first: Map<StopPoint, StopAction>,
    second: Map<StopPoint, StopAction>,
) -> Map<StopPoint, StopAction> {
    first.union_prefer_right(second)
}

impl StopConditions {
    /// What is to be done at a call.
    pub closed spec fn decision(
        &self,
        callee: Name,
        caller: Name,
        backtrace: Seq<(Name, usize)>,
    ) -> Option<StopAction> {
        first_stop(self.stops@, self.stops.order(), callee, caller, backtrace, 0)
    }

    pub fn new() -> (r: Self)
        ensures
            r@ == Map::<StopPoint, StopAction>::empty(),
    {
        StopConditions { stops: Table::new() }
    }

    /// Stops at a function, if `context` is among the callers or is not
    /// given.
    pub fn add(&mut self, function: Name, context: Option<Name>, action: StopAction)
        ensures
            final(self)@ == old(self)@.insert(StopPoint { function, context }, action),
    {
        self.stops.insert(StopPoint { function, context }, action);
    }

    /// The conditions of both; where both speak of the same, those of
    /// `other`.
    pub fn union(&self, other: &StopConditions) -> (r: Self)
        ensures
            r@ == self@.union_prefer_right(other@),
            r@ == united(self@, other@),
    {
        let mut stops = self.stops.copy();
        stops.extend(&other.stops);
        StopConditions { stops }
    }

    /// What is to be done at a call. A condition that asks for one of the
    /// callers goes before one that does not. If several find one, any of
    /// them counts.
    pub fn should_stop(&self, callee: Name, caller: Name, backtrace: &Backtrace) -> (r: Option<
        StopAction,
    >)
        ensures
            r == self.decision(callee, caller, backtrace@),
            (exists|context: Name| #[trigger]
                stops_in_context(self@, context, callee, caller, backtrace@)) ==> r is Some && (
            exists|context: Name|
                {
                    &&& #[trigger] stops_in_context(self@, context, callee, caller, backtrace@)
                    &&& self@[StopPoint { function: callee, context: Some(context) }] == r->0
                }),
            (forall|context: Name|
                !#[trigger] stops_in_context(self@, context, callee, caller, backtrace@)) ==> r
                == self@.get(StopPoint { function: callee, context: None }),
    {
        let keys = self.stops.keys();
        let mut i: usize = 0;
        while i < keys.len()
            invariant
                i <= keys@.len(),
                keys@ == self.stops.order(),
                self.decision(callee, caller, backtrace@) == first_stop(
                    self.stops@,
                    keys@,
                    callee,
                    caller,
                    backtrace@,
                    i as int,
                ),
                forall|k: StopPoint| #[trigger] keys@.contains(k) <==> self@.dom().contains(k),
                forall|j: int, context: Name|
                    #![trigger keys@[j], stops_in_context(self@, context, callee, caller, backtrace@)]
                    0 <= j < i && keys@[j] == (StopPoint {
                        function: callee,
                        context: Some(context),
                    }) ==> !stops_in_context(self@, context, callee, caller, backtrace@),
            decreases keys@.len() - i,
        {
            let key = keys[i];
            assert(keys@.contains(keys@[i as int]));
            if let Some(context) = key.context {
                if key.function == callee && is_among_callers(context, caller, backtrace) {
                    assert(stops_in_context(self@, context, callee, caller, backtrace@));
                    return match self.stops.get(key) {
                        Some(action) => Some(*action),
                        None => None,
                    };
                }
            }
            i = i + 1;
        }
        assert forall|context: Name|
            !#[trigger] stops_in_context(self@, context, callee, caller, backtrace@) by {
            let key = StopPoint { function: callee, context: Some(context) };
            if self@.dom().contains(key) {
                assert(keys@.contains(key));
                let j = choose|j: int| 0 <= j < keys@.len() && keys@[j] == key;
                assert(keys@[j] == key);
            }
        }
        match self.stops.get(StopPoint { function: callee, context: None }) {
            Some(action) => Some(*action),
            None => None,
        }
    }

    fn parse_function_name(f: &str, shared_state: &SharedState) -> (r: Option<Name>)
        requires
            shared_state.symtab@.len() <= u32::MAX,
        ensures
            r == function_named(*shared_state, f@),
    {
        match find_in_symtab(shared_state, f, true) {
            Some(f) => Some(f),
            None => find_in_symtab(shared_state, f, false),
        }
    }

    /// A condition as it is written; `None` if it is written badly or names a
    /// function that does not exist.
    pub fn parse_condition(arg: &str, shared_state: &SharedState) -> (r: Option<StopPoint>)
        requires
            shared_state.symtab@.len() <= u32::MAX,
        ensures
            r == condition(*shared_state, arg@),
    {
        let n = arg.unicode_len();
        let comma = find_char(arg, ',');
        if comma >= n {
            return match StopConditions::parse_function_name(arg, shared_state) {
                Some(function) => Some(StopPoint { function, context: None }),
                None => None,
            };
        }
        let rest = arg.substring_char(comma + 1, n);
        assert(rest@ =~= arg@.skip(comma + 1));
        if find_char(rest, ',') < rest.unicode_len() {
            return None;
        }
        let first = arg.substring_char(0, comma);
        assert(first@ =~= arg@.take(comma as int));
        match (
            StopConditions::parse_function_name(first, shared_state),
            StopConditions::parse_function_name(rest, shared_state),
        ) {
            (Some(function), Some(context)) => Some(
                StopPoint { function, context: Some(context) },
            ),
            _ => None,
        }
    }

    /// The conditions that are written in a list of arguments.
    pub fn parse(args: Vec<String>, shared_state: &SharedState, action: StopAction) -> (r:
        StopConditions)
        requires
            shared_state.symtab@.len() <= u32::MAX,
            forall|i: int|
                0 <= i < args@.len() ==> condition(*shared_state, (#[trigger] args@[i])@) is Some,
        ensures
            r@ == add_conditions(Map::empty(), *shared_state, args@, action, 0),
    {
        let mut conds = StopConditions::new();
        let mut i: usize = 0;
        while i < args.len()
            invariant
                i <= args@.len(),
                shared_state.symtab@.len() <= u32::MAX,
                add_conditions(Map::empty(), *shared_state, args@, action, 0) == add_conditions(
                    conds@,
                    *shared_state,
                    args@,
                    action,
                    i as int,
                ),
                forall|i: int|
                    0 <= i < args@.len() ==> condition(*shared_state, (#[trigger] args@[i])@)
                        is Some,
            decreases args@.len() - i,
        {
            assert(condition(*shared_state, args@[i as int]@) is Some);
            match StopConditions::parse_condition(args[i].as_str(), shared_state) {
                Some(point) => {
                    conds.add(point.function, point.context, action);
                },
                None => {},
            }
            i = i + 1;
        }
        conds
    }
}

fn is_among_callers(name: Name, caller: Name, backtrace: &Backtrace) -> (r: bool)
    ensures
        r == among_callers(name, caller, backtrace@),
{
    if name == caller {
        return true;
    }
    let mut i: usize = 0;
    while i < backtrace.len()
        invariant
            i <= backtrace@.len(),
            forall|j: int| 0 <= j < i ==> (#[trigger] backtrace@[j]).0 != name,
        decreases backtrace@.len() - i,
    {
        if backtrace[i].0 == name {
            assert(backtrace@[i as int].0 == name);
            return true;
        }
        i = i + 1;
    }
    false
}

} // verus!
