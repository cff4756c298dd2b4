//! Finding addresses for the variables of a setup.

use super::setup::{AddressConstraint, Constraint, EvalError, EvalErrorView, Val};
use super::{IsaConfig, VirtualAddress};
use crate::bitvector::B64;
use crate::bv;
use crate::executor::solver::{self, DefView, SmtResult};
use crate::smt::semantics::{Interp, Value};
use crate::smt::semantics;
use crate::smt::smtlib::{Def, Exp, Sym, Ty};
use crate::smt::tree::{self, Tree};
use crate::text::{same_text, TextMap};
use vstd::prelude::*;

verus! {

#[derive(Clone, Copy, Debug, PartialEq, Eq, Structural)]
pub enum AddressKind {
    Virtual,
    Intermediate,
    Physical,
}

impl AddressKind {
    /// An address of this kind.
    pub open spec fn spec_value(self, bits: u64) -> Val {
        match self {
            AddressKind::Virtual => Val::VA(VirtualAddress { bits }),
            AddressKind::Intermediate => Val::IPA(VirtualAddress { bits }),
            AddressKind::Physical => Val::PA(bits),
        }
    }

    fn value(self, bits: u64) -> (r: Val)
        ensures
            r == self.spec_value(bits),
    {
        match self {
            AddressKind::Virtual => Val::VA(VirtualAddress::from_u64(bits)),
            AddressKind::Intermediate => Val::IPA(VirtualAddress::from_u64(bits)),
            AddressKind::Physical => Val::PA(bits),
        }
    }
}

/// A variable that an address is to be found for, and the symbol that stands
/// for the address.
pub struct AddressVar {
    pub name: String,
    pub sym: Sym,
    pub kind: AddressKind,
}

pub struct AddressVarView {
    pub name: Seq<char>,
    pub sym: Sym,
    pub kind: AddressKind,
}

impl View for AddressVar {
    type V = AddressVarView;

    open spec fn view(&self) -> AddressVarView {
        AddressVarView { name: self.name@, sym: self.sym, kind: self.kind }
    }
}

/// What the solver is to be told, and the variables that it is to find
/// addresses for.
pub struct AddressPlan {
    pub defs: Vec<Def>,
    pub vars: Vec<AddressVar>,
    pub next: Sym,
}

pub struct AddressPlanView {
    pub defs: Seq<DefView>,
    pub vars: Seq<AddressVarView>,
    pub next: Sym,
}

impl View for AddressPlan {
    type V = AddressPlanView;

    open spec fn view(&self) -> AddressPlanView {
        AddressPlanView {
            defs: Seq::new(self.defs@.len(), |i: int| self.defs@[i]@),
            vars: Seq::new(self.vars@.len(), |i: int| self.vars@[i]@),
            next: self.next,
        }
    }
}

pub open spec fn empty_plan() -> AddressPlanView {
    AddressPlanView { defs: seq![], vars: seq![], next: 0 }
}

/// A word as an SMT constant.
pub open spec fn word(n: u64) -> Tree<Sym> {
    tree::leaf(tree::Op::Bits64(bv::from_int(64, n as int)))
}

/// The address is not below the lowest that is allowed.
pub open spec fn not_below(v: Sym, base: u64) -> Tree<Sym> {
    solver::binary(tree::Op::Bvuge, solver::var(v), word(base))
}

/// The address is below the end of those that are allowed.
pub open spec fn below(v: Sym, top: u64) -> Tree<Sym> {
    solver::binary(tree::Op::Bvult, solver::var(v), word(top))
}

/// The address is a multiple of a stride that is a power of two.
pub open spec fn aligned(v: Sym, stride: u64) -> Tree<Sym> {
    solver::binary(
        tree::Op::Eq,
        solver::binary(
            tree::Op::Bvand,
            solver::var(v),
            solver::binary(tree::Op::Bvsub, word(stride), word(1)),
        ),
        word(0),
    )
}

/// The two addresses differ.
pub open spec fn differ(v: Sym, w: Sym) -> Tree<Sym> {
    solver::binary(tree::Op::Neq, solver::var(v), solver::var(w))
}

/// The position of a variable, or the number of variables.
pub open spec fn var_position(vars: Seq<AddressVarView>, name: Seq<char>) -> nat
    decreases vars.len(),
{
    if vars.len() == 0 || vars[0].name == name {
        0
    } else {
        1 + var_position(vars.drop_first(), name)
    }
}

/// Sets a variable: in place if it is there, and else at the end.
pub open spec fn set_var(vars: Seq<AddressVarView>, v: AddressVarView) -> Seq<AddressVarView> {
    let i = var_position(vars, v.name);
    if i < vars.len() {
        vars.update(i as int, v)
    } else {
        vars.push(v)
    }
}

/// Asks for an address.
pub open spec fn add_address(
    p: AddressPlanView,
    name: Seq<char>,
    kind: AddressKind,
    config: IsaConfig,
) -> AddressPlanView {
    let v = p.next;
    AddressPlanView {
        defs: p.defs + seq![
            DefView::DeclareConst(v, Ty::BitVec(64)),
            DefView::Assert(not_below(v, config.symbolic_addr_base)),
            DefView::Assert(below(v, config.symbolic_addr_top)),
            DefView::Assert(aligned(v, config.symbolic_addr_stride)),
        ],
        vars: set_var(p.vars, AddressVarView { name, sym: v, kind }),
        next: (v + 1) as u32,
    }
}

/// Asks for addresses from position `i` on.
pub open spec fn add_addresses(
    p: AddressPlanView,
    names: Seq<String>,
    kind: AddressKind,
    config: IsaConfig,
    i: int,
) -> AddressPlanView
    decreases names.len() - i,
{
    if 0 <= i < names.len() {
        add_addresses(add_address(p, names[i]@, kind, config), names, kind, config, i + 1)
    } else {
        p
    }
}

/// The symbol of a variable.
pub open spec fn sym_of(vars: Seq<AddressVarView>, name: Seq<char>) -> Sym {
    vars[var_position(vars, name) as int].sym
}

/// Asks that the addresses of a declaration differ, each from those behind
/// it, beginning with the pair at `i` and `j`.
pub open spec fn add_differences(p: AddressPlanView, names: Seq<String>, i: int, j: int) -> AddressPlanView
    decreases names.len() - i, names.len() - j,
{
    if 0 <= i < j < names.len() {
        let def = DefView::Assert(
            differ(sym_of(p.vars, names[i]@), sym_of(p.vars, names[j]@)),
        );
        add_differences(
            AddressPlanView { defs: p.defs.push(def), ..p },
            names,
            i,
            j + 1,
        )
    } else if 0 <= i < names.len() {
        add_differences(p, names, i + 1, i + 2)
    } else {
        p
    }
}

/// Asks for the addresses of a declaration.
pub open spec fn add_declaration(
    p: AddressPlanView,
    names: Seq<String>,
    kind: AddressKind,
    config: IsaConfig,
) -> AddressPlanView {
    add_differences(add_addresses(p, names, kind, config, 0), names, 0, 1)
}

/// The names and the kind of addresses that a constraint declares.
pub open spec fn declaration(c: Constraint) -> Option<(Seq<String>, AddressKind)> {
    match c {
        Constraint::Address(AddressConstraint::Virtual(names)) => Some(
            (names@, AddressKind::Virtual),
        ),
        Constraint::Address(AddressConstraint::Intermediate(names)) => Some(
            (names@, AddressKind::Intermediate),
        ),
        Constraint::Address(AddressConstraint::Physical(names)) => Some(
            (names@, AddressKind::Physical),
        ),
        _ => None,
    }
}

/// How many addresses the constraints from position `i` on declare.
pub open spec fn declared(constraints: Seq<Constraint>, i: int) -> nat
    decreases constraints.len() - i,
{
    if 0 <= i < constraints.len() {
        declared(constraints, i + 1) + match declaration(constraints[i]) {
            Some((names, _)) => names.len(),
            None => 0,
        }
    } else {
        0
    }
}

/// What the constraints from position `i` on ask of the solver, on top of
/// `p`.
pub open spec fn address_plan(
    constraints: Seq<Constraint>,
    config: IsaConfig,
    i: int,
    p: AddressPlanView,
) -> AddressPlanView
    decreases constraints.len() - i,
{
    if 0 <= i < constraints.len() {
        address_plan(
            constraints,
            config,
            i + 1,
            match declaration(constraints[i]) {
                Some((names, kind)) => add_declaration(p, names, kind, config),
                None => p,
            },
        )
    } else {
        p
    }
}

/// What stands before the position of a variable has another name.
proof fn lemma_var_position(vars: Seq<AddressVarView>, name: Seq<char>)
    ensures
        var_position(vars, name) <= vars.len(),
        var_position(vars, name) < vars.len() ==> vars[var_position(vars, name) as int].name
            == name,
        forall|i: int|
            0 <= i < var_position(vars, name) ==> (#[trigger] vars[i]).name != name,
    decreases vars.len(),
{
    if vars.len() > 0 && vars[0].name != name {
        let rest = vars.drop_first();
        lemma_var_position(rest, name);
        assert forall|i: int| 0 <= i < var_position(vars, name) implies (#[trigger] vars[i]).name
            != name by {
            if i > 0 {
                assert(rest[i - 1] == vars[i]);
            }
        }
    }
}

/// The first variable with a name is at the position of the name.
proof fn lemma_var_position_is(vars: Seq<AddressVarView>, name: Seq<char>, n: nat)
    requires
        n <= vars.len(),
        forall|i: int| 0 <= i < n ==> (#[trigger] vars[i]).name != name,
        n < vars.len() ==> vars[n as int].name == name,
    ensures
        var_position(vars, name) == n,
{
    lemma_var_position(vars, name);
    let p = var_position(vars, name);
    if p < n {
        assert(vars[p as int].name == name);
    } else if n < p {
        assert(vars[n as int].name != name);
    }
}

impl AddressPlan {
    fn find_var(&self, name: &str) -> (i: usize)
        ensures
            i == var_position(self@.vars, name@),
            i <= self.vars@.len(),
    {
        let mut i: usize = 0;
        while i < self.vars.len()
            invariant
                i <= self.vars@.len(),
                forall|j: int| 0 <= j < i ==> (#[trigger] self@.vars[j]).name != name@,
            decreases self.vars@.len() - i,
        {
            if same_text(self.vars[i].name.as_str(), name) {
                proof {
                    assert(self@.vars[i as int].name == name@);
                    lemma_var_position_is(self@.vars, name@, i as nat);
                }
                return i;
            }
            i = i + 1;
        }
        proof {
            lemma_var_position_is(self@.vars, name@, i as nat);
        }
        i
    }

    fn push_def(&mut self, def: Def)
        ensures
            final(self)@ == (AddressPlanView {
                defs: old(self)@.defs.push(def@),
                ..old(self)@
            }),
            final(self).vars@ == old(self).vars@,
    {
        let ghost before = self@;
        self.defs.push(def);
        assert(self@.defs =~= before.defs.push(def@));
        assert(self@.vars =~= before.vars);
    }

    fn add_var(&mut self, name: &String, kind: AddressKind, config: &IsaConfig)
        requires
            old(self)@.next < u32::MAX,
        ensures
            final(self)@ == add_address(old(self)@, name@, kind, *config),
    {
        let ghost before = self@;
        let v = self.next;
        let base = Exp::Bvuge(Box::new(Exp::Var(v)), Box::new(constant(config.symbolic_addr_base)));
        let top = Exp::Bvult(Box::new(Exp::Var(v)), Box::new(constant(config.symbolic_addr_top)));
        let mask = Exp::Bvsub(
            Box::new(constant(config.symbolic_addr_stride)),
            Box::new(constant(1)),
        );
        proof {
            base.lemma_tree2();
            top.lemma_tree2();
            mask.lemma_tree2();
        }
        let low_bits = Exp::Bvand(Box::new(Exp::Var(v)), Box::new(mask));
        proof {
            low_bits.lemma_tree2();
        }
        let alignment = Exp::Eq(Box::new(low_bits), Box::new(constant(0)));
        proof {
            alignment.lemma_tree2();
        }
        self.push_def(Def::DeclareConst(v, Ty::BitVec(64)));
        self.push_def(Def::Assert(base));
        self.push_def(Def::Assert(top));
        self.push_def(Def::Assert(alignment));
        let i = self.find_var(name.as_str());
        let var = AddressVar { name: name.clone(), sym: v, kind };
        let ghost set = set_var(before.vars, var@);
        if i < self.vars.len() {
            self.vars.set(i, var);
        } else {
            self.vars.push(var);
        }
        self.next = v + 1;
        assert(self@.vars =~= set);
        assert(self@.defs =~= add_address(before, name@, kind, *config).defs);
    }

    fn add_vars(&mut self, names: &Vec<String>, kind: AddressKind, config: &IsaConfig)
        requires
            old(self)@.next + names@.len() < u32::MAX,
        ensures
            final(self)@ == add_addresses(old(self)@, names@, kind, *config, 0),
            final(self)@.next == old(self)@.next + names@.len(),
    {
        let ghost whole = add_addresses(self@, names@, kind, *config, 0);
        let ghost start = self@.next;
        let mut i: usize = 0;
        while i < names.len()
            invariant
                i <= names@.len(),
                whole == add_addresses(self@, names@, kind, *config, i as int),
                self@.next == start + i,
                start + names@.len() < u32::MAX,
            decreases names@.len() - i,
        {
            self.add_var(&names[i], kind, config);
            i = i + 1;
        }
    }

    fn add_distinct(&mut self, names: &Vec<String>)
        requires
            forall|i: int|
                0 <= i < names@.len() ==> var_position(
                    old(self)@.vars,
                    (#[trigger] names@[i])@,
                ) < old(self)@.vars.len(),
        ensures
            final(self)@ == add_differences(old(self)@, names@, 0, 1),
            final(self)@.next == old(self)@.next,
    {
        let ghost whole = add_differences(self@, names@, 0, 1);
        let ghost vars = self@.vars;
        let ghost next = self@.next;
        let n = names.len();
        let mut i: usize = 0;
        while i < n
            invariant
                i <= n,
                n == names@.len(),
                self@.vars == vars,
                self@.next == next,
                forall|k: int|
                    0 <= k < names@.len() ==> var_position(vars, (#[trigger] names@[k])@)
                        < vars.len(),
                whole == add_differences(self@, names@, i as int, i + 1),
            decreases n - i,
        {
            assert(var_position(vars, names@[i as int]@) < vars.len());
            let first = self.find_var(names[i].as_str());
            let v = self.vars[first].sym;
            assert(self@.vars[first as int].sym == v);
            let mut j: usize = i + 1;
            while j < n
                invariant
                    i < j <= n,
                    n == names@.len(),
                    self@.vars == vars,
                    self@.next == next,
                    v == sym_of(vars, names@[i as int]@),
                    forall|k: int|
                        0 <= k < names@.len() ==> var_position(vars, (#[trigger] names@[k])@)
                            < vars.len(),
                    whole == add_differences(self@, names@, i as int, j as int),
                decreases n - j,
            {
                assert(var_position(vars, names@[j as int]@) < vars.len());
                let second = self.find_var(names[j].as_str());
                let w = self.vars[second].sym;
                assert(self@.vars[second as int].sym == w);
                let exp = Exp::Neq(Box::new(Exp::Var(v)), Box::new(Exp::Var(w)));
                proof {
                    exp.lemma_tree2();
                }
                self.push_def(Def::Assert(exp));
                j = j + 1;
            }
            i = i + 1;
        }
    }
}

fn constant(n: u64) -> (r: Exp<Sym>)
    ensures
        r.tree() == word(n),
{
    let r = Exp::Bits64(B64::from_u64(n));
    proof {
        r.lemma_tree0();
    }
    r
}

/// A variable that is set is there, and no other gets lost.
proof fn lemma_set_var(vars: Seq<AddressVarView>, v: AddressVarView, name: Seq<char>)
    ensures
        var_position(set_var(vars, v), v.name) < set_var(vars, v).len(),
        var_position(vars, name) < vars.len() ==> var_position(set_var(vars, v), name) < set_var(
            vars,
            v,
        ).len(),
{
    let after = set_var(vars, v);
    let i = var_position(vars, v.name);
    lemma_var_position(vars, v.name);
    lemma_var_position(vars, name);
    lemma_var_position(after, v.name);
    lemma_var_position(after, name);
    assert(after[i as int].name == v.name);
    if var_position(vars, name) < vars.len() {
        let k = var_position(vars, name);
        assert(after[k as int].name == name);
    }
}

/// Every name of a declaration is a variable once it has been added.
proof fn lemma_added(
    p: AddressPlanView,
    names: Seq<String>,
    kind: AddressKind,
    config: IsaConfig,
    i: int,
    k: int,
)
    requires
        0 <= i <= names.len(),
        0 <= k < names.len(),
        k < i ==> var_position(p.vars, names[k]@) < p.vars.len(),
    ensures
        ({
            let after = add_addresses(p, names, kind, config, i);
            var_position(after.vars, names[k]@) < after.vars.len()
        }),
    decreases names.len() - i,
{
    if i < names.len() {
        let v = AddressVarView { name: names[i]@, sym: p.next, kind };
        lemma_set_var(p.vars, v, names[k]@);
        lemma_added(add_address(p, names[i]@, kind, config), names, kind, config, i + 1, k);
    }
}

/// Works out what the solver is to be told to find addresses.
pub fn plan_addresses(constraints: &Vec<Constraint>, config: &IsaConfig) -> (r: AddressPlan)
    requires
        declared(constraints@, 0) < u32::MAX,
    ensures
        r@ == address_plan(constraints@, *config, 0, empty_plan()),
{
    let mut plan = AddressPlan { defs: Vec::new(), vars: Vec::new(), next: 0 };
    assert(plan@.defs =~= seq![]);
    assert(plan@.vars =~= seq![]);
    let ghost whole = address_plan(constraints@, *config, 0, empty_plan());
    let mut i: usize = 0;
    while i < constraints.len()
        invariant
            i <= constraints@.len(),
            whole == address_plan(constraints@, *config, i as int, plan@),
            plan@.next + declared(constraints@, i as int) == declared(constraints@, 0),
            declared(constraints@, 0) < u32::MAX,
        decreases constraints@.len() - i,
    {
        match &constraints[i] {
            Constraint::Address(AddressConstraint::Virtual(names)) => {
                plan_declaration(&mut plan, names, AddressKind::Virtual, config);
            },
            Constraint::Address(AddressConstraint::Intermediate(names)) => {
                plan_declaration(&mut plan, names, AddressKind::Intermediate, config);
            },
            Constraint::Address(AddressConstraint::Physical(names)) => {
                plan_declaration(&mut plan, names, AddressKind::Physical, config);
            },
            _ => {},
        }
        i = i + 1;
    }
    plan
}

fn plan_declaration(
    plan: &mut AddressPlan,
    names: &Vec<String>,
    kind: AddressKind,
    config: &IsaConfig,
)
    requires
        old(plan)@.next + names@.len() < u32::MAX,
    ensures
        final(plan)@ == add_declaration(old(plan)@, names@, kind, *config),
        final(plan)@.next == old(plan)@.next + names@.len(),
{
    let ghost before = plan@;
    plan.add_vars(names, kind, config);
    proof {
        assert forall|k: int| 0 <= k < names@.len() implies var_position(
            plan@.vars,
            (#[trigger] names@[k])@,
        ) < plan@.vars.len() by {
            lemma_added(before, names@, kind, *config, 0, k);
        }
    }
    plan.add_distinct(names);
}

/// What a model says of a symbol.
pub enum ModelValue {
    Bits(B64),
    /// Something that is not a bitvector that fits in a word, in words.
    Other(String),
    /// The model could not be read, with the reason.
    Unreadable(String),
}

/// The variables with the addresses that a model gives, from position `i`
/// on, on top of `m`.
pub open spec fn insert_addresses(
    vars: Seq<AddressVarView>,
    values: Seq<ModelValue>,
    i: int,
    m: Map<Seq<char>, Val>,
) -> Result<Map<Seq<char>, Val>, EvalErrorView>
    decreases vars.len() - i,
{
    if 0 <= i < vars.len() {
        match values[i] {
            ModelValue::Bits(b) => insert_addresses(
                vars,
                values,
                i + 1,
                m.insert(vars[i].name, vars[i].kind.spec_value(bv::to_nat(b@) as u64)),
            ),
            ModelValue::Other(s) => Err(
                EvalErrorView::AddressError(
                    "Address value "@ + s@ + " was not a bitvector in satisfiable model"@,
                ),
            ),
            ModelValue::Unreadable(s) => Err(EvalErrorView::AddressError(s@)),
        }
    } else {
        Ok(m)
    }
}

/// The variables as they are when the addresses have been taken up from
/// position `i` on, or all those before the first that the model gives none
/// for.
pub open spec fn addresses_taken(
    vars: Seq<AddressVarView>,
    values: Seq<ModelValue>,
    i: int,
    m: Map<Seq<char>, Val>,
) -> Map<Seq<char>, Val>
    decreases vars.len() - i,
{
    if 0 <= i < vars.len() {
        match values[i] {
            ModelValue::Bits(b) => addresses_taken(
                vars,
                values,
                i + 1,
                m.insert(vars[i].name, vars[i].kind.spec_value(bv::to_nat(b@) as u64)),
            ),
            _ => m,
        }
    } else {
        m
    }
}

/// The variables with the addresses that the solver has found.
pub open spec fn found_addresses(
    p: AddressPlanView,
    verdict: SmtResult,
    values: Seq<ModelValue>,
    m: Map<Seq<char>, Val>,
) -> Result<Map<Seq<char>, Val>, EvalErrorView> {
    if verdict != SmtResult::Sat {
        Err(EvalErrorView::AddressError("No satisfiable set of addresses"@))
    } else {
        insert_addresses(p.vars, values, 0, m)
    }
}

/// Takes up the addresses that the solver has found. `values` are what its
/// model says of the symbols of the variables, in the order of the plan.
pub fn take_addresses(
    plan: &AddressPlan,
    verdict: SmtResult,
    values: &Vec<ModelValue>,
    table_vars: &mut TextMap<Val>,
) -> (r: Result<(), EvalError>)
    requires
        verdict == SmtResult::Sat ==> values@.len() >= plan@.vars.len(),
    ensures
        match found_addresses(plan@, verdict, values@, old(table_vars)@) {
            Ok(m) => r is Ok && final(table_vars)@ == m,
            Err(e) => r matches Err(err) && err@ == e,
        },
        final(table_vars)@ == if verdict != SmtResult::Sat {
            old(table_vars)@
        } else {
            addresses_taken(plan@.vars, values@, 0, old(table_vars)@)
        },
{
    if verdict != SmtResult::Sat {
        return Err(EvalError::AddressError("No satisfiable set of addresses".to_owned()));
    }
    let ghost whole = insert_addresses(plan@.vars, values@, 0, table_vars@);
    let ghost taken = addresses_taken(plan@.vars, values@, 0, table_vars@);
    let mut i: usize = 0;
    while i < plan.vars.len()
        invariant
            i <= plan.vars@.len(),
            values@.len() >= plan.vars@.len(),
            verdict == SmtResult::Sat,
            whole == insert_addresses(plan@.vars, values@, 0, old(table_vars)@),
            whole == insert_addresses(plan@.vars, values@, i as int, table_vars@),
            taken == addresses_taken(plan@.vars, values@, 0, old(table_vars)@),
            taken == addresses_taken(plan@.vars, values@, i as int, table_vars@),
        decreases plan.vars@.len() - i,
    {
        assert(plan@.vars[i as int] == plan.vars@[i as int]@);
        match &values[i] {
            ModelValue::Bits(b) => {
                table_vars.insert(
                    plan.vars[i].name.clone(),
                    plan.vars[i].kind.value(b.lower_u64()),
                );
            },
            ModelValue::Other(s) => {
                return Err(
                    EvalError::AddressError(
                        "Address value ".to_owned().concat(s.as_str()).concat(
                            " was not a bitvector in satisfiable model",
                        ),
                    ),
                );
            },
            ModelValue::Unreadable(s) => {
                return Err(EvalError::AddressError(s.clone()));
            },
        }
        i = i + 1;
    }
    Ok(())
}

/// An assignment under which everything holds that the solver is told.
pub open spec fn satisfies(interp: Interp<Sym>, defs: Seq<DefView>) -> bool {
    forall|t: Tree<Sym>| #[trigger]
        defs.contains(DefView::Assert(t)) ==> semantics::denote(interp, t) == Value::Bool(true)
}

/// The address that an assignment gives to a symbol.
pub open spec fn address_of(interp: Interp<Sym>, v: Sym) -> nat {
    bv::to_nat((interp.var)(v)->Bits_0)
}

/// Whether an assignment gives a word to a symbol.
pub open spec fn is_word(interp: Interp<Sym>, v: Sym) -> bool {
    (interp.var)(v) matches Value::Bits(s) && s.len() == 64
}

/// The solver is told of every variable what an address has to meet.
pub open spec fn guarded(p: AddressPlanView, config: IsaConfig) -> bool {
    forall|k: int|
        #![trigger p.vars[k]]
        0 <= k < p.vars.len() ==> {
            let v = p.vars[k].sym;
            &&& p.defs.contains(DefView::Assert(not_below(v, config.symbolic_addr_base)))
            &&& p.defs.contains(DefView::Assert(below(v, config.symbolic_addr_top)))
            &&& p.defs.contains(DefView::Assert(aligned(v, config.symbolic_addr_stride)))
        }
}

/// What is in a sequence is in every longer one.
proof fn lemma_still_contains(a: Seq<DefView>, b: Seq<DefView>, def: DefView)
    requires
        a.contains(def),
    ensures
        (a + b).contains(def),
{
    let i = choose|i: int| 0 <= i < a.len() && a[i] == def;
    assert((a + b)[i] == def);
}

proof fn lemma_add_address_guarded(
    p: AddressPlanView,
    name: Seq<char>,
    kind: AddressKind,
    config: IsaConfig,
)
    requires
        guarded(p, config),
    ensures
        guarded(add_address(p, name, kind, config), config),
{
    let after = add_address(p, name, kind, config);
    let v = p.next;
    let n = p.defs.len() as int;
    assert(after.defs[n + 1] == DefView::Assert(not_below(v, config.symbolic_addr_base)));
    assert(after.defs[n + 2] == DefView::Assert(below(v, config.symbolic_addr_top)));
    assert(after.defs[n + 3] == DefView::Assert(aligned(v, config.symbolic_addr_stride)));
    let more = seq![
        DefView::DeclareConst(v, Ty::BitVec(64)),
        DefView::Assert(not_below(v, config.symbolic_addr_base)),
        DefView::Assert(below(v, config.symbolic_addr_top)),
        DefView::Assert(aligned(v, config.symbolic_addr_stride)),
    ];
    assert forall|k: int| #![trigger after.vars[k]] 0 <= k < after.vars.len() implies {
        let w = after.vars[k].sym;
        &&& after.defs.contains(DefView::Assert(not_below(w, config.symbolic_addr_base)))
        &&& after.defs.contains(DefView::Assert(below(w, config.symbolic_addr_top)))
        &&& after.defs.contains(DefView::Assert(aligned(w, config.symbolic_addr_stride)))
    } by {
        if k < p.vars.len() && after.vars[k] == p.vars[k] {
            let w = p.vars[k].sym;
            lemma_still_contains(
                p.defs,
                more,
                DefView::Assert(not_below(w, config.symbolic_addr_base)),
            );
            lemma_still_contains(
                p.defs,
                more,
                DefView::Assert(below(w, config.symbolic_addr_top)),
            );
            lemma_still_contains(
                p.defs,
                more,
                DefView::Assert(aligned(w, config.symbolic_addr_stride)),
            );
        } else {
            assert(after.vars[k].sym == v);
        }
    }
}

proof fn lemma_add_addresses_guarded(
    p: AddressPlanView,
    names: Seq<String>,
    kind: AddressKind,
    config: IsaConfig,
    i: int,
)
    requires
        guarded(p, config),
    ensures
        guarded(add_addresses(p, names, kind, config, i), config),
    decreases names.len() - i,
{
    if 0 <= i < names.len() {
        lemma_add_address_guarded(p, names[i]@, kind, config);
        lemma_add_addresses_guarded(
            add_address(p, names[i]@, kind, config),
            names,
            kind,
            config,
            i + 1,
        );
    }
}

/// Asking for differences adds to what the solver is told, and changes
/// nothing else.
proof fn lemma_add_differences(p: AddressPlanView, names: Seq<String>, i: int, j: int, def: DefView)
    ensures
        add_differences(p, names, i, j).vars == p.vars,
        p.defs.contains(def) ==> add_differences(p, names, i, j).defs.contains(def),
    decreases names.len() - i, names.len() - j,
{
    if 0 <= i < j < names.len() {
        let d = DefView::Assert(differ(sym_of(p.vars, names[i]@), sym_of(p.vars, names[j]@)));
        let q = AddressPlanView { defs: p.defs.push(d), ..p };
        if p.defs.contains(def) {
            let k = choose|k: int| 0 <= k < p.defs.len() && p.defs[k] == def;
            assert(q.defs[k] == def);
        }
        lemma_add_differences(q, names, i, j + 1, def);
    } else if 0 <= i < names.len() {
        lemma_add_differences(p, names, i + 1, i + 2, def);
    }
}

proof fn lemma_plan_guarded(
    constraints: Seq<Constraint>,
    config: IsaConfig,
    i: int,
    p: AddressPlanView,
)
    requires
        guarded(p, config),
    ensures
        guarded(address_plan(constraints, config, i, p), config),
    decreases constraints.len() - i,
{
    if 0 <= i < constraints.len() {
        match declaration(constraints[i]) {
            Some((names, kind)) => {
                lemma_add_addresses_guarded(p, names, kind, config, 0);
                let q = add_addresses(p, names, kind, config, 0);
                let after = add_differences(q, names, 0, 1);
                assert forall|k: int| #![trigger after.vars[k]] 0 <= k < after.vars.len() implies {
                    let w = after.vars[k].sym;
                    &&& after.defs.contains(
                        DefView::Assert(not_below(w, config.symbolic_addr_base)),
                    )
                    &&& after.defs.contains(DefView::Assert(below(w, config.symbolic_addr_top)))
                    &&& after.defs.contains(
                        DefView::Assert(aligned(w, config.symbolic_addr_stride)),
                    )
                } by {
                    lemma_add_differences(
                        q,
                        names,
                        0,
                        1,
                        DefView::Assert(
                            not_below(after.vars[k].sym, config.symbolic_addr_base),
                        ),
                    );
                    assert(after.vars[k] == q.vars[k]);
                    let w = q.vars[k].sym;
                    lemma_add_differences(
                        q,
                        names,
                        0,
                        1,
                        DefView::Assert(below(w, config.symbolic_addr_top)),
                    );
                    lemma_add_differences(
                        q,
                        names,
                        0,
                        1,
                        DefView::Assert(aligned(w, config.symbolic_addr_stride)),
                    );
                }
                lemma_plan_guarded(constraints, config, i + 1, after);
            },
            None => {
                lemma_plan_guarded(constraints, config, i + 1, p);
            },
        }
    }
}

/// What a word denotes, and the number that it stands for.
proof fn lemma_word(interp: Interp<Sym>, n: u64)
    ensures
        semantics::denote(interp, word(n)) == Value::Bits(bv::from_int(64, n as int)),
        bv::to_nat(bv::from_int(64, n as int)) == n,
{
    bv::lemma_to_nat_from_int(64, n as int);
    vstd::arithmetic::power2::lemma2_to64_rest();
    vstd::arithmetic::div_mod::lemma_small_mod(
        n as nat,
        vstd::arithmetic::power2::pow2(64),
    );
}

/// What a binary operator denotes.
proof fn lemma_binary(interp: Interp<Sym>, op: tree::Op, a: Tree<Sym>, b: Tree<Sym>)
    ensures
        semantics::denote(interp, solver::binary(op, a, b)) == semantics::apply(
            interp,
            op,
            seq![semantics::denote(interp, a), semantics::denote(interp, b)],
        ),
{
    assert(semantics::denote_all(interp, seq![a, b]) =~= seq![
        semantics::denote(interp, a),
        semantics::denote(interp, b),
    ]);
}

/// Whatever addresses the solver finds, each lies in the range of the
/// configuration, and has none of the bits of the number below the stride.
pub proof fn law_addresses_in_range(
    constraints: Seq<Constraint>,
    config: IsaConfig,
    interp: Interp<Sym>,
    k: int,
)
    requires
        satisfies(interp, address_plan(constraints, config, 0, empty_plan()).defs),
        0 <= k < address_plan(constraints, config, 0, empty_plan()).vars.len(),
        is_word(interp, address_plan(constraints, config, 0, empty_plan()).vars[k].sym),
    ensures
        ({
            let v = address_plan(constraints, config, 0, empty_plan()).vars[k].sym;
            let mask = bv::from_int(64, config.symbolic_addr_stride - 1);
            &&& config.symbolic_addr_base <= address_of(interp, v) < config.symbolic_addr_top
            &&& bv::bvand((interp.var)(v)->Bits_0, mask) == bv::from_int(64, 0)
        }),
{
    let p = address_plan(constraints, config, 0, empty_plan());
    lemma_plan_guarded(constraints, config, 0, empty_plan());
    let v = p.vars[k].sym;
    let s = (interp.var)(v)->Bits_0;
    let base = config.symbolic_addr_base;
    let top = config.symbolic_addr_top;
    let stride = config.symbolic_addr_stride;
    assert(p.defs.contains(DefView::Assert(not_below(v, base))));
    assert(p.defs.contains(DefView::Assert(below(v, top))));
    assert(p.defs.contains(DefView::Assert(aligned(v, stride))));
    assert(semantics::denote(interp, not_below(v, base)) == Value::Bool(true));
    assert(semantics::denote(interp, below(v, top)) == Value::Bool(true));
    assert(semantics::denote(interp, aligned(v, stride)) == Value::Bool(true));
    lemma_word(interp, base);
    lemma_word(interp, top);
    lemma_word(interp, stride);
    lemma_word(interp, 1);
    lemma_word(interp, 0);
    lemma_binary(interp, tree::Op::Bvuge, solver::var(v), word(base));
    lemma_binary(interp, tree::Op::Bvult, solver::var(v), word(top));
    let mask = solver::binary(tree::Op::Bvsub, word(stride), word(1));
    lemma_binary(interp, tree::Op::Bvsub, word(stride), word(1));
    lemma_binary(interp, tree::Op::Bvand, solver::var(v), mask);
    lemma_binary(
        interp,
        tree::Op::Eq,
        solver::binary(tree::Op::Bvand, solver::var(v), mask),
        word(0),
    );
    let bits = bv::from_int(64, stride - 1);
    assert(semantics::denote(interp, mask) == Value::Bits(bits));
    assert(semantics::denote(interp, solver::binary(tree::Op::Bvand, solver::var(v), mask))
        == Value::Bits(bv::bvand(s, bits)));
}

/// Whatever addresses the solver finds, each is a multiple of the stride if
/// that is a power of two.
pub proof fn law_addresses_are_aligned(
    constraints: Seq<Constraint>,
    config: IsaConfig,
    interp: Interp<Sym>,
    k: int,
    n: nat,
)
    requires
        satisfies(interp, address_plan(constraints, config, 0, empty_plan()).defs),
        0 <= k < address_plan(constraints, config, 0, empty_plan()).vars.len(),
        is_word(interp, address_plan(constraints, config, 0, empty_plan()).vars[k].sym),
        n < 64,
        config.symbolic_addr_stride == vstd::arithmetic::power2::pow2(n),
    ensures
        ({
            let v = address_plan(constraints, config, 0, empty_plan()).vars[k].sym;
            address_of(interp, v) % (config.symbolic_addr_stride as nat) == 0
        }),
{
    law_addresses_in_range(constraints, config, interp, k);
    let v = address_plan(constraints, config, 0, empty_plan()).vars[k].sym;
    bv::lemma_mask_multiple((interp.var)(v)->Bits_0, n);
}

/// Every pair from `i` and `j` on is told to differ.
proof fn lemma_differences(
    p: AddressPlanView,
    names: Seq<String>,
    i: int,
    j: int,
    a: int,
    b: int,
)
    requires
        0 <= a < b < names.len(),
        i < a || (i == a && j <= b),
        0 <= i < j,
    ensures
        add_differences(p, names, i, j).defs.contains(
            DefView::Assert(differ(sym_of(p.vars, names[a]@), sym_of(p.vars, names[b]@))),
        ),
    decreases names.len() - i, names.len() - j,
{
    if j < names.len() {
        let d = DefView::Assert(differ(sym_of(p.vars, names[i]@), sym_of(p.vars, names[j]@)));
        let q = AddressPlanView { defs: p.defs.push(d), ..p };
        if i == a && j == b {
            assert(q.defs[p.defs.len() as int] == d);
            lemma_add_differences(q, names, i, j + 1, d);
        } else {
            lemma_differences(q, names, i, j + 1, a, b);
        }
    } else {
        lemma_differences(p, names, i + 1, i + 2, a, b);
    }
}

/// Whatever addresses the solver finds, those of one declaration differ from
/// each other.
pub proof fn law_declared_addresses_differ(
    p: AddressPlanView,
    names: Seq<String>,
    kind: AddressKind,
    config: IsaConfig,
    interp: Interp<Sym>,
    a: int,
    b: int,
)
    requires
        satisfies(interp, add_declaration(p, names, kind, config).defs),
        0 <= a < b < names.len(),
    ensures
        ({
            let vars = add_declaration(p, names, kind, config).vars;
            (interp.var)(sym_of(vars, names[a]@)) != (interp.var)(sym_of(vars, names[b]@))
        }),
{
    let q = add_addresses(p, names, kind, config, 0);
    lemma_differences(q, names, 0, 1, a, b);
    let v = sym_of(q.vars, names[a]@);
    let w = sym_of(q.vars, names[b]@);
    let d = DefView::Assert(differ(v, w));
    lemma_add_differences(q, names, 0, 1, d);
    assert(semantics::denote(interp, differ(v, w)) == Value::Bool(true));
    lemma_binary(interp, tree::Op::Neq, solver::var(v), solver::var(w));
}

/// Whether an assignment gives a symbol an address that may be found: one in
/// the range of the configuration, with none of the bits of the number below
/// the stride.
pub open spec fn may_be_found(interp: Interp<Sym>, v: Sym, config: IsaConfig) -> bool {
    &&& is_word(interp, v)
    &&& config.symbolic_addr_base <= address_of(interp, v) < config.symbolic_addr_top
    &&& bv::bvand(
        (interp.var)(v)->Bits_0,
        bv::from_int(64, config.symbolic_addr_stride - 1),
    ) == bv::from_int(64, 0)
}

proof fn lemma_address_asks_no_more(
    p: AddressPlanView,
    name: Seq<char>,
    kind: AddressKind,
    config: IsaConfig,
    interp: Interp<Sym>,
)
    requires
        satisfies(interp, p.defs),
        may_be_found(interp, p.next, config),
    ensures
        satisfies(interp, add_address(p, name, kind, config).defs),
{
    let v = p.next;
    let s = (interp.var)(v)->Bits_0;
    let base = config.symbolic_addr_base;
    let top = config.symbolic_addr_top;
    let stride = config.symbolic_addr_stride;
    lemma_word(interp, base);
    lemma_word(interp, top);
    lemma_word(interp, stride);
    lemma_word(interp, 1);
    lemma_word(interp, 0);
    lemma_binary(interp, tree::Op::Bvuge, solver::var(v), word(base));
    lemma_binary(interp, tree::Op::Bvult, solver::var(v), word(top));
    let mask = solver::binary(tree::Op::Bvsub, word(stride), word(1));
    lemma_binary(interp, tree::Op::Bvsub, word(stride), word(1));
    lemma_binary(interp, tree::Op::Bvand, solver::var(v), mask);
    lemma_binary(
        interp,
        tree::Op::Eq,
        solver::binary(tree::Op::Bvand, solver::var(v), mask),
        word(0),
    );
    let bits = bv::from_int(64, stride - 1);
    assert(semantics::denote(interp, mask) == Value::Bits(bits));
    assert(semantics::denote(interp, not_below(v, base)) == Value::Bool(true));
    assert(semantics::denote(interp, below(v, top)) == Value::Bool(true));
    assert(semantics::denote(interp, aligned(v, stride)) == Value::Bool(true));
    let after = add_address(p, name, kind, config).defs;
    assert forall|t: Tree<Sym>| #[trigger] after.contains(DefView::Assert(t)) implies
        semantics::denote(interp, t) == Value::Bool(true) by {
        let k = choose|k: int| 0 <= k < after.len() && after[k] == DefView::Assert(t);
        if k < p.defs.len() {
            assert(p.defs[k] == DefView::Assert(t));
            assert(p.defs.contains(DefView::Assert(t)));
        }
    }
}

proof fn lemma_addresses_ask_no_more(
    p: AddressPlanView,
    names: Seq<String>,
    kind: AddressKind,
    config: IsaConfig,
    i: int,
    interp: Interp<Sym>,
)
    requires
        0 <= i <= names.len(),
        p.next + names.len() - i <= u32::MAX,
        satisfies(interp, p.defs),
        forall|v: Sym|
            p.next <= v < p.next + names.len() - i ==> #[trigger] may_be_found(interp, v, config),
    ensures
        satisfies(interp, add_addresses(p, names, kind, config, i).defs),
        add_addresses(p, names, kind, config, i).next == p.next + names.len() - i,
    decreases names.len() - i,
{
    if i < names.len() {
        assert(may_be_found(interp, p.next, config));
        lemma_address_asks_no_more(p, names[i]@, kind, config, interp);
        lemma_addresses_ask_no_more(
            add_address(p, names[i]@, kind, config),
            names,
            kind,
            config,
            i + 1,
            interp,
        );
    }
}

proof fn lemma_differences_ask_no_more(
    p: AddressPlanView,
    names: Seq<String>,
    i: int,
    j: int,
    interp: Interp<Sym>,
)
    requires
        0 <= i < j,
        satisfies(interp, p.defs),
        forall|a: int, b: int|
            0 <= a < b < names.len() ==> (interp.var)(sym_of(p.vars, (#[trigger] names[a])@)) != (
            interp.var)(sym_of(p.vars, (#[trigger] names[b])@)),
    ensures
        satisfies(interp, add_differences(p, names, i, j).defs),
    decreases names.len() - i, names.len() - j,
{
    if j < names.len() {
        let v = sym_of(p.vars, names[i]@);
        let w = sym_of(p.vars, names[j]@);
        let q = AddressPlanView { defs: p.defs.push(DefView::Assert(differ(v, w))), ..p };
        lemma_binary(interp, tree::Op::Neq, solver::var(v), solver::var(w));
        assert((interp.var)(v) != (interp.var)(w));
        assert forall|t: Tree<Sym>| #[trigger] q.defs.contains(DefView::Assert(t)) implies
            semantics::denote(interp, t) == Value::Bool(true) by {
            let k = choose|k: int| 0 <= k < q.defs.len() && q.defs[k] == DefView::Assert(t);
            if k < p.defs.len() {
                assert(p.defs[k] == DefView::Assert(t));
                assert(p.defs.contains(DefView::Assert(t)));
            }
        }
        lemma_differences_ask_no_more(q, names, i, j + 1, interp);
    } else if i < names.len() {
        lemma_differences_ask_no_more(p, names, i + 1, i + 2, interp);
    }
}

/// A declaration asks no more of addresses than that each may be found and
/// that they differ from each other: whatever addresses are such meet what the
/// solver is told.
pub proof fn law_declaration_asks_no_more(
    p: AddressPlanView,
    names: Seq<String>,
    kind: AddressKind,
    config: IsaConfig,
    interp: Interp<Sym>,
)
    requires
        p.next + names.len() <= u32::MAX,
        satisfies(interp, p.defs),
        forall|v: Sym|
            p.next <= v < p.next + names.len() ==> #[trigger] may_be_found(interp, v, config),
        forall|a: int, b: int|
            0 <= a < b < names.len() ==> {
                let vars = add_declaration(p, names, kind, config).vars;
                (interp.var)(sym_of(vars, (#[trigger] names[a])@)) != (interp.var)(
                    sym_of(vars, (#[trigger] names[b])@),
                )
            },
    ensures
        satisfies(interp, add_declaration(p, names, kind, config).defs),
{
    let q = add_addresses(p, names, kind, config, 0);
    lemma_addresses_ask_no_more(p, names, kind, config, 0, interp);
    lemma_add_differences(q, names, 0, 1, DefView::Assert(word(0)));
    lemma_differences_ask_no_more(q, names, 0, 1, interp);
}

/// Each address that is asked for has a symbol of its own, which is declared
/// as a word, and its variable has the kind that is asked for. Other variables
/// keep their symbols.
pub proof fn law_address_is_declared(
    p: AddressPlanView,
    name: Seq<char>,
    kind: AddressKind,
    config: IsaConfig,
    other: Seq<char>,
)
    requires
        p.next < u32::MAX,
        name != other,
    ensures
        ({
            let after = add_address(p, name, kind, config);
            let k = var_position(after.vars, name);
            &&& k < after.vars.len()
            &&& after.vars[k as int].name == name
            &&& after.vars[k as int].kind == kind
            &&& sym_of(after.vars, name) == p.next
            &&& after.next > p.next
            &&& after.defs.contains(DefView::DeclareConst(p.next, Ty::BitVec(64)))
            &&& var_position(p.vars, other) < p.vars.len() ==> {
                &&& var_position(after.vars, other) == var_position(p.vars, other)
                &&& sym_of(after.vars, other) == sym_of(p.vars, other)
            }
        }),
{
    let after = add_address(p, name, kind, config);
    lemma_var_position(p.vars, name);
    lemma_var_position(p.vars, other);
    let n = var_position(p.vars, name);
    lemma_var_position_is(after.vars, name, n);
    assert(after.defs[p.defs.len() as int] == DefView::DeclareConst(p.next, Ty::BitVec(64)));
    let m = var_position(p.vars, other);
    if m < p.vars.len() {
        assert forall|i: int| 0 <= i < m implies (#[trigger] after.vars[i]).name != other by {
            if i != n {
                assert(after.vars[i] == p.vars[i]);
            }
        }
        assert(m != n);
        assert(after.vars[m as int] == p.vars[m as int]);
        lemma_var_position_is(after.vars, other, m);
    }
}

} // verus!
