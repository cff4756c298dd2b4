//! What constraints on page tables are for.

use super::address::{self, AddressKind, AddressPlanView, AddressVarView, ModelValue};
use super::driver::{self, SetupActionView, SetupEvent, SetupStateView};
use super::setup::{self, AddressConstraint, Constraint, Conversion, EvalErrorView, Exp, MapOp, PageAttrs, SelfMapping, Stage, TableConstraint, TablePlanView, Val, Walk};
use super::IsaConfig;
use crate::bv;
use crate::executor::solver::SmtResult;
use vstd::prelude::*;

verus! {

/// The tables that translate an address, if there are any.
pub open spec fn translated_by(addr: Val) -> Option<Stage> {
    match addr {
        Val::VA(_) => Some(Stage::One),
        Val::IPA(_) => Some(Stage::Two),
        _ => None,
    }
}

/// Whether an address can be what another one is translated to: a virtual
/// address is translated to an intermediate or to a physical one, and an
/// intermediate address to a physical one.
pub open spec fn translates(from: Val, to: Val) -> bool {
    from is VA && (to is IPA || to is PA) || from is IPA && to is PA
}

/// The bits of an address.
pub open spec fn bits(addr: Val) -> u64 {
    match addr {
        Val::VA(va) => va.bits,
        Val::IPA(ipa) => ipa.bits,
        Val::PA(pa) => pa,
        _ => 0,
    }
}

/// Whether an operation makes a page be translated for certain, in the tables
/// of a stage and from their top level table.
pub open spec fn maps(op: MapOp, stage: Stage, from: u64, to: u64) -> bool {
    op matches MapOp::MapPage { tables, root, from: f, to: t, attrs } && tables == stage && root
        == stage && f.bits == from && t == to && attrs == PageAttrs::Default(Stage::One)
}

/// Whether an operation lets a page be translated, or keep what it had.
pub open spec fn may_map(op: MapOp, stage: Stage, from: u64, to: u64) -> bool {
    op matches MapOp::MaybeMapPage { tables, root, from: f, to: t, attrs } && tables == stage
        && root == stage && f.bits == from && t == to && attrs == PageAttrs::Default(Stage::One)
}

/// Whether an operation maps an address to itself at the second stage.
pub open spec fn keeps_physical(op: MapOp, addr: u64) -> bool {
    op matches MapOp::IdentityMap { tables, root, addr: a, attrs } && tables == Stage::Two && root
        == Stage::Two && a == addr && attrs == PageAttrs::Default(Stage::Two)
}

/// A constraint that an address is mapped to another makes exactly one page
/// be translated: from the first address to the second, in the tables that
/// translate the first. No mapping is left open. Only if that skips the second
/// stage, the second address is mapped to itself there.
pub proof fn law_maps_to(from: Exp, to: Exp, vars: Map<Seq<char>, Val>)
    requires
        setup::eval(from, vars) is Ok,
        setup::eval(to, vars) is Ok,
    ensures
        ({
            let (a, b) = (setup::eval(from, vars)->Ok_0, setup::eval(to, vars)->Ok_0);
            let r = setup::table_ops(TableConstraint::MapsTo(from, to), vars);
            &&& r is Ok <==> translates(a, b)
            &&& r matches Ok(ops) ==> {
                &&& ops.len() == if a is VA && b is PA {
                    2nat
                } else {
                    1nat
                }
                &&& maps(ops[0], translated_by(a)->0, bits(a), bits(b))
                &&& forall|i: int|
                    0 < i < ops.len() ==> keeps_physical(#[trigger] ops[i], bits(b))
            }
        }),
{
}

/// A constraint that an address may be mapped to another asks for no definite
/// mapping: no page is mapped for certain, and exactly one may be, which then
/// leads from the first address to the second, in the tables that serve the
/// first. If the second address is the invalid one, the page of
/// the first may be invalid, and nothing else is asked for.
pub proof fn law_maybe_maps_to(from: Exp, to: Exp, vars: Map<Seq<char>, Val>)
    requires
        setup::eval(from, vars) is Ok,
        setup::eval(to, vars) is Ok,
    ensures
        ({
            let (a, b) = (setup::eval(from, vars)->Ok_0, setup::eval(to, vars)->Ok_0);
            let r = setup::table_ops(TableConstraint::MaybeMapsTo(from, to), vars);
            &&& r is Ok <==> translates(a, b) || (translated_by(a) is Some && b is Invalid)
            &&& r matches Ok(ops) ==> {
                &&& forall|i: int| 0 <= i < ops.len() ==> !((#[trigger] ops[i]) is MapPage)
                &&& translates(a, b) ==> {
                    &&& ops.len() == if a is VA && b is PA {
                        2nat
                    } else {
                        1nat
                    }
                    &&& may_map(ops[0], translated_by(a)->0, bits(a), bits(b))
                    &&& forall|i: int|
                        0 < i < ops.len() ==> keeps_physical(#[trigger] ops[i], bits(b))
                }
                &&& b is Invalid ==> {
                    &&& ops.len() == 1
                    &&& ops[0] matches MapOp::MaybeInvalid { tables, root, from: f } && f.bits
                        == bits(a) && Some(tables) == translated_by(a) && Some(root)
                        == translated_by(a)
                }
            }
        }),
{
}

/// An operation that leaves open whether a page is translated, in place of
/// one that does not.
pub open spec fn left_open(op: MapOp) -> MapOp {
    match op {
        MapOp::MapPage { tables, root, from, to, attrs } => MapOp::MaybeMapPage {
            tables,
            root,
            from,
            to,
            attrs,
        },
        op => op,
    }
}

/// That an address may be mapped to another asks for the same as that it is,
/// with the mapping left open.
pub proof fn law_maybe_is_left_open(from: Exp, to: Exp, vars: Map<Seq<char>, Val>)
    requires
        setup::table_ops(TableConstraint::MapsTo(from, to), vars) is Ok,
    ensures
        ({
            let certain = setup::table_ops(TableConstraint::MapsTo(from, to), vars);
            let open = setup::table_ops(TableConstraint::MaybeMapsTo(from, to), vars);
            &&& open is Ok
            &&& open->Ok_0 == certain->Ok_0.map_values(|op: MapOp| left_open(op))
        }),
{
    let certain = setup::table_ops(TableConstraint::MapsTo(from, to), vars)->Ok_0;
    let open = setup::table_ops(TableConstraint::MaybeMapsTo(from, to), vars)->Ok_0;
    assert(open =~= certain.map_values(|op: MapOp| left_open(op)));
}

/// A constraint that an address is mapped to itself asks for that and nothing
/// else, at every stage that the address goes through: at both for a virtual
/// one, at the second for an intermediate one.
pub proof fn law_identity_map(exp: Exp, vars: Map<Seq<char>, Val>)
    requires
        setup::eval(exp, vars) is Ok,
    ensures
        ({
            let addr = setup::eval(exp, vars)->Ok_0;
            let r = setup::table_ops(TableConstraint::IdentityMap(exp), vars);
            &&& r is Ok <==> translated_by(addr) is Some
            &&& r matches Ok(ops) ==> {
                &&& forall|i: int|
                    0 <= i < ops.len() ==> ((#[trigger] ops[i]) matches MapOp::IdentityMap {
                        tables,
                        root,
                        addr: a,
                        attrs,
                    } && a == bits(addr) && root == Stage::Two && attrs == PageAttrs::Default(
                        Stage::Two,
                    ))
                &&& keeps_physical(ops.last(), bits(addr))
                &&& ops.len() == if addr is VA {
                    2nat
                } else {
                    1nat
                }
                &&& addr is VA ==> ops[0]->IdentityMap_tables == Stage::One
            }
        }),
{
}

/// If what a constraint speaks of has no value, the constraint fails with the
/// error that says so, the first of its two expressions first.
pub proof fn law_table_constraint_errors(from: Exp, to: Exp, vars: Map<Seq<char>, Val>, e: EvalErrorView)
    ensures
        setup::eval(from, vars) == Err::<Val, EvalErrorView>(e) ==> {
            &&& setup::table_ops(TableConstraint::IdentityMap(from), vars) == Err::<
                Seq<MapOp>,
                EvalErrorView,
            >(e)
            &&& setup::table_ops(TableConstraint::MapsTo(from, to), vars) == Err::<
                Seq<MapOp>,
                EvalErrorView,
            >(e)
            &&& setup::table_ops(TableConstraint::MaybeMapsTo(from, to), vars) == Err::<
                Seq<MapOp>,
                EvalErrorView,
            >(e)
        },
        setup::eval(from, vars) is Ok && setup::eval(to, vars) == Err::<Val, EvalErrorView>(e)
            ==> {
            &&& setup::table_ops(TableConstraint::MapsTo(from, to), vars) == Err::<
                Seq<MapOp>,
                EvalErrorView,
            >(e)
            &&& setup::table_ops(TableConstraint::MaybeMapsTo(from, to), vars) == Err::<
                Seq<MapOp>,
                EvalErrorView,
            >(e)
        },
{
}

/// A plan that has failed stays as it is, and a plan that has not goes on
/// with one more constraint: what that asks of the tables comes behind what
/// the others ask, what it says of the initial contents behind what the others
/// say, as the address and then the value.
pub proof fn law_plan_goes_on(constraints: Seq<Constraint>, c: Constraint, vars: Map<Seq<char>, Val>)
    ensures
        ({
            let before = setup::table_plan(constraints, vars, 0, seq![], seq![]);
            let after = setup::table_plan(constraints.push(c), vars, 0, seq![], seq![]);
            &&& before.end is Err ==> after == before
            &&& before.end matches Ok(initials) ==> match c {
                Constraint::Address(_) => after == before,
                Constraint::Table(tc) => match setup::table_ops(tc, vars) {
                    Ok(more) => after.ops == before.ops + more && after.end == before.end,
                    Err(e) => after.ops == before.ops && after.end == Err::<
                        Seq<(Val, Val)>,
                        EvalErrorView,
                    >(e),
                },
                Constraint::Initial(addr, value) => {
                    &&& after.ops == before.ops
                    &&& after.end is Ok <==> setup::eval(addr, vars) is Ok && setup::eval(
                        value,
                        vars,
                    ) is Ok
                    &&& after.end matches Ok(all) ==> {
                        &&& all.len() == initials.len() + 1
                        &&& all.drop_last() == initials
                        &&& all.last().0 == setup::eval(addr, vars)->Ok_0
                        &&& all.last().1 == setup::eval(value, vars)->Ok_0
                    }
                },
            }
        }),
{
    lemma_plan_extend(constraints, c, vars, 0, seq![], seq![]);
    reveal_with_fuel(setup::table_plan, 3);
    assert(constraints.push(c)[constraints.len() as int] == c);
    let before = setup::table_plan(constraints, vars, 0, seq![], seq![]);
    if let Ok(initials) = before.end {
        if let Constraint::Initial(addr, value) = c {
            let pair = (setup::eval(addr, vars)->Ok_0, setup::eval(value, vars)->Ok_0);
            assert(initials.push(pair).drop_last() =~= initials);
        }
    }
}

proof fn lemma_plan_extend(
    constraints: Seq<Constraint>,
    c: Constraint,
    vars: Map<Seq<char>, Val>,
    i: int,
    ops: Seq<MapOp>,
    initials: Seq<(Val, Val)>,
)
    requires
        0 <= i <= constraints.len(),
    ensures
        ({
            let before = setup::table_plan(constraints, vars, i, ops, initials);
            let after = setup::table_plan(constraints.push(c), vars, i, ops, initials);
            let n = constraints.len() as int;
            &&& before.end is Err ==> after == before
            &&& before.end matches Ok(all) ==> after == setup::table_plan(
                constraints.push(c),
                vars,
                n,
                before.ops,
                all,
            )
        }),
    decreases constraints.len() - i,
{
    let more = constraints.push(c);
    if i < constraints.len() {
        assert(more[i] == constraints[i]);
        match constraints[i] {
            Constraint::Address(_) => lemma_plan_extend(constraints, c, vars, i + 1, ops, initials),
            Constraint::Table(tc) => {
                if let Ok(next) = setup::table_ops(tc, vars) {
                    lemma_plan_extend(constraints, c, vars, i + 1, ops + next, initials);
                }
            },
            Constraint::Initial(addr, exp) => {
                if let Ok(addr) = setup::eval(addr, vars) {
                    if let Ok(val) = setup::eval(exp, vars) {
                        lemma_plan_extend(
                            constraints,
                            c,
                            vars,
                            i + 1,
                            ops,
                            initials.push((addr, val)),
                        );
                    }
                }
            },
        }
    }
}

/// Without constraints nothing is asked for.
pub proof fn law_empty_plan(vars: Map<Seq<char>, Val>)
    ensures
        setup::table_plan(seq![], vars, 0, seq![], seq![]) == (TablePlanView {
            ops: seq![],
            end: Ok(seq![]),
        }),
{
}

/// A variable has the value that it was given, and a number has itself as its
/// value. A name that was given no value has none.
pub proof fn law_variables_and_numbers(name: String, n: i128, vars: Map<Seq<char>, Val>)
    ensures
        setup::eval(Exp::I128(n), vars) == Ok::<Val, EvalErrorView>(Val::I128(n)),
        vars.dom().contains(name@) ==> setup::eval(Exp::Id(name), vars) == Ok::<
            Val,
            EvalErrorView,
        >(vars[name@]),
        !vars.dom().contains(name@) ==> setup::eval(Exp::Id(name), vars) == Err::<
            Val,
            EvalErrorView,
        >(EvalErrorView::VariableNotFound(name@)),
{
}

/// The kind of address that a conversion takes, and the kind that it gives.
pub open spec fn takes(f: Conversion, v: Val) -> bool {
    match f {
        Conversion::VaToPa | Conversion::VaToIpa => v is VA,
        Conversion::PaToVa | Conversion::PaToIpa => v is PA,
        Conversion::IpaToVa | Conversion::IpaToPa => v is IPA,
    }
}

pub open spec fn gives(f: Conversion, v: Val) -> bool {
    match f {
        Conversion::PaToVa | Conversion::IpaToVa => v is VA,
        Conversion::VaToPa | Conversion::IpaToPa => v is PA,
        Conversion::VaToIpa | Conversion::PaToIpa => v is IPA,
    }
}

/// A conversion takes addresses of one kind, gives addresses of another, and
/// keeps the address.
pub proof fn law_conversions_keep_the_address(f: Conversion, v: Val)
    ensures
        f.spec_convert(v) is Some <==> takes(f, v),
        f.spec_convert(v) matches Some(u) ==> gives(f, u) && bits(u) == bits(v),
{
}

/// A conversion has the name that says what it does, and no other.
pub proof fn law_conversion_names(name: Seq<char>, f: Conversion)
    ensures
        Conversion::named(name) == Some(f) <==> name == match f {
            Conversion::VaToPa => "va_to_pa"@,
            Conversion::PaToVa => "pa_to_va"@,
            Conversion::IpaToVa => "ipa_to_va"@,
            Conversion::VaToIpa => "va_to_ipa"@,
            Conversion::PaToIpa => "pa_to_ipa"@,
            Conversion::IpaToPa => "ipa_to_pa"@,
        },
        Conversion::named(f.spec_name()@) == Some(f),
{
    reveal_strlit("va_to_pa");
    reveal_strlit("pa_to_va");
    reveal_strlit("ipa_to_va");
    reveal_strlit("va_to_ipa");
    reveal_strlit("pa_to_ipa");
    reveal_strlit("ipa_to_pa");
    assert("va_to_pa"@.len() == 8 && "pa_to_va"@.len() == 8);
    assert("ipa_to_va"@.len() == 9 && "va_to_ipa"@.len() == 9);
    assert("pa_to_ipa"@.len() == 9 && "ipa_to_pa"@.len() == 9);
    assert("va_to_pa"@[0] != "pa_to_va"@[0]);
    assert("va_to_ipa"@[0] != "pa_to_ipa"@[0]);
    assert("va_to_ipa"@[0] != "ipa_to_va"@[0]);
    assert("va_to_ipa"@[0] != "ipa_to_pa"@[0]);
    assert("pa_to_ipa"@[0] != "ipa_to_va"@[0]);
    assert("pa_to_ipa"@[0] != "ipa_to_pa"@[0]);
    assert("ipa_to_va"@[7] != "ipa_to_pa"@[7]);
}

/// As many values come out of an evaluation as went in.
proof fn lemma_eval_all_len(exps: Seq<Exp>, vars: Map<Seq<char>, Val>, i: int, done: Seq<Val>)
    requires
        0 <= i <= exps.len(),
        done.len() == i,
    ensures
        setup::eval_all(exps, vars, i, done) matches Ok(vals) ==> vals.len() == exps.len(),
    decreases exps.len() - i,
{
    if i < exps.len() {
        if let Ok(v) = setup::eval(exps[i], vars) {
            lemma_eval_all_len(exps, vars, i + 1, done.push(v));
        }
    }
}

/// A conversion in an expression is applied to the value of its argument, of
/// which it has exactly one.
pub proof fn law_conversion_applied(
    f: Conversion,
    name: String,
    args: Vec<Exp>,
    vars: Map<Seq<char>, Val>,
)
    requires
        name@ == f.spec_name()@,
    ensures
        args@.len() != 1 ==> setup::eval(Exp::App(name, args), vars) is Err,
        args@.len() == 1 ==> {
            let r = setup::eval(Exp::App(name, args), vars);
            let arg = setup::eval(args@[0], vars);
            &&& r is Ok <==> arg is Ok && takes(f, arg->Ok_0)
            &&& r matches Ok(u) ==> gives(f, u) && bits(u) == bits(arg->Ok_0)
            &&& arg matches Err(e) ==> r == Err::<Val, EvalErrorView>(e)
        },
{
    law_conversion_names(name@, f);
    lemma_eval_all_len(args@, vars, 0, seq![]);
    if args@.len() == 1 {
        if let Ok(v) = setup::eval(args@[0], vars) {
            assert(setup::eval_all(args@, vars, 1, seq![v]) == Ok::<Seq<Val>, EvalErrorView>(
                seq![v],
            ));
            assert(Seq::<Val>::empty().push(v) =~= seq![v]);
        }
    }
}

/// Addresses stand for their bits, numbers for themselves as far as they are
/// words, and the invalid address for zero.
pub proof fn law_numbers(v: Val)
    ensures
        v is VA || v is IPA || v is PA ==> setup::number(v) == Ok::<u64, EvalErrorView>(bits(v)),
        v matches Val::I128(n) ==> {
            &&& setup::number(v) is Ok <==> 0 <= n <= u64::MAX
            &&& setup::number(v) matches Ok(k) ==> k == n
        },
        v is Invalid ==> setup::number(v) == Ok::<u64, EvalErrorView>(0),
{
}

/// The contents of an address are at the physical address that it is
/// translated to: a physical address is its own, and the others are found by a
/// walk through all stages that are left to go. What is not an address has
/// none.
pub proof fn law_physical_addresses(addr: Val, walk: Result<u64, String>)
    ensures
        setup::walk_of(addr) == match translated_by(addr) {
            Some(Stage::One) => Some(Walk::Both(bits(addr))),
            Some(Stage::Two) => Some(Walk::Second(bits(addr))),
            None => None,
        },
        addr is PA ==> setup::physical(addr, walk) == Ok::<u64, EvalErrorView>(bits(addr)),
        translated_by(addr) is Some ==> match walk {
            Ok(pa) => setup::physical(addr, walk) == Ok::<u64, EvalErrorView>(pa),
            Err(e) => setup::physical(addr, walk) == Err::<u64, EvalErrorView>(
                EvalErrorView::WalkError(e@),
            ),
        },
        addr is Invalid || addr is I128 ==> setup::physical(addr, walk) is Err,
{
}

/// One more initial value is put at its physical address, on top of what the
/// others have put there.
pub proof fn law_contents_go_on(
    constraints: Seq<(Val, Val)>,
    walks: Seq<Result<u64, String>>,
    addr: Val,
    value: Val,
    walk: Result<u64, String>,
)
    requires
        walks.len() == constraints.len(),
    ensures
        ({
            let before = setup::initial_contents(constraints, walks, 0, Map::empty());
            let after = setup::initial_contents(
                constraints.push((addr, value)),
                walks.push(walk),
                0,
                Map::empty(),
            );
            let (pa, n) = (setup::physical(addr, walk), setup::number(value));
            &&& after is Ok <==> before is Ok && pa is Ok && n is Ok
            &&& after matches Ok(m) ==> {
                &&& m.dom() == before->Ok_0.dom().insert(pa->Ok_0)
                &&& m[pa->Ok_0] == n->Ok_0
                &&& forall|other: u64|
                    other != pa->Ok_0 && #[trigger] m.dom().contains(other) ==> m[other]
                        == before->Ok_0[other]
            }
        }),
{
    lemma_contents_extend(constraints, walks, addr, value, walk, 0, Map::empty());
}

proof fn lemma_contents_extend(
    constraints: Seq<(Val, Val)>,
    walks: Seq<Result<u64, String>>,
    addr: Val,
    value: Val,
    walk: Result<u64, String>,
    i: int,
    m: Map<u64, u64>,
)
    requires
        walks.len() == constraints.len(),
        0 <= i <= constraints.len(),
    ensures
        ({
            let before = setup::initial_contents(constraints, walks, i, m);
            let after = setup::initial_contents(
                constraints.push((addr, value)),
                walks.push(walk),
                i,
                m,
            );
            let (pa, n) = (setup::physical(addr, walk), setup::number(value));
            &&& before is Err ==> after is Err
            &&& before is Ok && (pa is Err || n is Err) ==> after is Err
            &&& before is Ok && pa is Ok && n is Ok ==> after == Ok::<Map<u64, u64>, EvalErrorView>(
                before->Ok_0.insert(pa->Ok_0, n->Ok_0),
            )
        }),
    decreases constraints.len() - i,
{
    let more = constraints.push((addr, value));
    let more_walks = walks.push(walk);
    if i < constraints.len() {
        assert(more[i] == constraints[i] && more_walks[i] == walks[i]);
        if let Ok(pa) = setup::physical(constraints[i].0, walks[i]) {
            if let Ok(n) = setup::number(constraints[i].1) {
                lemma_contents_extend(
                    constraints,
                    walks,
                    addr,
                    value,
                    walk,
                    i + 1,
                    m.insert(pa, n),
                );
            }
        }
    } else {
        assert(more[i] == (addr, value) && more_walks[i] == walk);
        if setup::physical(addr, walk) is Ok && setup::number(value) is Ok {
            assert(setup::initial_contents(
                more,
                more_walks,
                i + 1,
                m.insert(setup::physical(addr, walk)->Ok_0, setup::number(value)->Ok_0),
            ) is Ok);
        }
    }
}

/// The code of each thread is mapped to itself at both stages, one page after
/// the other from where the code begins, as code.
pub proof fn law_code_is_mapped(config: IsaConfig, n: nat, i: int)
    requires
        0 <= i < n,
    ensures
        ({
            let ops = setup::code_ops(config, n);
            let page = (config.thread_base + i * config.page_size) as u64;
            &&& ops.len() == 2 * n
            &&& ops[2 * i] == (MapOp::IdentityMap {
                tables: Stage::One,
                root: Stage::One,
                addr: page,
                attrs: PageAttrs::Code(Stage::One),
            })
            &&& ops[2 * i + 1] == (MapOp::IdentityMap {
                tables: Stage::Two,
                root: Stage::Two,
                addr: page,
                attrs: PageAttrs::Code(Stage::Two),
            })
        }),
    decreases n,
{
    if i < n - 1 {
        law_code_is_mapped(config, (n - 1) as nat, i);
    } else if n > 1 {
        law_code_is_mapped(config, (n - 1) as nat, 0);
    } else {
        assert(setup::code_ops(config, 0).len() == 0);
    }
}

/// The tables of the second stage are mapped into the second stage page by
/// page, up to where they end by then, and only then the tables of the first
/// stage into both. Each step maps the page that it has come to.
pub proof fn law_tables_map_themselves(
    progress: SelfMapping,
    config: IsaConfig,
    s1_end: u64,
    s2_end: u64,
)
    ensures
        ({
            let (next, ops) = progress.spec_next(config, s1_end, s2_end);
            match progress {
                SelfMapping::StageTwo(page) => {
                    &&& page < s2_end <==> next is StageTwo
                    &&& page < s2_end ==> {
                        &&& ops.len() == 1 && keeps_physical(ops[0], page)
                        &&& page + config.s2_page_size <= u64::MAX ==> next->StageTwo_0 == page
                            + config.s2_page_size
                    }
                    &&& page >= s2_end ==> ops.len() == 0 && next == SelfMapping::StageOne(
                        config.page_table_base,
                    )
                },
                SelfMapping::StageOne(page) => {
                    &&& page < s1_end <==> next is StageOne
                    &&& page < s1_end ==> {
                        &&& ops.len() == 2
                        &&& ops[0] == (MapOp::IdentityMap {
                            tables: Stage::One,
                            root: Stage::One,
                            addr: page,
                            attrs: PageAttrs::Default(Stage::One),
                        })
                        &&& keeps_physical(ops[1], page)
                        &&& page + config.page_size <= u64::MAX ==> next->StageOne_0 == page
                            + config.page_size
                    }
                    &&& page >= s1_end ==> ops.len() == 0 && next is Done
                },
                SelfMapping::Done => next is Done && ops.len() == 0,
            }
        }),
{
}

/// Besides the variables that are given, the name `invalid` stands for the
/// invalid address.
pub proof fn law_initial_variables(
    vars: Map<Seq<char>, Val>,
    num_threads: usize,
    constraints: Seq<Constraint>,
    config: IsaConfig,
    name: Seq<char>,
)
    ensures
        ({
            let initial = setup::initial_setup(vars, num_threads, constraints, config).vars;
            &&& initial.dom().contains("invalid"@) && initial["invalid"@] == Val::Invalid
            &&& name != "invalid"@ ==> {
                &&& initial.dom().contains(name) <==> vars.dom().contains(name)
                &&& vars.dom().contains(name) ==> initial[name] == vars[name]
            }
        }),
{
}

/// Only addresses that the solver has found to be possible are taken up.
pub proof fn law_no_addresses_without_a_model(
    p: AddressPlanView,
    verdict: SmtResult,
    values: Seq<ModelValue>,
    m: Map<Seq<char>, Val>,
)
    ensures
        address::found_addresses(p, verdict, values, m) is Ok ==> verdict == SmtResult::Sat && forall|
            k: int,
        |
            0 <= k < p.vars.len() ==> (#[trigger] values[k]) is Bits,
{
    if verdict == SmtResult::Sat {
        lemma_all_bits(p.vars, values, 0, m);
    }
}

proof fn lemma_all_bits(
    vars: Seq<AddressVarView>,
    values: Seq<ModelValue>,
    i: int,
    m: Map<Seq<char>, Val>,
)
    requires
        0 <= i <= vars.len(),
    ensures
        address::insert_addresses(vars, values, i, m) is Ok ==> forall|k: int|
            i <= k < vars.len() ==> (#[trigger] values[k]) is Bits,
    decreases vars.len() - i,
{
    if i < vars.len() {
        if let ModelValue::Bits(b) = values[i] {
            lemma_all_bits(
                vars,
                values,
                i + 1,
                m.insert(vars[i].name, vars[i].kind.spec_value(bv::to_nat(b@) as u64)),
            );
        }
    }
}

/// An address that has been found is the value of its variable, as an address
/// of the kind that was declared: with the bits that the model gives to it.
/// Everything else keeps its value.
pub proof fn law_found_addresses(
    p: AddressPlanView,
    values: Seq<ModelValue>,
    m: Map<Seq<char>, Val>,
    k: int,
    name: Seq<char>,
)
    requires
        address::found_addresses(p, SmtResult::Sat, values, m) is Ok,
        0 <= k < p.vars.len(),
        forall|i: int, j: int|
            0 <= i < j < p.vars.len() ==> (#[trigger] p.vars[i]).name != (#[trigger] p.vars[j]).name,
        values[k] matches ModelValue::Bits(b) ==> b@.len() <= 64,
    ensures
        ({
            let found = address::found_addresses(p, SmtResult::Sat, values, m)->Ok_0;
            let v = found[p.vars[k].name];
            &&& values[k] is Bits
            &&& found.dom().contains(p.vars[k].name)
            &&& bits(v) == bv::to_nat(values[k]->Bits_0@)
            &&& match p.vars[k].kind {
                AddressKind::Virtual => v is VA,
                AddressKind::Intermediate => v is IPA,
                AddressKind::Physical => v is PA,
            }
            &&& (forall|j: int| 0 <= j < p.vars.len() ==> (#[trigger] p.vars[j]).name != name) ==> {
                &&& found.dom().contains(name) <==> m.dom().contains(name)
                &&& m.dom().contains(name) ==> found[name] == m[name]
            }
        }),
{
    law_no_addresses_without_a_model(p, SmtResult::Sat, values, m);
    lemma_inserted(p.vars, values, 0, m, k);
    if forall|j: int| 0 <= j < p.vars.len() ==> (#[trigger] p.vars[j]).name != name {
        lemma_not_inserted(p.vars, values, 0, m, name);
    }
    let b = values[k]->Bits_0@;
    bv::lemma_to_nat_bound(b);
    vstd::arithmetic::power2::lemma2_to64_rest();
    if b.len() < 64 {
        vstd::arithmetic::power2::lemma_pow2_strictly_increases(b.len(), 64);
    }
}

proof fn lemma_inserted(
    vars: Seq<AddressVarView>,
    values: Seq<ModelValue>,
    i: int,
    m: Map<Seq<char>, Val>,
    k: int,
)
    requires
        0 <= i <= k < vars.len(),
        address::insert_addresses(vars, values, i, m) is Ok,
        forall|i: int, j: int|
            0 <= i < j < vars.len() ==> (#[trigger] vars[i]).name != (#[trigger] vars[j]).name,
    ensures
        ({
            let found = address::insert_addresses(vars, values, i, m)->Ok_0;
            &&& found.dom().contains(vars[k].name)
            &&& found[vars[k].name] == vars[k].kind.spec_value(
                bv::to_nat(values[k]->Bits_0@) as u64,
            )
        }),
    decreases vars.len() - i,
{
    let b = values[i]->Bits_0;
    let next = m.insert(vars[i].name, vars[i].kind.spec_value(bv::to_nat(b@) as u64));
    if i < k {
        lemma_inserted(vars, values, i + 1, next, k);
    } else {
        lemma_not_inserted(vars, values, i + 1, next, vars[k].name);
    }
}

proof fn lemma_not_inserted(
    vars: Seq<AddressVarView>,
    values: Seq<ModelValue>,
    i: int,
    m: Map<Seq<char>, Val>,
    name: Seq<char>,
)
    requires
        0 <= i <= vars.len(),
        address::insert_addresses(vars, values, i, m) is Ok,
        forall|j: int| i <= j < vars.len() ==> (#[trigger] vars[j]).name != name,
    ensures
        ({
            let found = address::insert_addresses(vars, values, i, m)->Ok_0;
            &&& found.dom().contains(name) <==> m.dom().contains(name)
            &&& m.dom().contains(name) ==> found[name] == m[name]
        }),
    decreases vars.len() - i,
{
    if i < vars.len() {
        let b = values[i]->Bits_0;
        let next = m.insert(vars[i].name, vars[i].kind.spec_value(bv::to_nat(b@) as u64));
        lemma_not_inserted(vars, values, i + 1, next, name);
    }
}

/// A declaration declares addresses of the kind that it says.
pub proof fn law_declared_kinds(names: Vec<String>)
    ensures
        ({
            let c = Constraint::Address(AddressConstraint::Virtual(names));
            address::declaration(c) matches Some((n, kind)) && n == names@ && forall|b: u64|
                #[trigger] kind.spec_value(b) is VA
        }),
        ({
            let c = Constraint::Address(AddressConstraint::Intermediate(names));
            address::declaration(c) matches Some((n, kind)) && n == names@ && forall|b: u64|
                #[trigger] kind.spec_value(b) is IPA
        }),
        ({
            let c = Constraint::Address(AddressConstraint::Physical(names));
            address::declaration(c) matches Some((n, kind)) && n == names@ && forall|b: u64|
                #[trigger] kind.spec_value(b) is PA
        }),
{
}

/// What is to be done with the tables is what the setup asks for: first the
/// code is mapped; when addresses have been found, the constraints are carried
/// out with the variables that stand for them; and only if all of that
/// succeeds, the setup goes on with what the constraints say of the contents.
pub proof fn law_setup_does_what_is_asked(
    prepared: setup::PageTableSetupView,
    plan: TablePlanView,
    event: SetupEvent,
    constraints: Seq<Constraint>,
    config: IsaConfig,
)
    ensures
        driver::next_step(SetupStateView::Creating(prepared), event, constraints, config).1
            == SetupActionView::MapCode(prepared.code_ops),
        event matches SetupEvent::Found(verdict, values) ==> {
            let found = address::found_addresses(
                prepared.addresses,
                verdict,
                values@,
                prepared.vars,
            );
            let (next, action) = driver::next_step(
                SetupStateView::FindingAddresses(prepared),
                event,
                constraints,
                config,
            );
            &&& found matches Err(e) ==> next is Ended && action == SetupActionView::Fail(e)
            &&& found matches Ok(vars) ==> action == SetupActionView::MapTables(
                setup::table_plan(constraints, vars, 0, seq![], seq![]).ops,
            )
        },
        event matches SetupEvent::Mapped(succeeded) ==> {
            let (next, action) = driver::next_step(
                SetupStateView::MappingTables(plan),
                event,
                constraints,
                config,
            );
            &&& succeeded < plan.ops.len() ==> next is Ended && action == SetupActionView::Fail(
                EvalErrorView::MappingFailure,
            )
            &&& succeeded >= plan.ops.len() ==> match plan.end {
                Err(e) => next is Ended && action == SetupActionView::Fail(e),
                Ok(initials) => next matches SetupStateView::MappingThemselves {
                    progress,
                    initials: kept,
                } && kept == initials && progress == SelfMapping::StageTwo(
                    config.s2_page_table_base,
                ),
            }
        },
{
}

/// Once no table is left to be mapped into itself, the tables of the first
/// stage become a region of memory and then those of the second; after that
/// the initial contents that were kept are looked up from the first on.
pub proof fn law_regions_and_contents(
    progress: SelfMapping,
    initials: Seq<(Val, Val)>,
    s1_end: u64,
    s2_end: u64,
    constraints: Seq<Constraint>,
    config: IsaConfig,
)
    ensures
        ({
            let (left, ops) = progress.spec_next(config, s1_end, s2_end);
            let (next, action) = driver::next_step(
                SetupStateView::MappingThemselves { progress, initials },
                SetupEvent::Ends { s1_end, s2_end },
                constraints,
                config,
            );
            let first = SetupStateView::AddingRegion { stage: Stage::One, initials };
            let second = SetupStateView::AddingRegion { stage: Stage::Two, initials };
            &&& left is Done ==> next == first && action == SetupActionView::AddRegion(Stage::One)
            &&& !(left is Done) ==> {
                &&& next == (SetupStateView::MappingThemselves { progress: left, initials })
                &&& action == SetupActionView::MapThemselves(ops)
            }
            &&& driver::next_step(first, SetupEvent::RegionAdded, constraints, config) == (
                second,
                SetupActionView::AddRegion(Stage::Two),
            )
            &&& initials.len() == 0 ==> driver::next_step(
                second,
                SetupEvent::RegionAdded,
                constraints,
                config,
            ).1 == SetupActionView::Finish(Map::<u64, u64>::empty())
            &&& initials.len() > 0 && translated_by(initials[0].0) is Some ==> {
                let (walking, follow) = driver::next_step(
                    second,
                    SetupEvent::RegionAdded,
                    constraints,
                    config,
                );
                &&& walking == (SetupStateView::Walking {
                    initials,
                    i: 0,
                    contents: Map::<u64, u64>::empty(),
                })
                &&& follow is Follow
            }
        }),
{
}

} // verus!
