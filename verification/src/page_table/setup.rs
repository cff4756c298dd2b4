//! Setting up page tables for a test.
//!
//! A setup is a list of constraints. What they ask of the page tables is
//! worked out here as a list of operations; the tables themselves are kept
//! elsewhere.

use super::address::{self, AddressPlan, AddressPlanView, ModelValue};
use super::{IsaConfig, VirtualAddress};
use crate::executor::solver::SmtResult;
use crate::text::{self, decimal_text, same_text, signed_decimal_text, TextMap};
use std::collections::HashMap;
use vstd::prelude::*;

verus! {

broadcast use vstd::std_specs::hash::group_hash_axioms;

pub enum SetupParseError {
    Lex { pos: usize },
}

impl SetupParseError {
    /// The error in words.
    pub fn text(&self) -> (r: String)
        ensures
            r@ == match *self {
                SetupParseError::Lex { pos } => "Lexical error at position: "@ + text::decimal(
                    pos as nat,
                ),
            },
    {
        match self {
            SetupParseError::Lex { pos } => "Lexical error at position: ".to_owned().concat(
                decimal_text(*pos as u128).as_str(),
            ),
        }
    }
}

pub enum EvalError {
    VariableNotFound(String),
    FunctionNotFound(String),
    MappingFailure,
    Type(String),
    WalkError(String),
    AddressError(String),
}

pub enum EvalErrorView {
    VariableNotFound(Seq<char>),
    FunctionNotFound(Seq<char>),
    MappingFailure,
    Type(Seq<char>),
    WalkError(Seq<char>),
    AddressError(Seq<char>),
}

impl View for EvalError {
    type V = EvalErrorView;

    open spec fn view(&self) -> EvalErrorView {
        match self {
            EvalError::VariableNotFound(s) => EvalErrorView::VariableNotFound(s@),
            EvalError::FunctionNotFound(s) => EvalErrorView::FunctionNotFound(s@),
            EvalError::MappingFailure => EvalErrorView::MappingFailure,
            EvalError::Type(s) => EvalErrorView::Type(s@),
            EvalError::WalkError(s) => EvalErrorView::WalkError(s@),
            EvalError::AddressError(s) => EvalErrorView::AddressError(s@),
        }
    }
}

impl EvalErrorView {
    pub open spec fn text(self) -> Seq<char> {
        match self {
            EvalErrorView::VariableNotFound(s) => "Variable not found: "@ + s,
            EvalErrorView::FunctionNotFound(s) => "Function not found: "@ + s,
            EvalErrorView::MappingFailure => "Could not create page table mapping"@,
            EvalErrorView::Type(s) => s,
            EvalErrorView::WalkError(s) => "Error while walking translation table: "@ + s,
            EvalErrorView::AddressError(s) => "Error while generating addresses: "@ + s,
        }
    }
}

impl EvalError {
    /// The error in words.
    pub fn text(&self) -> (r: String)
        ensures
            r@ == self@.text(),
    {
        match self {
            EvalError::VariableNotFound(s) => "Variable not found: ".to_owned().concat(s.as_str()),
            EvalError::FunctionNotFound(s) => "Function not found: ".to_owned().concat(s.as_str()),
            EvalError::MappingFailure => "Could not create page table mapping".to_owned(),
            EvalError::Type(s) => s.clone(),
            EvalError::WalkError(s) => "Error while walking translation table: ".to_owned().concat(
                s.as_str(),
            ),
            EvalError::AddressError(s) => "Error while generating addresses: ".to_owned().concat(
                s.as_str(),
            ),
        }
    }
}

/// Whether a result is the one that the mathematics gives.
pub open spec fn agrees<T>(r: Result<T, EvalError>, out: Result<T, EvalErrorView>) -> bool {
    match r {
        Ok(v) => out == Ok::<T, EvalErrorView>(v),
        Err(e) => out == Err::<T, EvalErrorView>(e@),
    }
}

#[derive(Clone, Copy, Debug, PartialEq, Eq, Structural)]
pub enum Val {
    VA(VirtualAddress),
    IPA(VirtualAddress),
    PA(u64),
    I128(i128),
    Invalid,
}

/// A value as it is shown in messages.
pub open spec fn shown(v: Val) -> Seq<char> {
    match v {
        Val::VA(va) => "VA(VirtualAddress { bits: "@ + text::decimal(va.bits as nat) + " })"@,
        Val::IPA(va) => "IPA(VirtualAddress { bits: "@ + text::decimal(va.bits as nat) + " })"@,
        Val::PA(pa) => "PA("@ + text::decimal(pa as nat) + ")"@,
        Val::I128(n) => "I128("@ + text::signed_decimal(n as int) + ")"@,
        Val::Invalid => "Invalid"@,
    }
}

/// A value as a number.
pub open spec fn number(v: Val) -> Result<u64, EvalErrorView> {
    match v {
        Val::VA(va) => Ok(va.bits),
        Val::IPA(ipa) => Ok(ipa.bits),
        Val::PA(pa) => Ok(pa),
        Val::I128(n) => if 0 <= n <= u64::MAX {
            Ok(n as u64)
        } else {
            Err(
                EvalErrorView::Type(
                    text::signed_decimal(n as int) + " cannot be converted to u64"@,
                ),
            )
        },
        Val::Invalid => Ok(0),
    }
}

impl Val {
    fn show(&self) -> (r: String)
        ensures
            r@ == shown(*self),
    {
        match self {
            Val::VA(va) => "VA(VirtualAddress { bits: ".to_owned().concat(
                decimal_text(va.bits as u128).as_str(),
            ).concat(" })"),
            Val::IPA(va) => "IPA(VirtualAddress { bits: ".to_owned().concat(
                decimal_text(va.bits as u128).as_str(),
            ).concat(" })"),
            Val::PA(pa) => "PA(".to_owned().concat(decimal_text(*pa as u128).as_str()).concat(")"),
            Val::I128(n) => "I128(".to_owned().concat(signed_decimal_text(*n).as_str()).concat(
                ")",
            ),
            Val::Invalid => "Invalid".to_owned(),
        }
    }

    pub fn to_u64(&self) -> (r: Result<u64, EvalError>)
        ensures
            agrees(r, number(*self)),
    {
        match self {
            Val::VA(va) => Ok(va.bits()),
            Val::IPA(ipa) => Ok(ipa.bits()),
            Val::PA(pa) => Ok(*pa),
            Val::I128(n) => if *n >= 0 && *n <= u64::MAX as i128 {
                Ok(*n as u64)
            } else {
                Err(
                    EvalError::Type(
                        signed_decimal_text(*n).concat(" cannot be converted to u64"),
                    ),
                )
            },
            Val::Invalid => Ok(0),
        }
    }
}

pub enum Exp {
    Id(String),
    I128(i128),
    App(String, Vec<Exp>),
}

/// The conversions between the kinds of addresses.
#[derive(Clone, Copy, Debug, PartialEq, Eq, Structural)]
pub enum Conversion {
    VaToPa,
    PaToVa,
    IpaToVa,
    VaToIpa,
    PaToIpa,
    IpaToPa,
}

impl Conversion {
    pub open spec fn spec_name(self) -> &'static str {
        match self {
            Conversion::VaToPa => "va_to_pa",
            Conversion::PaToVa => "pa_to_va",
            Conversion::IpaToVa => "ipa_to_va",
            Conversion::VaToIpa => "va_to_ipa",
            Conversion::PaToIpa => "pa_to_ipa",
            Conversion::IpaToPa => "ipa_to_pa",
        }
    }

    fn name(self) -> (r: &'static str)
        ensures
            r@ == self.spec_name()@,
    {
        match self {
            Conversion::VaToPa => "va_to_pa",
            Conversion::PaToVa => "pa_to_va",
            Conversion::IpaToVa => "ipa_to_va",
            Conversion::VaToIpa => "va_to_ipa",
            Conversion::PaToIpa => "pa_to_ipa",
            Conversion::IpaToPa => "ipa_to_pa",
        }
    }

    /// What the conversion says it expects.
    pub open spec fn spec_expectation(self) -> &'static str {
        match self {
            Conversion::VaToPa => "va_to_pa expects a virtual address argument",
            Conversion::PaToVa => "pa_to_va expects a physical address argument",
            Conversion::IpaToVa =>
                "ipa_to_va expects an intermediate physical address argument",
            Conversion::VaToIpa => "va_to_ipa expects a virtual address argument",
            Conversion::PaToIpa => "pa_to_ipa expects a physical address argument",
            Conversion::IpaToPa =>
                "ipa_to_pa expects an intermediate physical address argument",
        }
    }

    fn expectation(self) -> (r: &'static str)
        ensures
            r@ == self.spec_expectation()@,
    {
        match self {
            Conversion::VaToPa => "va_to_pa expects a virtual address argument",
            Conversion::PaToVa => "pa_to_va expects a physical address argument",
            Conversion::IpaToVa =>
                "ipa_to_va expects an intermediate physical address argument",
            Conversion::VaToIpa => "va_to_ipa expects a virtual address argument",
            Conversion::PaToIpa => "pa_to_ipa expects a physical address argument",
            Conversion::IpaToPa =>
                "ipa_to_pa expects an intermediate physical address argument",
        }
    }

    /// The same address as one of another kind, if it is of the kind that is
    /// converted from.
    pub open spec fn spec_convert(self, v: Val) -> Option<Val> {
        match (self, v) {
            (Conversion::VaToPa, Val::VA(va)) => Some(Val::PA(va.bits)),
            (Conversion::PaToVa, Val::PA(pa)) => Some(Val::VA(VirtualAddress { bits: pa })),
            (Conversion::IpaToVa, Val::IPA(ipa)) => Some(Val::VA(ipa)),
            (Conversion::VaToIpa, Val::VA(va)) => Some(Val::IPA(va)),
            (Conversion::PaToIpa, Val::PA(pa)) => Some(Val::IPA(VirtualAddress { bits: pa })),
            (Conversion::IpaToPa, Val::IPA(ipa)) => Some(Val::PA(ipa.bits)),
            _ => None,
        }
    }

    fn convert(self, v: Val) -> (r: Option<Val>)
        ensures
            r == self.spec_convert(v),
    {
        match (self, v) {
            (Conversion::VaToPa, Val::VA(va)) => Some(Val::PA(va.bits())),
            (Conversion::PaToVa, Val::PA(pa)) => Some(Val::VA(VirtualAddress::from_u64(pa))),
            (Conversion::IpaToVa, Val::IPA(ipa)) => Some(Val::VA(ipa)),
            (Conversion::VaToIpa, Val::VA(va)) => Some(Val::IPA(va)),
            (Conversion::PaToIpa, Val::PA(pa)) => Some(Val::IPA(VirtualAddress::from_u64(pa))),
            (Conversion::IpaToPa, Val::IPA(ipa)) => Some(Val::PA(ipa.bits())),
            _ => None,
        }
    }

    /// The conversion with a name.
    pub open spec fn named(name: Seq<char>) -> Option<Conversion> {
        if name == "va_to_pa"@ {
            Some(Conversion::VaToPa)
        } else if name == "pa_to_va"@ {
            Some(Conversion::PaToVa)
        } else if name == "ipa_to_va"@ {
            Some(Conversion::IpaToVa)
        } else if name == "va_to_ipa"@ {
            Some(Conversion::VaToIpa)
        } else if name == "pa_to_ipa"@ {
            Some(Conversion::PaToIpa)
        } else if name == "ipa_to_pa"@ {
            Some(Conversion::IpaToPa)
        } else {
            None
        }
    }

    fn from_name(name: &str) -> (r: Option<Conversion>)
        ensures
            r == Conversion::named(name@),
    {
        if same_text(name, "va_to_pa") {
            Some(Conversion::VaToPa)
        } else if same_text(name, "pa_to_va") {
            Some(Conversion::PaToVa)
        } else if same_text(name, "ipa_to_va") {
            Some(Conversion::IpaToVa)
        } else if same_text(name, "va_to_ipa") {
            Some(Conversion::VaToIpa)
        } else if same_text(name, "pa_to_ipa") {
            Some(Conversion::PaToIpa)
        } else if same_text(name, "ipa_to_pa") {
            Some(Conversion::IpaToPa)
        } else {
            None
        }
    }
}

/// A conversion applied to arguments.
pub open spec fn apply(f: Conversion, args: Seq<Val>) -> Result<Val, EvalErrorView> {
    if args.len() == 1 {
        match f.spec_convert(args[0]) {
            Some(v) => Ok(v),
            None => Err(EvalErrorView::Type(f.spec_expectation()@)),
        }
    } else {
        Err(EvalErrorView::Type(f.spec_name()@ + " expects a single argument"@))
    }
}

fn single_argument(name: &str, args: &Vec<Val>) -> (r: Result<Val, EvalError>)
    ensures
        agrees(
            r,
            if args@.len() == 1 {
                Ok(args@[0])
            } else {
                Err(EvalErrorView::Type(name@ + " expects a single argument"@))
            },
        ),
{
    if args.len() == 1 {
        Ok(args[0])
    } else {
        Err(EvalError::Type(name.to_owned().concat(" expects a single argument")))
    }
}

fn apply_conversion(f: Conversion, args: &Vec<Val>) -> (r: Result<Val, EvalError>)
    ensures
        agrees(r, apply(f, args@)),
{
    match single_argument(f.name(), args) {
        Err(e) => Err(e),
        Ok(v) => match f.convert(v) {
            Some(v) => Ok(v),
            None => Err(EvalError::Type(f.expectation().to_owned())),
        },
    }
}

/// The value of an expression.
pub open spec fn eval(exp: Exp, vars: Map<Seq<char>, Val>) -> Result<Val, EvalErrorView>
    decreases exp, 0nat,
{
    match exp {
        Exp::Id(name) => if vars.dom().contains(name@) {
            Ok(vars[name@])
        } else {
            Err(EvalErrorView::VariableNotFound(name@))
        },
        Exp::I128(n) => Ok(Val::I128(n)),
        Exp::App(f, args) => match eval_all(args@, vars, 0, seq![]) {
            Err(e) => Err(e),
            Ok(vals) => match Conversion::named(f@) {
                Some(f) => apply(f, vals),
                None => Err(EvalErrorView::FunctionNotFound(f@)),
            },
        },
    }
}

/// The values of expressions from position `i` on, behind those before.
pub open spec fn eval_all(
    exps: Seq<Exp>,
    vars: Map<Seq<char>, Val>,
    i: int,
    done: Seq<Val>,
) -> Result<Seq<Val>, EvalErrorView>
    decreases exps, exps.len() - i,
{
    if 0 <= i < exps.len() {
        match eval(exps[i], vars) {
            Err(e) => Err(e),
            Ok(v) => eval_all(exps, vars, i + 1, done.push(v)),
        }
    } else {
        Ok(done)
    }
}

impl Exp {
    pub fn eval(&self, vars: &TextMap<Val>) -> (r: Result<Val, EvalError>)
        ensures
            agrees(r, eval(*self, vars@)),
        decreases self,
    {
        match self {
            Exp::Id(name) => match vars.get(name.as_str()) {
                Some(v) => Ok(*v),
                None => Err(EvalError::VariableNotFound(name.clone())),
            },
            Exp::I128(n) => Ok(Val::I128(*n)),
            Exp::App(f, args) => {
                let ghost whole = eval_all(args@, vars@, 0, seq![]);
                let mut vals: Vec<Val> = Vec::new();
                assert(vals@ =~= seq![]);
                let mut i: usize = 0;
                while i < args.len()
                    invariant
                        *self == (Exp::App(*f, *args)),
                        i <= args@.len(),
                        whole == eval_all(args@, vars@, 0, seq![]),
                        whole == eval_all(args@, vars@, i as int, vals@),
                    decreases args@.len() - i,
                {
                    match args[i].eval(vars) {
                        Err(e) => {
                            return Err(e);
                        },
                        Ok(v) => {
                            vals.push(v);
                        },
                    }
                    i = i + 1;
                }
                match Conversion::from_name(f.as_str()) {
                    Some(f) => apply_conversion(f, &vals),
                    None => Err(EvalError::FunctionNotFound(f.clone())),
                }
            },
        }
    }
}

pub enum AddressConstraint {
    Physical(Vec<String>),
    Intermediate(Vec<String>),
    Virtual(Vec<String>),
    Aligned(String, Exp),
}

pub enum TableConstraint {
    IdentityMap(Exp),
    MapsTo(Exp, Exp),
    MaybeMapsTo(Exp, Exp),
}

pub enum Constraint {
    Address(AddressConstraint),
    Table(TableConstraint),
    Initial(Exp, Exp),
}

/// One of the two stages of address translation.
#[derive(Clone, Copy, Debug, PartialEq, Eq, Structural)]
pub enum Stage {
    One,
    Two,
}

/// The attributes of a page.
#[derive(Clone, Copy, Debug, PartialEq, Eq, Structural)]
pub enum PageAttrs {
    Default(Stage),
    Code(Stage),
}

/// An operation on page tables. `tables` says in which tables it is done, and
/// `root` from which top level table it starts.
#[derive(Clone, Copy, Debug, PartialEq, Eq, Structural)]
pub enum MapOp {
    IdentityMap { tables: Stage, root: Stage, addr: u64, attrs: PageAttrs },
    MapPage { tables: Stage, root: Stage, from: VirtualAddress, to: u64, attrs: PageAttrs },
    MaybeMapPage { tables: Stage, root: Stage, from: VirtualAddress, to: u64, attrs: PageAttrs },
    MaybeInvalid { tables: Stage, root: Stage, from: VirtualAddress },
}

/// Identity mappings at the second stage.
pub open spec fn stage2_identity(addr: u64) -> MapOp {
    MapOp::IdentityMap {
        tables: Stage::Two,
        root: Stage::Two,
        addr,
        attrs: PageAttrs::Default(Stage::Two),
    }
}

/// Maps an address to itself.
pub open spec fn identity_ops(addr: Val) -> Result<Seq<MapOp>, EvalErrorView> {
    match addr {
        Val::VA(va) => Ok(
            seq![
                MapOp::IdentityMap {
                    tables: Stage::One,
                    root: Stage::Two,
                    addr: va.bits,
                    attrs: PageAttrs::Default(Stage::Two),
                },
                stage2_identity(va.bits),
            ],
        ),
        Val::IPA(ipa) => Ok(seq![stage2_identity(ipa.bits)]),
        addr => Err(
            EvalErrorView::Type(
                "Type error creating identity mapping for "@ + shown(addr)
                    + ": Expected addresses"@,
            ),
        ),
    }
}

/// An error for a mapping between what are not addresses.
pub open spec fn mapping_error(from: Val, to: Val) -> EvalErrorView {
    EvalErrorView::Type(
        "Type error creating mapping "@ + shown(from) + " |-> "@ + shown(to)
            + ": Expected addresses"@,
    )
}

/// Maps one address to another, through the tables of the stage that the
/// first one belongs to.
pub open spec fn maps_to_ops(from: Val, to: Val) -> Result<Seq<MapOp>, EvalErrorView> {
    let attrs = PageAttrs::Default(Stage::One);
    match (from, to) {
        (Val::VA(va), Val::PA(pa)) => Ok(
            seq![
                MapOp::MapPage { tables: Stage::One, root: Stage::One, from: va, to: pa, attrs },
                stage2_identity(pa),
            ],
        ),
        (Val::VA(va), Val::IPA(ipa)) => Ok(
            seq![
                MapOp::MapPage {
                    tables: Stage::One,
                    root: Stage::One,
                    from: va,
                    to: ipa.bits,
                    attrs,
                },
            ],
        ),
        (Val::IPA(ipa), Val::PA(pa)) => Ok(
            seq![MapOp::MapPage { tables: Stage::Two, root: Stage::Two, from: ipa, to: pa, attrs }],
        ),
        (from, to) => Err(mapping_error(from, to)),
    }
}

/// Lets one address be mapped to another, or to nothing.
pub open spec fn maybe_maps_to_ops(from: Val, to: Val) -> Result<Seq<MapOp>, EvalErrorView> {
    let attrs = PageAttrs::Default(Stage::One);
    match (from, to) {
        (Val::VA(va), Val::PA(pa)) => Ok(
            seq![
                MapOp::MaybeMapPage { tables: Stage::One, root: Stage::One, from: va, to: pa, attrs },
                stage2_identity(pa),
            ],
        ),
        (Val::VA(va), Val::IPA(ipa)) => Ok(
            seq![
                MapOp::MaybeMapPage {
                    tables: Stage::One,
                    root: Stage::One,
                    from: va,
                    to: ipa.bits,
                    attrs,
                },
            ],
        ),
        (Val::IPA(ipa), Val::PA(pa)) => Ok(
            seq![
                MapOp::MaybeMapPage { tables: Stage::Two, root: Stage::Two, from: ipa, to: pa, attrs },
            ],
        ),
        (Val::VA(va), Val::Invalid) => Ok(
            seq![MapOp::MaybeInvalid { tables: Stage::One, root: Stage::One, from: va }],
        ),
        (Val::IPA(ipa), Val::Invalid) => Ok(
            seq![MapOp::MaybeInvalid { tables: Stage::Two, root: Stage::Two, from: ipa }],
        ),
        (from, to) => Err(mapping_error(from, to)),
    }
}

/// Whether operations are those that the mathematics gives.
pub open spec fn ops_agree(
    r: Result<Vec<MapOp>, EvalError>,
    out: Result<Seq<MapOp>, EvalErrorView>,
) -> bool {
    match r {
        Ok(ops) => out == Ok::<Seq<MapOp>, EvalErrorView>(ops@),
        Err(e) => out == Err::<Seq<MapOp>, EvalErrorView>(e@),
    }
}

fn map_stage2_identity(addr: u64) -> (r: MapOp)
    ensures
        r == stage2_identity(addr),
{
    MapOp::IdentityMap {
        tables: Stage::Two,
        root: Stage::Two,
        addr,
        attrs: PageAttrs::Default(Stage::Two),
    }
}

fn identity_map(addr: Val) -> (r: Result<Vec<MapOp>, EvalError>)
    ensures
        ops_agree(r, identity_ops(addr)),
{
    match addr {
        Val::VA(va) => {
            let ops = vec![
                MapOp::IdentityMap {
                    tables: Stage::One,
                    root: Stage::Two,
                    addr: va.bits(),
                    attrs: PageAttrs::Default(Stage::Two),
                },
                map_stage2_identity(va.bits()),
            ];
            assert(ops@ =~= identity_ops(addr)->Ok_0);
            Ok(ops)
        },
        Val::IPA(ipa) => {
            let ops = vec![map_stage2_identity(ipa.bits())];
            assert(ops@ =~= identity_ops(addr)->Ok_0);
            Ok(ops)
        },
        addr => Err(
            EvalError::Type(
                "Type error creating identity mapping for ".to_owned().concat(
                    addr.show().as_str(),
                ).concat(": Expected addresses"),
            ),
        ),
    }
}

fn bad_mapping(from: Val, to: Val) -> (r: EvalError)
    ensures
        r@ == mapping_error(from, to),
{
    EvalError::Type(
        "Type error creating mapping ".to_owned().concat(from.show().as_str()).concat(
            " |-> ",
        ).concat(to.show().as_str()).concat(": Expected addresses"),
    )
}

fn maps_to(from: Val, to: Val) -> (r: Result<Vec<MapOp>, EvalError>)
    ensures
        ops_agree(r, maps_to_ops(from, to)),
{
    let attrs = PageAttrs::Default(Stage::One);
    match (from, to) {
        (Val::VA(va), Val::PA(pa)) => {
            let ops = vec![
                MapOp::MapPage { tables: Stage::One, root: Stage::One, from: va, to: pa, attrs },
                map_stage2_identity(pa),
            ];
            assert(ops@ =~= maps_to_ops(from, to)->Ok_0);
            Ok(ops)
        },
        (Val::VA(va), Val::IPA(ipa)) => {
            let ops = vec![
                MapOp::MapPage {
                    tables: Stage::One,
                    root: Stage::One,
                    from: va,
                    to: ipa.bits(),
                    attrs,
                },
            ];
            assert(ops@ =~= maps_to_ops(from, to)->Ok_0);
            Ok(ops)
        },
        (Val::IPA(ipa), Val::PA(pa)) => {
            let ops = vec![
                MapOp::MapPage { tables: Stage::Two, root: Stage::Two, from: ipa, to: pa, attrs },
            ];
            assert(ops@ =~= maps_to_ops(from, to)->Ok_0);
            Ok(ops)
        },
        (from, to) => Err(bad_mapping(from, to)),
    }
}

fn maybe_maps_to(from: Val, to: Val) -> (r: Result<Vec<MapOp>, EvalError>)
    ensures
        ops_agree(r, maybe_maps_to_ops(from, to)),
{
    let attrs = PageAttrs::Default(Stage::One);
    match (from, to) {
        (Val::VA(va), Val::PA(pa)) => {
            let ops = vec![
                MapOp::MaybeMapPage { tables: Stage::One, root: Stage::One, from: va, to: pa, attrs },
                map_stage2_identity(pa),
            ];
            assert(ops@ =~= maybe_maps_to_ops(from, to)->Ok_0);
            Ok(ops)
        },
        (Val::VA(va), Val::IPA(ipa)) => {
            let ops = vec![
                MapOp::MaybeMapPage {
                    tables: Stage::One,
                    root: Stage::One,
                    from: va,
                    to: ipa.bits(),
                    attrs,
                },
            ];
            assert(ops@ =~= maybe_maps_to_ops(from, to)->Ok_0);
            Ok(ops)
        },
        (Val::IPA(ipa), Val::PA(pa)) => {
            let ops = vec![
                MapOp::MaybeMapPage { tables: Stage::Two, root: Stage::Two, from: ipa, to: pa, attrs },
            ];
            assert(ops@ =~= maybe_maps_to_ops(from, to)->Ok_0);
            Ok(ops)
        },
        (Val::VA(va), Val::Invalid) => {
            let ops = vec![MapOp::MaybeInvalid { tables: Stage::One, root: Stage::One, from: va }];
            assert(ops@ =~= maybe_maps_to_ops(from, to)->Ok_0);
            Ok(ops)
        },
        (Val::IPA(ipa), Val::Invalid) => {
            let ops = vec![MapOp::MaybeInvalid { tables: Stage::Two, root: Stage::Two, from: ipa }];
            assert(ops@ =~= maybe_maps_to_ops(from, to)->Ok_0);
            Ok(ops)
        },
        (from, to) => Err(bad_mapping(from, to)),
    }
}

/// What a constraint asks of the page tables.
pub open spec fn table_ops(tc: TableConstraint, vars: Map<Seq<char>, Val>) -> Result<
    Seq<MapOp>,
    EvalErrorView,
> {
    match tc {
        TableConstraint::IdentityMap(addr) => match eval(addr, vars) {
            Err(e) => Err(e),
            Ok(addr) => identity_ops(addr),
        },
        TableConstraint::MapsTo(from, to) => match eval(from, vars) {
            Err(e) => Err(e),
            Ok(from) => match eval(to, vars) {
                Err(e) => Err(e),
                Ok(to) => maps_to_ops(from, to),
            },
        },
        TableConstraint::MaybeMapsTo(from, to) => match eval(from, vars) {
            Err(e) => Err(e),
            Ok(from) => match eval(to, vars) {
                Err(e) => Err(e),
                Ok(to) => maybe_maps_to_ops(from, to),
            },
        },
    }
}

impl TableConstraint {
    pub fn eval(&self, vars: &TextMap<Val>) -> (r: Result<Vec<MapOp>, EvalError>)
        ensures
            ops_agree(r, table_ops(*self, vars@)),
    {
        match self {
            TableConstraint::IdentityMap(addr) => match addr.eval(vars) {
                Err(e) => Err(e),
                Ok(addr) => identity_map(addr),
            },
            TableConstraint::MapsTo(from, to) => match from.eval(vars) {
                Err(e) => Err(e),
                Ok(from) => match to.eval(vars) {
                    Err(e) => Err(e),
                    Ok(to) => maps_to(from, to),
                },
            },
            TableConstraint::MaybeMapsTo(from, to) => match from.eval(vars) {
                Err(e) => Err(e),
                Ok(from) => match to.eval(vars) {
                    Err(e) => Err(e),
                    Ok(to) => maybe_maps_to(from, to),
                },
            },
        }
    }
}

/// What a list of constraints asks of the page tables: operations in order,
/// and what comes out when all of them succeed.
pub struct TablePlan {
    pub ops: Vec<MapOp>,
    pub end: Result<Vec<(Val, Val)>, EvalError>,
}

pub struct TablePlanView {
    pub ops: Seq<MapOp>,
    pub end: Result<Seq<(Val, Val)>, EvalErrorView>,
}

impl View for TablePlan {
    type V = TablePlanView;

    open spec fn view(&self) -> TablePlanView {
        TablePlanView {
            ops: self.ops@,
            end: match self.end {
                Ok(initials) => Ok(initials@),
                Err(e) => Err(e@),
            },
        }
    }
}

/// What the constraints from position `i` on ask for, where `ops` and
/// `initials` are what those before have asked for.
pub open spec fn table_plan(
    constraints: Seq<Constraint>,
    vars: Map<Seq<char>, Val>,
    i: int,
    ops: Seq<MapOp>,
    initials: Seq<(Val, Val)>,
) -> TablePlanView
    decreases constraints.len() - i,
{
    if 0 <= i < constraints.len() {
        match constraints[i] {
            Constraint::Address(_) => table_plan(constraints, vars, i + 1, ops, initials),
            Constraint::Table(tc) => match table_ops(tc, vars) {
                Err(e) => TablePlanView { ops, end: Err(e) },
                Ok(more) => table_plan(constraints, vars, i + 1, ops + more, initials),
            },
            Constraint::Initial(addr, exp) => match eval(addr, vars) {
                Err(e) => TablePlanView { ops, end: Err(e) },
                Ok(addr) => match eval(exp, vars) {
                    Err(e) => TablePlanView { ops, end: Err(e) },
                    Ok(val) => table_plan(
                        constraints,
                        vars,
                        i + 1,
                        ops,
                        initials.push((addr, val)),
                    ),
                },
            },
        }
    } else {
        TablePlanView { ops, end: Ok(initials) }
    }
}

/// Works out what constraints ask of the page tables.
pub fn eval_table_constraints(constraints: &Vec<Constraint>, vars: &TextMap<Val>) -> (r: TablePlan)
    ensures
        r@ == table_plan(constraints@, vars@, 0, seq![], seq![]),
{
    let ghost whole = table_plan(constraints@, vars@, 0, seq![], seq![]);
    let mut ops: Vec<MapOp> = Vec::new();
    let mut initials: Vec<(Val, Val)> = Vec::new();
    assert(ops@ =~= seq![]);
    assert(initials@ =~= seq![]);
    let mut i: usize = 0;
    while i < constraints.len()
        invariant
            i <= constraints@.len(),
            whole == table_plan(constraints@, vars@, 0, seq![], seq![]),
            whole == table_plan(constraints@, vars@, i as int, ops@, initials@),
        decreases constraints@.len() - i,
    {
        match &constraints[i] {
            Constraint::Address(_) => {},
            Constraint::Table(tc) => match tc.eval(vars) {
                Err(e) => {
                    return TablePlan { ops, end: Err(e) };
                },
                Ok(more) => {
                    let mut more = more;
                    ops.append(&mut more);
                },
            },
            Constraint::Initial(addr, exp) => {
                let addr = match addr.eval(vars) {
                    Err(e) => {
                        return TablePlan { ops, end: Err(e) };
                    },
                    Ok(addr) => addr,
                };
                match exp.eval(vars) {
                    Err(e) => {
                        return TablePlan { ops, end: Err(e) };
                    },
                    Ok(val) => {
                        initials.push((addr, val));
                    },
                }
            },
        }
        i = i + 1;
    }
    TablePlan { ops, end: Ok(initials) }
}

impl TablePlan {
    /// What comes out, given how many of the operations have succeeded before
    /// one failed.
    pub fn outcome(self, succeeded: usize) -> (r: Result<Vec<(Val, Val)>, EvalError>)
        ensures
            succeeded < self.ops@.len() ==> r matches Err(EvalError::MappingFailure),
            succeeded >= self.ops@.len() ==> r == self.end,
    {
        if succeeded < self.ops.len() {
            Err(EvalError::MappingFailure)
        } else {
            self.end
        }
    }
}

/// A walk through translation tables that has to be made to find a physical
/// address.
#[derive(Clone, Copy, Debug, PartialEq, Eq, Structural)]
pub enum Walk {
    /// Through the tables of both stages.
    Both(u64),
    /// Through the tables of the second stage.
    Second(u64),
}

/// The walk that finds the physical address of an address, if one is needed.
pub open spec fn walk_of(addr: Val) -> Option<Walk> {
    match addr {
        Val::VA(va) => Some(Walk::Both(va.bits)),
        Val::IPA(ipa) => Some(Walk::Second(ipa.bits)),
        _ => None,
    }
}

pub fn needed_walk(addr: &Val) -> (r: Option<Walk>)
    ensures
        r == walk_of(*addr),
{
    match addr {
        Val::VA(va) => Some(Walk::Both(va.bits())),
        Val::IPA(ipa) => Some(Walk::Second(ipa.bits())),
        _ => None,
    }
}

/// The physical address of an address, given where the walk that it needs has
/// led.
pub open spec fn physical(addr: Val, walk: Result<u64, String>) -> Result<u64, EvalErrorView> {
    match addr {
        Val::PA(pa) => Ok(pa),
        Val::VA(_) | Val::IPA(_) => match walk {
            Ok(pa) => Ok(pa),
            Err(e) => Err(EvalErrorView::WalkError(e@)),
        },
        addr => Err(
            EvalErrorView::Type("Location "@ + shown(addr) + " must be an address"@),
        ),
    }
}

/// The contents of memory that initial constraints ask for, from position `i`
/// on, on top of `m`.
pub open spec fn initial_contents(
    constraints: Seq<(Val, Val)>,
    walks: Seq<Result<u64, String>>,
    i: int,
    m: Map<u64, u64>,
) -> Result<Map<u64, u64>, EvalErrorView>
    decreases constraints.len() - i,
{
    if 0 <= i < constraints.len() {
        match physical(constraints[i].0, walks[i]) {
            Err(e) => Err(e),
            Ok(pa) => match number(constraints[i].1) {
                Err(e) => Err(e),
                Ok(n) => initial_contents(constraints, walks, i + 1, m.insert(pa, n)),
            },
        }
    } else {
        Ok(m)
    }
}

pub(crate) fn physical_address(addr: &Val, walk: &Result<u64, String>) -> (r: Result<u64, EvalError>)
    ensures
        agrees(r, physical(*addr, *walk)),
{
    match addr {
        Val::PA(pa) => Ok(*pa),
        Val::VA(_) | Val::IPA(_) => match walk {
            Ok(pa) => Ok(*pa),
            Err(e) => Err(EvalError::WalkError(e.clone())),
        },
        addr => Err(
            EvalError::Type(
                "Location ".to_owned().concat(addr.show().as_str()).concat(" must be an address"),
            ),
        ),
    }
}

/// Works out the contents of memory that initial constraints ask for. `walks`
/// says where the walk for each of the addresses has led; for an address that
/// needs none it does not matter.
pub fn eval_initial_constraints(
    constraints: &Vec<(Val, Val)>,
    walks: &Vec<Result<u64, String>>,
) -> (r: Result<HashMap<u64, u64>, EvalError>)
    requires
        walks@.len() >= constraints@.len(),
    ensures
        match r {
            Ok(m) => initial_contents(constraints@, walks@, 0, Map::empty()) == Ok::<
                Map<u64, u64>,
                EvalErrorView,
            >(m@),
            Err(e) => initial_contents(constraints@, walks@, 0, Map::empty()) == Err::<
                Map<u64, u64>,
                EvalErrorView,
            >(e@),
        },
{
    let mut m: HashMap<u64, u64> = HashMap::new();
    let ghost whole = initial_contents(constraints@, walks@, 0, Map::empty());
    let mut i: usize = 0;
    while i < constraints.len()
        invariant
            i <= constraints@.len(),
            walks@.len() >= constraints@.len(),
            whole == initial_contents(constraints@, walks@, 0, Map::empty()),
            whole == initial_contents(constraints@, walks@, i as int, m@),
        decreases constraints@.len() - i,
    {
        let pa = match physical_address(&constraints[i].0, &walks[i]) {
            Err(e) => {
                return Err(e);
            },
            Ok(pa) => pa,
        };
        match constraints[i].1.to_u64() {
            Err(e) => {
                return Err(e);
            },
            Ok(n) => {
                m.insert(pa, n);
            },
        }
        i = i + 1;
    }
    Ok(m)
}

/// Maps the code of a number of threads into both stages.
pub open spec fn code_ops(config: IsaConfig, n: nat) -> Seq<MapOp>
    decreases n,
{
    if n == 0 {
        seq![]
    } else {
        let addr = (config.thread_base + (n - 1) * config.page_size) as u64;
        code_ops(config, (n - 1) as nat) + seq![
            MapOp::IdentityMap {
                tables: Stage::One,
                root: Stage::One,
                addr,
                attrs: PageAttrs::Code(Stage::One),
            },
            MapOp::IdentityMap {
                tables: Stage::Two,
                root: Stage::Two,
                addr,
                attrs: PageAttrs::Code(Stage::Two),
            },
        ]
    }
}

/// Whether the code of each of the threads has an address.
pub open spec fn code_fits(config: IsaConfig, num_threads: usize) -> bool {
    num_threads > 0 ==> config.thread_base + (num_threads - 1) * config.page_size <= u64::MAX
}

fn map_code(num_threads: usize, config: &IsaConfig) -> (r: Vec<MapOp>)
    requires
        code_fits(*config, num_threads),
    ensures
        r@ == code_ops(*config, num_threads as nat),
{
    let mut ops: Vec<MapOp> = Vec::new();
    let mut i: usize = 0;
    let mut addr: u64 = config.thread_base;
    assert(ops@ =~= seq![]);
    while i < num_threads
        invariant
            i <= num_threads,
            code_fits(*config, num_threads),
            i < num_threads ==> addr == config.thread_base + i * config.page_size,
            ops@ == code_ops(*config, i as nat),
        decreases num_threads - i,
    {
        ops.push(
            MapOp::IdentityMap {
                tables: Stage::One,
                root: Stage::One,
                addr,
                attrs: PageAttrs::Code(Stage::One),
            },
        );
        ops.push(
            MapOp::IdentityMap {
                tables: Stage::Two,
                root: Stage::Two,
                addr,
                attrs: PageAttrs::Code(Stage::Two),
            },
        );
        assert(ops@ =~= code_ops(*config, (i + 1) as nat));
        i = i + 1;
        if i < num_threads {
            proof {
                let size = config.page_size as int;
                assert(i * size == (i - 1) * size + size) by (nonlinear_arith);
                assert(i * size <= (num_threads - 1) * size) by (nonlinear_arith)
                    requires
                        i <= num_threads - 1,
                        size >= 0,
                ;
            }
            addr = addr + config.page_size;
        }
    }
    ops
}

/// The setup of page tables, before anything has been asked of the solver or
/// of the tables.
pub struct PageTableSetup {
    /// The variables, so far.
    pub vars: TextMap<Val>,
    /// Operations that map the code of the threads. All of them have to
    /// succeed.
    pub code_ops: Vec<MapOp>,
    /// The addresses that are to be found.
    pub addresses: AddressPlan,
}

pub struct PageTableSetupView {
    pub vars: Map<Seq<char>, Val>,
    pub code_ops: Seq<MapOp>,
    pub addresses: AddressPlanView,
}

impl View for PageTableSetup {
    type V = PageTableSetupView;

    open spec fn view(&self) -> PageTableSetupView {
        PageTableSetupView {
            vars: self.vars@,
            code_ops: self.code_ops@,
            addresses: self.addresses@,
        }
    }
}

/// The setup of page tables with the given variables.
pub open spec fn initial_setup(
    vars: Map<Seq<char>, Val>,
    num_threads: usize,
    page_table_setup: Seq<Constraint>,
    config: IsaConfig,
) -> PageTableSetupView {
    PageTableSetupView {
        vars: vars.insert("invalid"@, Val::Invalid),
        code_ops: code_ops(config, num_threads as nat),
        addresses: address::address_plan(page_table_setup, config, 0, address::empty_plan()),
    }
}

/// Starts the setup of page tables.
pub fn armv8_page_tables(
    vars: TextMap<Val>,
    num_threads: usize,
    page_table_setup: &Vec<Constraint>,
    isa_config: &IsaConfig,
) -> (r: PageTableSetup)
    requires
        code_fits(*isa_config, num_threads),
        address::declared(page_table_setup@, 0) < u32::MAX,
    ensures
        r@ == initial_setup(vars@, num_threads, page_table_setup@, *isa_config),
{
    let mut vars = vars;
    let code_ops = map_code(num_threads, isa_config);
    vars.insert("invalid".to_owned(), Val::Invalid);
    let addresses = address::plan_addresses(page_table_setup, isa_config);
    PageTableSetup { vars, code_ops, addresses }
}

impl PageTableSetup {
    /// Takes up the addresses that the solver has found, and works out what
    /// the constraints ask of the page tables.
    pub fn with_addresses(
        self,
        verdict: SmtResult,
        values: &Vec<ModelValue>,
        page_table_setup: &Vec<Constraint>,
    ) -> (r: Result<TablePlan, EvalError>)
        requires
            verdict == SmtResult::Sat ==> values@.len() >= self.addresses@.vars.len(),
        ensures
            match address::found_addresses(self.addresses@, verdict, values@, self.vars@) {
                Err(e) => r matches Err(err) && err@ == e,
                Ok(vars) => r matches Ok(plan) && plan@ == table_plan(
                    page_table_setup@,
                    vars,
                    0,
                    seq![],
                    seq![],
                ),
            },
    {
        let mut vars = self.vars;
        match address::take_addresses(&self.addresses, verdict, values, &mut vars) {
            Err(e) => Err(e),
            Ok(_) => Ok(eval_table_constraints(page_table_setup, &vars)),
        }
    }
}

/// What page tables need to know of a litmus test.
pub struct Litmus {
    pub symbolic_addrs: TextMap<u64>,
    /// The number of threads.
    pub assembled: usize,
    pub page_table_setup: Vec<Constraint>,
}

/// The variables that stand for the addresses of a test, each as a virtual
/// address.
pub open spec fn litmus_vars(addrs: Map<Seq<char>, u64>) -> Map<Seq<char>, Val> {
    addrs.map_values(|addr: u64| Val::VA(VirtualAddress { bits: addr }))
}

/// The setup of page tables for a litmus test.
pub open spec fn litmus_setup(litmus: Litmus, config: IsaConfig) -> PageTableSetupView {
    initial_setup(
        litmus_vars(litmus.symbolic_addrs@),
        litmus.assembled,
        litmus.page_table_setup@,
        config,
    )
}

/// Starts the setup of page tables for a litmus test.
pub fn armv8_litmus_page_tables(litmus: &Litmus, isa_config: &IsaConfig) -> (r: PageTableSetup)
    requires
        code_fits(*isa_config, litmus.assembled),
        address::declared(litmus.page_table_setup@, 0) < u32::MAX,
    ensures
        r@ == litmus_setup(*litmus, *isa_config),
{
    let addrs = &litmus.symbolic_addrs;
    let names = addrs.keys();
    let ghost keys = text::views(names@);
    let mut vars: TextMap<Val> = TextMap::new();
    let mut i: usize = 0;
    while i < names.len()
        invariant
            i <= names@.len(),
            keys == text::views(names@),
            forall|k: Seq<char>| #[trigger] keys.contains(k) <==> addrs@.dom().contains(k),
            forall|j: int| 0 <= j < i ==> vars@.dom().contains(#[trigger] keys[j]),
            forall|k: Seq<char>| #[trigger]
                vars@.dom().contains(k) ==> {
                    &&& addrs@.dom().contains(k)
                    &&& vars@[k] == Val::VA(VirtualAddress { bits: addrs@[k] })
                },
        decreases names@.len() - i,
    {
        let ghost before = vars@;
        assert(keys[i as int] == names@[i as int]@);
        assert(keys.contains(keys[i as int]));
        match addrs.get(names[i].as_str()) {
            Some(addr) => {
                vars.insert(names[i].clone(), Val::VA(VirtualAddress::from_u64(*addr)));
            },
            None => {},
        }
        assert(forall|k: Seq<char>| before.dom().contains(k) ==> #[trigger] vars@.dom().contains(k));
        i = i + 1;
    }
    assert forall|k: Seq<char>| #[trigger] addrs@.dom().contains(k) implies vars@.dom().contains(
        k,
    ) by {
        assert(keys.contains(k));
        let j = choose|j: int| 0 <= j < keys.len() && keys[j] == k;
        assert(vars@.dom().contains(keys[j]));
    }
    assert(vars@ =~= litmus_vars(addrs@));
    armv8_page_tables(vars, litmus.assembled, &litmus.page_table_setup, isa_config)
}

/// The setup for a litmus test is the setup with the variables that hold,
/// for each address of the test and for nothing else, that address as a
/// virtual one.
pub proof fn law_litmus_setup(litmus: Litmus, config: IsaConfig, vars: Map<Seq<char>, Val>)
    requires
        forall|name: Seq<char>| #[trigger]
            vars.dom().contains(name) <==> litmus.symbolic_addrs@.dom().contains(name),
        forall|name: Seq<char>| #[trigger]
            vars.dom().contains(name) ==> vars[name] == Val::VA(
                VirtualAddress { bits: litmus.symbolic_addrs@[name] },
            ),
    ensures
        litmus_setup(litmus, config) == initial_setup(
            vars,
            litmus.assembled,
            litmus.page_table_setup@,
            config,
        ),
{
    assert(vars =~= litmus_vars(litmus.symbolic_addrs@));
}

/// How far the page tables have been mapped into themselves.
#[derive(Clone, Copy, Debug, PartialEq, Eq, Structural)]
pub enum SelfMapping {
    /// The pages of the second stage from this one on are left, and all of
    /// the first.
    StageTwo(u64),
    /// The pages of the first stage from this one on are left.
    StageOne(u64),
    Done,
}

impl SelfMapping {
    pub fn new(config: &IsaConfig) -> (r: Self)
        ensures
            r == SelfMapping::StageTwo(config.s2_page_table_base),
    {
        SelfMapping::StageTwo(config.s2_page_table_base)
    }

    /// The operations that are next, and what is left after them, where the
    /// tables end at the given addresses by now. Mapping a page can make the
    /// tables larger.
    pub open spec fn spec_next(self, config: IsaConfig, s1_end: u64, s2_end: u64) -> (
        SelfMapping,
        Seq<MapOp>,
    ) {
        match self {
            SelfMapping::StageTwo(page) => if page < s2_end {
                (
                    SelfMapping::StageTwo((page + config.s2_page_size) as u64),
                    seq![stage2_identity(page)],
                )
            } else {
                (SelfMapping::StageOne(config.page_table_base), seq![])
            },
            SelfMapping::StageOne(page) => if page < s1_end {
                (
                    SelfMapping::StageOne((page + config.page_size) as u64),
                    seq![
                        MapOp::IdentityMap {
                            tables: Stage::One,
                            root: Stage::One,
                            addr: page,
                            attrs: PageAttrs::Default(Stage::One),
                        },
                        stage2_identity(page),
                    ],
                )
            } else {
                (SelfMapping::Done, seq![])
            },
            SelfMapping::Done => (SelfMapping::Done, seq![]),
        }
    }

    pub fn next(&mut self, config: &IsaConfig, s1_end: u64, s2_end: u64) -> (r: Vec<MapOp>)
        requires
            match *old(self) {
                SelfMapping::StageTwo(page) => page < s2_end ==> page + config.s2_page_size
                    <= u64::MAX,
                SelfMapping::StageOne(page) => page < s1_end ==> page + config.page_size
                    <= u64::MAX,
                SelfMapping::Done => true,
            },
        ensures
            (*final(self), r@) == old(self).spec_next(*config, s1_end, s2_end),
    {
        match *self {
            SelfMapping::StageTwo(page) => {
                if page < s2_end {
                    *self = SelfMapping::StageTwo(page + config.s2_page_size);
                    let ops = vec![map_stage2_identity(page)];
                    assert(ops@ =~= seq![stage2_identity(page)]);
                    ops
                } else {
                    *self = SelfMapping::StageOne(config.page_table_base);
                    let ops: Vec<MapOp> = Vec::new();
                    assert(ops@ =~= seq![]);
                    ops
                }
            },
            SelfMapping::StageOne(page) => {
                if page < s1_end {
                    *self = SelfMapping::StageOne(page + config.page_size);
                    let ops = vec![
                        MapOp::IdentityMap {
                            tables: Stage::One,
                            root: Stage::One,
                            addr: page,
                            attrs: PageAttrs::Default(Stage::One),
                        },
                        map_stage2_identity(page),
                    ];
                    assert(ops@ =~= old(self).spec_next(*config, s1_end, s2_end).1);
                    ops
                } else {
                    *self = SelfMapping::Done;
                    let ops: Vec<MapOp> = Vec::new();
                    assert(ops@ =~= seq![]);
                    ops
                }
            },
            SelfMapping::Done => {
                let ops: Vec<MapOp> = Vec::new();
                assert(ops@ =~= seq![]);
                ops
            },
        }
    }
}

/// Converting an address to another kind and back gives the address again.
pub proof fn law_conversions_are_inverse(v: Val)
    ensures
        v is VA ==> {
            &&& Conversion::PaToVa.spec_convert(Conversion::VaToPa.spec_convert(v)->0) == Some(v)
            &&& Conversion::IpaToVa.spec_convert(Conversion::VaToIpa.spec_convert(v)->0) == Some(v)
        },
        v is PA ==> {
            &&& Conversion::VaToPa.spec_convert(Conversion::PaToVa.spec_convert(v)->0) == Some(v)
            &&& Conversion::IpaToPa.spec_convert(Conversion::PaToIpa.spec_convert(v)->0) == Some(v)
        },
        v is IPA ==> {
            &&& Conversion::VaToIpa.spec_convert(Conversion::IpaToVa.spec_convert(v)->0) == Some(v)
            &&& Conversion::PaToIpa.spec_convert(Conversion::IpaToPa.spec_convert(v)->0) == Some(v)
        },
{
}

} // verus!
