//! Names for the values in graphs: of addresses and their pages, and of the
//! walks through the initial page tables.

use crate::bitvector::B64;
use crate::bv;
use crate::page_table::VirtualAddress;
use crate::text::{self, same_text, starts_with};
use vstd::prelude::*;

verus! {

/// The kind of address that a name stands for.
#[derive(Clone, Copy, Debug, PartialEq, Eq, Structural)]
pub enum NameKind {
    Physical,
    Intermediate,
    Virtual,
}

pub open spec fn kind_of(name: Seq<char>) -> NameKind {
    if text::begins_with(name, "pa"@) {
        NameKind::Physical
    } else if text::begins_with(name, "ipa"@) {
        NameKind::Intermediate
    } else {
        NameKind::Virtual
    }
}

/// The names for an address and for its page, in graphs.
pub struct AddressNames {
    pub kind: NameKind,
    pub address: (B64, String),
    pub page: (B64, String),
}

/// Names an address and its page. Pages have 4 kilobytes.
pub fn name_address(name: &str, val: u64) -> (r: AddressNames)
    ensures
        r.kind == kind_of(name@),
        r.address.0@ == address_bits(val),
        r.address.1@ == name@,
        r.page.0@ == page_bits(val),
        r.page.1@ == page_name(name@),
{
    let kind = if starts_with(name, "pa") {
        NameKind::Physical
    } else if starts_with(name, "ipa") {
        NameKind::Intermediate
    } else {
        NameKind::Virtual
    };
    let page = "page(".to_owned().concat(name).concat(")");
    assert(val >> 12 == val / 4096) by (bit_vector);
    AddressNames {
        kind,
        address: (B64::new(val, 64), name.to_owned()),
        page: (B64::new(val >> 12, 42), page),
    }
}

/// Which tables the names of a table belong to.
pub fn is_stage_one(kind: &str) -> (r: Option<bool>)
    ensures
        r == if kind@ == "stage 1"@ {
            Some(true)
        } else if kind@ == "stage 2"@ {
            Some(false)
        } else {
            None
        },
{
    if same_text(kind, "stage 1") {
        Some(true)
    } else if same_text(kind, "stage 2") {
        Some(false)
    } else {
        None
    }
}

/// Names of bitvectors. A later name replaces an earlier one.
pub struct ValueNames {
    entries: Vec<(B64, String)>,
}

/// What the entries name, the last of them first.
spec fn of_entries(entries: Seq<(B64, String)>) -> Map<Seq<bool>, Seq<char>>
    decreases entries.len(),
{
    if entries.len() == 0 {
        Map::empty()
    } else {
        of_entries(entries.drop_last()).insert(entries.last().0@, entries.last().1@)
    }
}

impl View for ValueNames {
    type V = Map<Seq<bool>, Seq<char>>;

    closed spec fn view(&self) -> Map<Seq<bool>, Seq<char>> {
        of_entries(self.entries@)
    }
}

impl ValueNames {
    pub fn new() -> (r: Self)
        ensures
            r@ == Map::<Seq<bool>, Seq<char>>::empty(),
    {
        ValueNames { entries: Vec::new() }
    }

    pub fn insert(&mut self, value: B64, name: String)
        ensures
            final(self)@ == old(self)@.insert(value@, name@),
    {
        self.entries.push((value, name));
        assert(self.entries@.drop_last() =~= old(self).entries@);
    }

    /// The name of a bitvector.
    pub fn get(&self, value: B64) -> (r: Option<&str>)
        ensures
            r matches Some(name) ==> self@.dom().contains(value@) && name@ == self@[value@],
            r is None ==> !self@.dom().contains(value@),
    {
        let ghost all = of_entries(self.entries@);
        let mut i: usize = self.entries.len();
        assert(self.entries@.take(i as int) =~= self.entries@);
        while i > 0
            invariant
                i <= self.entries@.len(),
                all == of_entries(self.entries@),
                all.dom().contains(value@) == of_entries(self.entries@.take(i as int)).dom().contains(
                    value@,
                ),
                all.dom().contains(value@) ==> all[value@] == of_entries(
                    self.entries@.take(i as int),
                )[value@],
            decreases i,
        {
            let ghost upto = self.entries@.take(i as int);
            i = i - 1;
            assert(upto.drop_last() =~= self.entries@.take(i as int));
            assert(upto.last() == self.entries@[i as int]);
            if self.entries[i].0.same(value) {
                return Some(self.entries[i].1.as_str());
            }
        }
        None
    }
}

/// The names of addresses and pages, of each kind on its own.
pub struct AddressTables {
    pub pa_names: ValueNames,
    pub ipa_names: ValueNames,
    pub va_names: ValueNames,
}

/// The bits of an address.
pub open spec fn address_bits(val: u64) -> Seq<bool> {
    bv::from_int(64, val as int)
}

/// The bits of the number of the page that holds an address.
pub open spec fn page_bits(val: u64) -> Seq<bool> {
    bv::from_int(42, val as int / 4096)
}

/// The text for the page of a named address.
pub open spec fn page_name(name: Seq<char>) -> Seq<char> {
    "page("@ + name + ")"@
}

/// The names of one kind, where the addresses are named one after the other.
pub open spec fn named(addrs: Seq<(String, u64)>, kind: NameKind) -> Map<Seq<bool>, Seq<char>>
    decreases addrs.len(),
{
    if addrs.len() == 0 {
        Map::empty()
    } else {
        let before = named(addrs.drop_last(), kind);
        let (name, val) = addrs.last();
        if kind_of(name@) == kind {
            before.insert(address_bits(val), name@).insert(page_bits(val), page_name(name@))
        } else {
            before
        }
    }
}

/// Names all addresses and their pages.
pub fn name_addresses(addrs: &Vec<(String, u64)>) -> (r: AddressTables)
    ensures
        r.pa_names@ == named(addrs@, NameKind::Physical),
        r.ipa_names@ == named(addrs@, NameKind::Intermediate),
        r.va_names@ == named(addrs@, NameKind::Virtual),
{
    let mut pa_names = ValueNames::new();
    let mut ipa_names = ValueNames::new();
    let mut va_names = ValueNames::new();
    let mut i: usize = 0;
    while i < addrs.len()
        invariant
            i <= addrs@.len(),
            pa_names@ == named(addrs@.take(i as int), NameKind::Physical),
            ipa_names@ == named(addrs@.take(i as int), NameKind::Intermediate),
            va_names@ == named(addrs@.take(i as int), NameKind::Virtual),
        decreases addrs@.len() - i,
    {
        assert(addrs@.take(i + 1).drop_last() =~= addrs@.take(i as int));
        assert(addrs@.take(i + 1).last() == addrs@[i as int]);
        let names = name_address(addrs[i].0.as_str(), addrs[i].1);
        match names.kind {
            NameKind::Physical => {
                pa_names.insert(names.address.0, names.address.1);
                pa_names.insert(names.page.0, names.page.1);
            },
            NameKind::Intermediate => {
                ipa_names.insert(names.address.0, names.address.1);
                ipa_names.insert(names.page.0, names.page.1);
            },
            NameKind::Virtual => {
                va_names.insert(names.address.0, names.address.1);
                va_names.insert(names.page.0, names.page.1);
            },
        }
        i = i + 1;
    }
    assert(addrs@.take(i as int) =~= addrs@);
    AddressTables { pa_names, ipa_names, va_names }
}

/// An address has the name that was given to it last, by the names of its
/// kind.
pub proof fn law_last_name_holds(addrs: Seq<(String, u64)>, name: String, val: u64)
    ensures
        ({
            let names = named(addrs.push((name, val)), kind_of(name@));
            &&& names.dom().contains(address_bits(val))
            &&& names[address_bits(val)] == name@
            &&& names.dom().contains(page_bits(val))
            &&& names[page_bits(val)] == page_name(name@)
        }),
{
    assert(addrs.push((name, val)).drop_last() =~= addrs);
    assert(address_bits(val).len() != page_bits(val).len());
}

/// A page table of the initial state.
pub struct NamedTable {
    pub name: String,
    pub base: u64,
    pub kind: String,
}

/// A walk through an initial page table, whose bitvectors are named.
pub struct InitialWalk {
    /// Whether the names belong to the tables of stage 1, or to those of
    /// stage 2.
    pub stage_one: bool,
    pub va_name: String,
    pub va: VirtualAddress,
    pub table_name: String,
    pub base: u64,
}

pub struct InitialWalkView {
    pub stage_one: bool,
    pub va_name: Seq<char>,
    pub va: u64,
    pub table_name: Seq<char>,
    pub base: u64,
}

impl View for InitialWalk {
    type V = InitialWalkView;

    open spec fn view(&self) -> InitialWalkView {
        InitialWalkView {
            stage_one: self.stage_one,
            va_name: self.va_name@,
            va: self.va.bits,
            table_name: self.table_name@,
            base: self.base,
        }
    }
}

/// The walk for an address through a table.
pub open spec fn walk(table: NamedTable, addr: (String, u64)) -> InitialWalkView {
    InitialWalkView {
        stage_one: table.kind@ == "stage 1"@,
        va_name: addr.0@,
        va: addr.1,
        table_name: table.name@,
        base: table.base,
    }
}

/// The walks for all addresses through one table after the other.
pub open spec fn walks(tables: Seq<NamedTable>, addrs: Seq<(String, u64)>) -> Seq<InitialWalkView>
    decreases tables.len(),
{
    if tables.len() == 0 {
        Seq::empty()
    } else {
        walks(tables.drop_last(), addrs) + Seq::new(
            addrs.len(),
            |j: int| walk(tables.last(), addrs[j]),
        )
    }
}

/// Whether a table is of a kind that there is.
pub open spec fn known_kind(table: NamedTable) -> bool {
    table.kind@ == "stage 1"@ || table.kind@ == "stage 2"@
}

/// The walks to name, for all addresses of a test through all tables.
pub fn initial_walks(tables: &Vec<NamedTable>, addrs: &Vec<(String, u64)>) -> (r: Vec<InitialWalk>)
    requires
        addrs@.len() > 0 ==> forall|i: int|
            0 <= i < tables@.len() ==> #[trigger] known_kind(tables@[i]),
    ensures
        r@.map_values(|w: InitialWalk| w@) == walks(tables@, addrs@),
{
    let ghost seen = |w: InitialWalk| w@;
    let mut r: Vec<InitialWalk> = Vec::new();
    let mut i: usize = 0;
    assert(r@.map_values(seen) =~= walks(tables@.take(0), addrs@));
    while i < tables.len()
        invariant
            i <= tables@.len(),
            seen == |w: InitialWalk| w@,
            addrs@.len() > 0 ==> forall|i: int|
                0 <= i < tables@.len() ==> #[trigger] known_kind(tables@[i]),
            r@.map_values(seen) == walks(tables@.take(i as int), addrs@),
        decreases tables@.len() - i,
    {
        let ghost before = r@.map_values(seen);
        let table = &tables[i];
        let mut j: usize = 0;
        assert(before =~= before + Seq::new(0, |j: int| walk(*table, addrs@[j])));
        while j < addrs.len()
            invariant
                j <= addrs@.len(),
                addrs@.len() > 0 ==> known_kind(*table),
                seen == |w: InitialWalk| w@,
                r@.map_values(seen) == before + Seq::new(
                    j as nat,
                    |j: int| walk(*table, addrs@[j]),
                ),
            decreases addrs@.len() - j,
        {
            let ghost so_far = r@;
            match is_stage_one(table.kind.as_str()) {
                Some(stage_one) => {
                    r.push(
                        InitialWalk {
                            stage_one,
                            va_name: addrs[j].0.clone(),
                            va: VirtualAddress::from_u64(addrs[j].1),
                            table_name: table.name.clone(),
                            base: table.base,
                        },
                    );
                },
                None => {},
            }
            assert(r@.map_values(seen) =~= so_far.map_values(seen).push(walk(*table, addrs@[j as int])));
            assert(r@.map_values(seen) =~= before + Seq::new(
                (j + 1) as nat,
                |j: int| walk(*table, addrs@[j]),
            ));
            j = j + 1;
        }
        assert(tables@.take(i + 1).drop_last() =~= tables@.take(i as int));
        assert(tables@.take(i + 1).last() == *table);
        i = i + 1;
    }
    assert(tables@.take(i as int) =~= tables@);
    r
}

} // verus!
