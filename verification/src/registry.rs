//! The table of known drivers, keyed by compatibility string.
//!
//! If several drivers are registered for one compatibility string, the one
//! registered last replaces the others.

use crate::driver::{texts, Driver};
use crate::manager::{Bindings, DriverManager};
use crate::node::{DeviceTreeNode, NodeView};
use crate::ns16550a::Ns16550a;
use crate::text::same_text;
use vstd::prelude::*;

verus! {

/// The drivers that are built in. Each stands for its initialiser.
#[derive(Debug, Clone, Copy, PartialEq, Eq)]
pub enum DriverKind {
    Ns16550a,
}

impl DriverKind {
    /// What the driver's initialiser does for a node at `path`.
    pub open spec fn outcome(
        self,
        bytes: Seq<u8>,
        node: NodeView,
        path: Seq<char>,
        before: Bindings,
    ) -> (bool, Bindings) {
        match self {
            DriverKind::Ns16550a => Ns16550a::outcome(bytes, node, path, before),
        }
    }

    /// The compatibility strings of the devices that the driver serves.
    pub open spec fn names(self) -> Seq<Seq<char>> {
        match self {
            DriverKind::Ns16550a => Ns16550a::names(),
        }
    }

    /// Runs the driver's initialiser.
    pub fn try_initialize(
        &self,
        node: &DeviceTreeNode,
        path: &str,
        manager: &mut DriverManager,
    ) -> (ok: bool)
        ensures
            (ok, final(manager)@) == self.outcome(node.blob(), node@, path@, old(manager)@),
    {
        match self {
            DriverKind::Ns16550a => Ns16550a::try_initialize(node, path, manager),
        }
    }

    /// The compatibility strings of the devices that the driver serves.
    pub fn compatible(&self) -> (r: &'static [&'static str])
        ensures
            texts(r@) == self.names(),
    {
        match self {
            DriverKind::Ns16550a => Ns16550a::compatible(),
        }
    }
}

/// One line of the table.
pub struct Registration<I> {
    compatible: &'static str,
    initializer: I,
}

/// What a run of registrations maps each compatibility string to: the
/// initialiser of the last registration under it.
pub closed spec fn table_of<I>(entries: Seq<Registration<I>>) -> Map<Seq<char>, I>
    decreases entries.len(),
{
    if entries.len() == 0 {
        Map::empty()
    } else {
        table_of(entries.drop_last()).insert(
            entries.last().compatible@,
            entries.last().initializer,
        )
    }
}

/// `table` with `initializer` entered under each of `names`.
pub open spec fn registered<I>(table: Map<Seq<char>, I>, names: Seq<Seq<char>>, initializer: I) -> Map<
    Seq<char>,
    I,
>
    decreases names.len(),
{
    if names.len() == 0 {
        table
    } else {
        registered(table, names.drop_last(), initializer).insert(names.last(), initializer)
    }
}

/// The table of known drivers: it maps a compatibility string to the
/// initialiser of the driver that serves it.
pub struct DriverRegistry<I> {
    drivers: Vec<Registration<I>>,
}

impl<I> View for DriverRegistry<I> {
    type V = Map<Seq<char>, I>;

    closed spec fn view(&self) -> Map<Seq<char>, I> {
        table_of(self.drivers@)
    }
}

impl<I: Copy> DriverRegistry<I> {
    /// An empty table.
    pub fn new() -> (r: DriverRegistry<I>)
        ensures
            r@ == Map::<Seq<char>, I>::empty(),
    {
        DriverRegistry { drivers: Vec::new() }
    }

    /// Enters `initializer` under each of the compatibility strings. Where a
    /// string is in the table already, the new entry replaces the old one.
    pub fn register_driver(&mut self, compatible: &[&'static str], initializer: I)
        ensures
            final(self)@ == registered(old(self)@, texts(compatible@), initializer),
    {
        let ghost names = texts(compatible@);
        let mut i: usize = 0;
        assert(names.subrange(0, 0) =~= Seq::<Seq<char>>::empty());
        while i < compatible.len()
            invariant
                i <= compatible@.len(),
                names == texts(compatible@),
                self@ == registered(old(self)@, names.subrange(0, i as int), initializer),
            decreases compatible.len() - i,
        {
            let ghost before = self.drivers@;
            self.drivers.push(Registration { compatible: compatible[i], initializer });
            proof {
                assert(self.drivers@.drop_last() =~= before);
                let upto = names.subrange(0, i + 1);
                assert(upto.drop_last() =~= names.subrange(0, i as int));
                assert(upto.last() == compatible@[i as int]@);
            }
            i = i + 1;
        }
        assert(names.subrange(0, i as int) =~= names);
    }

    /// The initialiser that is registered for a compatibility string.
    pub fn get_compatible(&self, compatible: &str) -> (r: Option<&I>)
        ensures
            match r {
                Some(initializer) => self@.contains_key(compatible@) && *initializer
                    == self@[compatible@],
                None => !self@.contains_key(compatible@),
            },
    {
        let mut i: usize = self.drivers.len();
        assert(self.drivers@.subrange(0, i as int) =~= self.drivers@);
        while i > 0
            invariant
                i <= self.drivers@.len(),
                table_of(self.drivers@).contains_key(compatible@) == table_of(
                    self.drivers@.subrange(0, i as int),
                ).contains_key(compatible@),
                table_of(self.drivers@).contains_key(compatible@) ==> table_of(
                    self.drivers@,
                )[compatible@] == table_of(self.drivers@.subrange(0, i as int))[compatible@],
            decreases i,
        {
            let ghost prefix = self.drivers@.subrange(0, i as int);
            assert(prefix.drop_last() =~= self.drivers@.subrange(0, i - 1));
            assert(prefix.last() == self.drivers@[i - 1]);
            i = i - 1;
            let entry = &self.drivers[i];
            if same_text(entry.compatible, compatible) {
                return Some(&entry.initializer);
            }
        }
        assert(self.drivers@.subrange(0, 0) =~= Seq::<Registration<I>>::empty());
        None
    }
}

/// The table of the built-in drivers.
pub open spec fn known_drivers() -> Map<Seq<char>, DriverKind> {
    registered(Map::empty(), DriverKind::Ns16550a.names(), DriverKind::Ns16550a)
}

/// Builds the table of the built-in drivers.
pub fn get_registry() -> (r: DriverRegistry<DriverKind>)
    ensures
        r@ == known_drivers(),
{
    let mut registry: DriverRegistry<DriverKind> = DriverRegistry::new();
    let names = DriverKind::Ns16550a.compatible();
    registry.register_driver(names, DriverKind::Ns16550a);
    registry
}

/// Of two registrations under one compatibility string the later one alone
/// is left: the string resolves to the second initialiser, and the table is
/// what it would be had the first registration never been made.
pub proof fn lemma_later_registration_wins<I>(
    table: Map<Seq<char>, I>,
    name: Seq<char>,
    first: I,
    second: I,
)
    ensures
        registered(registered(table, seq![name], first), seq![name], second)[name] == second,
        registered(registered(table, seq![name], first), seq![name], second).contains_key(
            name,
        ),
        registered(registered(table, seq![name], first), seq![name], second) == registered(
            table,
            seq![name],
            second,
        ),
{
    let one = seq![name];
    assert(one.drop_last() =~= Seq::<Seq<char>>::empty());
    assert(one.last() == name);
    assert(registered(table, one.drop_last(), first) == table);
    let mid = registered(table, one, first);
    assert(registered(mid, one.drop_last(), second) == mid);
    assert(registered(table, one.drop_last(), second) == table);
    assert(mid.insert(name, second) =~= table.insert(name, second));
}

} // verus!
