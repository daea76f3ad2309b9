//! The capabilities that drivers have registered, each under the path of its
//! device and the kind of the capability.

use crate::children::lemma_child_at_advances;
use crate::discovery::{
    all_sound, bind_first, compatible_names, lemma_walk_step, nodes_of, path_of, spec_load,
    try_bind, under, walk, Pending,
};
use crate::structure::total_weight;
use crate::node::{sound, DeviceTreeNode, NodeView, ParsingError};
use crate::ns16550a::Ns16550a;
use crate::reader::{children_left, children_of, seen_then};
use crate::registry::{get_registry, known_drivers, DriverKind, DriverRegistry};
use crate::shared::{made_with, SharedUart};
use crate::text::{decode, same_text};
use crate::wire::{find_nul, lemma_nul_at, remaining};
use spin::mutex::Mutex;
use spin::relax::Spin;
use std::collections::VecDeque;
use vstd::prelude::*;
use vstd::slice::slice_subrange;
use vstd::string::StringExecFns;

verus! {

/// The kinds of capability that a driver can register.
#[derive(Debug, Clone, Copy, PartialEq, Eq, Structural)]
pub enum CapabilityKind {
    /// Serial input and output.
    Uart,
}

/// What the manager binds: for a path and a kind, the instance that the
/// shared lock was made around.
pub type Bindings = Map<(Seq<char>, CapabilityKind), Ns16550a>;

/// One registration.
pub struct Binding {
    path: String,
    kind: CapabilityKind,
    device: SharedUart,
}

/// What a run of registrations binds: for each key the device of the last
/// registration under it.
pub closed spec fn bindings_of(entries: Seq<Binding>) -> Bindings
    decreases entries.len(),
{
    if entries.len() == 0 {
        Map::empty()
    } else {
        bindings_of(entries.drop_last()).insert(
            (entries.last().path@, entries.last().kind),
            made_with(*entries.last().device),
        )
    }
}

/// The locks that the manager hands out: for a path and a kind, the lock that
/// was registered.
pub type Locks = Map<(Seq<char>, CapabilityKind), Mutex<Ns16550a, Spin>>;

/// The locks of a run of registrations: for each key the lock of the last
/// registration under it.
pub closed spec fn locks_of(entries: Seq<Binding>) -> Locks
    decreases entries.len(),
{
    if entries.len() == 0 {
        Map::empty()
    } else {
        locks_of(entries.drop_last()).insert(
            (entries.last().path@, entries.last().kind),
            *entries.last().device,
        )
    }
}

/// What is bound is what the locks were made around.
proof fn lemma_locks_of(entries: Seq<Binding>)
    ensures
        bindings_of(entries).dom() == locks_of(entries).dom(),
        forall|key: (Seq<char>, CapabilityKind)|
            #[trigger] locks_of(entries).contains_key(key) ==> bindings_of(entries)[key]
                == made_with(locks_of(entries)[key]),
    decreases entries.len(),
{
    if entries.len() > 0 {
        lemma_locks_of(entries.drop_last());
        assert(bindings_of(entries).dom() =~= locks_of(entries).dom());
    }
}

/// The nodes that wait in a queue, as values.
pub open spec fn pending(queue: Seq<(DeviceTreeNode, String)>) -> Pending {
    Seq::new(queue.len(), |i: int| (queue[i].0@, queue[i].1@))
}

/// Whether every node of the queue lies in `bytes`.
pub open spec fn all_in(bytes: Seq<u8>, queue: Seq<(DeviceTreeNode, String)>) -> bool {
    forall|i: int| 0 <= i < queue.len() ==> (#[trigger] queue[i]).0.blob() == bytes
}

/// Puts the children of `node` at the back of the queue, each with `path`
/// for the path of its parent.
fn enqueue_children<'a>(
    queue: &mut VecDeque<(DeviceTreeNode<'a>, String)>,
    node: &DeviceTreeNode<'a>,
    path: &str,
) -> (r: Result<(), ParsingError>)
    requires
        all_in(node.blob(), old(queue)@),
        all_sound(node.blob(), pending(old(queue)@)),
    ensures
        match children_of(node.blob(), node@) {
            Ok(nodes) => r is Ok && pending(final(queue)@) == pending(old(queue)@) + under(
                nodes,
                path@,
            ) && all_in(node.blob(), final(queue)@) && all_sound(
                node.blob(),
                pending(final(queue)@),
            ),
            Err(e) => r == Err::<(), ParsingError>(e),
        },
{
    let mut cursor = node.children();
    let ghost bytes = node.blob();
    let ghost strings = node@.strings;
    let ghost mut seen: Seq<NodeView> = Seq::empty();
    proof {
        match children_left(bytes, cursor@.pos, strings) {
            Ok(rest) => {
                assert(seen + rest =~= rest);
            },
            Err(_) => {},
        }
        assert(pending(queue@) + under(seen, path@) =~= pending(queue@));
    }
    loop
        invariant
            cursor.blob() == bytes,
            bytes == node.blob(),
            cursor@.strings == strings,
            children_of(bytes, node@) == seen_then(
                seen,
                children_left(bytes, cursor@.pos, strings),
            ),
            pending(queue@) == pending(old(queue)@) + under(seen, path@),
            all_in(bytes, queue@),
            all_sound(bytes, pending(queue@)),
        decreases
                match cursor@.pos {
                    Some(pos) => remaining(bytes, pos) + 1,
                    None => 0,
                },
    {
        proof {
            if let Some(pos) = cursor@.pos {
                lemma_child_at_advances(bytes, pos, strings);
            }
        }
        match cursor.next() {
            Err(e) => {
                return Err(e);
            },
            Ok(None) => {
                proof {
                    assert(seen + Seq::<NodeView>::empty() =~= seen);
                }
                return Ok(());
            },
            Ok(Some(child)) => {
                let ghost before = queue@;
                proof {
                    use_type_invariant(&child);
                    match children_left(bytes, cursor@.pos, strings) {
                        Ok(rest) => {
                            assert(seen + (seq![child@] + rest) =~= seen.push(child@) + rest);
                        },
                        Err(_) => {},
                    }
                }
                let parent = String::from_str(path);
                queue.push_back((child, parent));
                proof {
                    assert(pending(queue@) =~= pending(before).push((child@, path@)));
                    assert(pending(before).push((child@, path@)) =~= pending(old(queue)@) + under(
                        seen.push(child@),
                        path@,
                    ));
                    seen = seen.push(child@);
                    assert forall|i: int| 0 <= i < queue@.len() implies (#[trigger] queue@[i]).0.blob()
                        == bytes by {
                        if i < before.len() {
                            assert(queue@[i] == before[i]);
                        }
                    }
                    assert forall|i: int| 0 <= i < pending(queue@).len() implies sound(
                        bytes,
                        (#[trigger] pending(queue@)[i]).0,
                    ) by {
                        if i < before.len() {
                            assert(pending(queue@)[i] == pending(before)[i]);
                        }
                    }
                }
            },
        }
    }
}

/// The registry of running drivers.
pub struct DriverManager {
    drivers: Vec<Binding>,
}

impl View for DriverManager {
    type V = Bindings;

    closed spec fn view(&self) -> Bindings {
        bindings_of(self.drivers@)
    }
}

impl Default for DriverManager {
    fn default() -> (r: DriverManager)
        ensures
            r@ == Map::<(Seq<char>, CapabilityKind), Ns16550a>::empty(),
    {
        DriverManager { drivers: Vec::new() }
    }
}

impl DriverManager {
    /// The locks that the manager hands out.
    pub closed spec fn locks(&self) -> Locks {
        locks_of(self.drivers@)
    }

    /// What the manager binds is what its locks were made around.
    pub proof fn lemma_bindings_are_locks(&self)
        ensures
            self@.dom() == self.locks().dom(),
            forall|key: (Seq<char>, CapabilityKind)|
                #[trigger] self.locks().contains_key(key) ==> self@[key] == made_with(
                    self.locks()[key],
                ),
    {
        lemma_locks_of(self.drivers@);
    }

    /// A manager that binds nothing.
    pub fn new() -> (r: DriverManager)
        ensures
            r@ == Map::<(Seq<char>, CapabilityKind), Ns16550a>::empty(),
    {
        DriverManager { drivers: Vec::new() }
    }

    /// Loads the drivers for the tree under `dtb_root`: visits every node
    /// below the root breadth first and tries to bind a driver to each. A
    /// node that no driver serves is left unbound, and the walk goes on with
    /// its children. A node that cannot be decoded ends the walk.
    pub fn load_drivers(&mut self, dtb_root: &DeviceTreeNode) -> (r: Result<(), ParsingError>)
        ensures
            final(self)@ == spec_load(
                dtb_root.blob(),
                dtb_root@,
                known_drivers(),
                old(self)@,
            ).0,
            match spec_load(dtb_root.blob(), dtb_root@, known_drivers(), old(self)@).1 {
                Some(e) => r == Err::<(), ParsingError>(e),
                None => r is Ok,
            },
    {
        let ghost bytes = dtb_root.blob();
        let ghost registry = known_drivers();
        let drivers = get_registry();
        let mut queue: VecDeque<(DeviceTreeNode, String)> = VecDeque::new();
        proof {
            assert(pending(queue@) =~= Seq::empty());
        }
        enqueue_children(&mut queue, dtb_root, "")?;
        proof {
            reveal_strlit("");
            assert(""@ =~= Seq::<char>::empty());
            if let Ok(nodes) = children_of(bytes, dtb_root@) {
                assert(pending(queue@) =~= under(nodes, Seq::empty()));
            }
        }
        loop
            invariant
                bytes == dtb_root.blob(),
                registry == known_drivers(),
                drivers@ == registry,
                all_in(bytes, queue@),
                all_sound(bytes, pending(queue@)),
                spec_load(bytes, dtb_root@, registry, old(self)@) == walk(
                    bytes,
                    registry,
                    pending(queue@),
                    self@,
                ),
            decreases total_weight(nodes_of(pending(queue@))),
        {
            let ghost waiting = pending(queue@);
            let ghost before = queue@;
            let (node, parent) = match queue.pop_front() {
                Some(entry) => entry,
                None => {
                    return Ok(());
                },
            };
            let mut path = String::from_str(parent.as_str());
            path.append("/");
            path.append(node.full_name());
            proof {
                reveal_strlit("/");
                assert(path@ =~= path_of(parent@, node@.name));
                assert(waiting[0] == (node@, parent@));
                assert(before[0].0.blob() == bytes);
                assert(pending(queue@) =~= waiting.drop_first());
                lemma_walk_step(bytes, waiting, path@);
                assert forall|i: int| 0 <= i < queue@.len() implies (#[trigger] queue@[i]).0.blob()
                    == bytes by {
                    assert(queue@[i] == before[i + 1]);
                }
                assert forall|i: int| 0 <= i < pending(queue@).len() implies sound(
                    bytes,
                    (#[trigger] pending(queue@)[i]).0,
                ) by {
                    assert(pending(queue@)[i] == waiting[i + 1]);
                }
            }
            self.try_init_with(&drivers, &node, path.as_str())?;
            enqueue_children(&mut queue, &node, path.as_str())?;
        }
    }

    /// Tries to bind a driver to `node`: reads its `compatible` property and
    /// tries the driver registered for each string that it lists, in order,
    /// until one succeeds. Returns whether one did.
    pub fn try_init_driver(&mut self, node: &DeviceTreeNode, path: &str) -> (r: Result<
        bool,
        ParsingError,
    >)
        ensures
            match try_bind(node.blob(), node@, path@, known_drivers(), old(self)@) {
                Ok(tried) => r == Ok::<bool, ParsingError>(tried.0) && final(self)@ == tried.1,
                Err(e) => r == Err::<bool, ParsingError>(e) && final(self)@ == old(self)@,
            },
    {
        let registry = get_registry();
        self.try_init_with(&registry, node, path)
    }

    /// Tries to bind to `node` a driver of `registry`.
    fn try_init_with(
        &mut self,
        registry: &DriverRegistry<DriverKind>,
        node: &DeviceTreeNode,
        path: &str,
    ) -> (r: Result<bool, ParsingError>)
        ensures
            match try_bind(node.blob(), node@, path@, registry@, old(self)@) {
                Ok(tried) => r == Ok::<bool, ParsingError>(tried.0) && final(self)@ == tried.1,
                Err(e) => r == Err::<bool, ParsingError>(e) && final(self)@ == old(self)@,
            },
    {
        let prop = match node.get_property("compatible")? {
            Some(prop) => prop,
            None => {
                return Ok(false);
            },
        };
        let value = prop.raw_value();
        let ghost names = compatible_names(value@, 0);
        let ghost bytes = node.blob();
        let mut from: usize = 0;
        loop
            invariant
                from <= value@.len(),
                bytes == node.blob(),
                names == compatible_names(value@, 0),
                try_bind(bytes, node@, path@, registry@, old(self)@) == Ok::<
                    (bool, Bindings),
                    ParsingError,
                >(bind_first(bytes, node@, path@, names, registry@, old(self)@)),
                bind_first(bytes, node@, path@, names, registry@, old(self)@) == bind_first(
                    bytes,
                    node@,
                    path@,
                    compatible_names(value@, from as int),
                    registry@,
                    self@,
                ),
            decreases value@.len() - from,
        {
            proof {
                lemma_nul_at(value@, from as int);
            }
            let stop: usize = match find_nul(value, from) {
                Some(z) => z,
                None => value.len(),
            };
            let ghost rest = if stop >= value@.len() {
                Seq::<Seq<char>>::empty()
            } else {
                compatible_names(value@, stop + 1)
            };
            let ghost here = compatible_names(value@, from as int);
            if stop > from {
                match decode(slice_subrange(value, from, stop)) {
                    Ok(name) => {
                        proof {
                            assert(here =~= seq![name@] + rest);
                            assert(here.drop_first() =~= rest);
                            assert(here[0] == name@);
                        }
                        match registry.get_compatible(name) {
                            Some(kind) => {
                                if kind.try_initialize(node, path, self) {
                                    return Ok(true);
                                }
                            },
                            None => {},
                        }
                    },
                    Err(_) => {
                        assert(here =~= rest);
                    },
                }
            } else {
                assert(here =~= rest);
            }
            assert(bind_first(bytes, node@, path@, names, registry@, old(self)@) == bind_first(
                bytes,
                node@,
                path@,
                rest,
                registry@,
                self@,
            ));
            if stop >= value.len() {
                return Ok(false);
            }
            from = stop + 1;
        }
    }

    /// Registers `implementation` as the capability `kind` of the device at
    /// `path`. A registration under the same path and kind is replaced.
    pub fn register_capability(
        &mut self,
        path: &str,
        kind: CapabilityKind,
        implementation: SharedUart,
    )
        ensures
            final(self)@ == old(self)@.insert((path@, kind), made_with(*implementation)),
            final(self).locks() == old(self).locks().insert((path@, kind), *implementation),
    {
        let ghost before = self.drivers@;
        let binding = Binding { path: String::from_str(path), kind, device: implementation };
        self.drivers.push(binding);
        assert(self.drivers@.drop_last() =~= before);
    }

    /// The capability `kind` of the device at `path`: the instance that was
    /// last registered under exactly that path and kind.
    pub fn get_by_path(&self, path: &str, kind: CapabilityKind) -> (r: Option<SharedUart>)
        ensures
            match r {
                Some(shared) => self@.contains_key((path@, kind)) && made_with(*shared)
                    == self@[(path@, kind)] && *shared == self.locks()[(path@, kind)],
                None => !self@.contains_key((path@, kind)),
            },
    {
        let mut i: usize = self.drivers.len();
        assert(self.drivers@.subrange(0, i as int) =~= self.drivers@);
        while i > 0
            invariant
                i <= self.drivers@.len(),
                bindings_of(self.drivers@).contains_key((path@, kind)) == bindings_of(
                    self.drivers@.subrange(0, i as int),
                ).contains_key((path@, kind)),
                bindings_of(self.drivers@).contains_key((path@, kind)) ==> bindings_of(
                    self.drivers@,
                )[(path@, kind)] == bindings_of(self.drivers@.subrange(0, i as int))[(
                    path@,
                    kind,
                )] && locks_of(self.drivers@)[(path@, kind)] == locks_of(
                    self.drivers@.subrange(0, i as int),
                )[(path@, kind)],
            decreases i,
        {
            let ghost prefix = self.drivers@.subrange(0, i as int);
            assert(prefix.drop_last() =~= self.drivers@.subrange(0, i - 1));
            assert(prefix.last() == self.drivers@[i - 1]);
            i = i - 1;
            let binding = &self.drivers[i];
            if binding.kind == kind && same_text(binding.path.as_str(), path) {
                return Some(binding.device.clone());
            }
        }
        assert(self.drivers@.subrange(0, 0) =~= Seq::<Binding>::empty());
        None
    }
}

} // verus!
