//! What the walk over the tree binds: which node is tried against which
//! driver, and in what order.

use crate::manager::{Bindings, CapabilityKind};
use crate::node::{sound, NodeView, ParsingError};
use crate::properties::find_property;
use crate::reader::children_of;
use crate::registry::DriverKind;
use crate::structure::{lemma_children_of_sound, lemma_total_weight_add, total_weight};
use crate::wire::{lemma_nul_at, nul_at};
use vstd::prelude::*;
use vstd::utf8::*;

verus! {

/// Where the run of bytes that begins at `from` ends: at the next zero byte,
/// or at the end of the value.
pub open spec fn segment_end(value: Seq<u8>, from: int) -> int {
    match nul_at(value, from) {
        Some(z) => z,
        None => value.len() as int,
    }
}

/// The compatibility strings that a `compatible` value lists from `from` on:
/// the runs of bytes between zero bytes that are not empty and are UTF-8, in
/// the order in which they are declared.
pub open spec fn compatible_names(value: Seq<u8>, from: int) -> Seq<Seq<char>>
    decreases value.len() - from,
    via compatible_names_decreases
{
    if from < 0 || from > value.len() {
        Seq::empty()
    } else {
        let stop = segment_end(value, from);
        let segment = value.subrange(from, stop);
        let here = if segment.len() > 0 && valid_utf8(segment) {
            seq![decode_utf8(segment)]
        } else {
            Seq::empty()
        };
        if stop >= value.len() {
            here
        } else {
            here + compatible_names(value, stop + 1)
        }
    }
}

#[via_fn]
proof fn compatible_names_decreases(value: Seq<u8>, from: int) {
    lemma_nul_at(value, from);
}

/// Tries the drivers that are registered for `names`, in order, on one node.
/// The first that succeeds ends the search. One that fails may have changed
/// what the manager binds, and the next works on from there.
pub open spec fn bind_first(
    bytes: Seq<u8>,
    node: NodeView,
    path: Seq<char>,
    names: Seq<Seq<char>>,
    registry: Map<Seq<char>, DriverKind>,
    before: Bindings,
) -> (bool, Bindings)
    decreases names.len(),
{
    if names.len() == 0 {
        (false, before)
    } else if !registry.contains_key(names[0]) {
        bind_first(bytes, node, path, names.drop_first(), registry, before)
    } else {
        let tried = registry[names[0]].outcome(bytes, node, path, before);
        if tried.0 {
            (true, tried.1)
        } else {
            bind_first(bytes, node, path, names.drop_first(), registry, tried.1)
        }
    }
}

/// What trying to bind a driver to one node gives: whether one was bound, and
/// what the manager binds afterwards. A node without a `compatible` property
/// is left alone. Only a property record that cannot be decoded is an error.
pub open spec fn try_bind(
    bytes: Seq<u8>,
    node: NodeView,
    path: Seq<char>,
    registry: Map<Seq<char>, DriverKind>,
    before: Bindings,
) -> Result<(bool, Bindings), ParsingError> {
    match node.props {
        None => Ok((false, before)),
        Some(pos) => match find_property(bytes, pos, node.strings, "compatible"@) {
            Err(e) => Err(e),
            Ok(None) => Ok((false, before)),
            Ok(Some(prop)) => Ok(
                bind_first(bytes, node, path, compatible_names(prop.value, 0), registry, before),
            ),
        },
    }
}

/// The compatibility strings that a node lists: those of its `compatible`
/// property, and none where it has no such property or its properties cannot
/// be decoded.
pub open spec fn listed(bytes: Seq<u8>, node: NodeView) -> Seq<Seq<char>> {
    match node.props {
        None => Seq::empty(),
        Some(pos) => match find_property(bytes, pos, node.strings, "compatible"@) {
            Ok(Some(prop)) => compatible_names(prop.value, 0),
            _ => Seq::empty(),
        },
    }
}

/// Whether the registry knows one of `names`.
pub open spec fn knows_one_of(registry: Map<Seq<char>, DriverKind>, names: Seq<Seq<char>>) -> bool {
    exists|i: int| 0 <= i < names.len() && registry.contains_key(#[trigger] names[i])
}

/// Where the registry knows none of the names, no driver is tried and
/// nothing is bound.
pub proof fn lemma_unknown_names_bind_nothing(
    bytes: Seq<u8>,
    node: NodeView,
    path: Seq<char>,
    names: Seq<Seq<char>>,
    registry: Map<Seq<char>, DriverKind>,
    before: Bindings,
)
    requires
        !knows_one_of(registry, names),
    ensures
        bind_first(bytes, node, path, names, registry, before) == (false, before),
    decreases names.len(),
{
    if names.len() > 0 {
        assert(!registry.contains_key(names[0]));
        let rest = names.drop_first();
        assert forall|i: int| 0 <= i < rest.len() implies !registry.contains_key(
            #[trigger] rest[i],
        ) by {
            assert(rest[i] == names[i + 1]);
        }
        lemma_unknown_names_bind_nothing(bytes, node, path, rest, registry, before);
    }
}

/// A node that lists no compatibility string known to the registry is left
/// unbound: trying it changes nothing of what the manager binds, whatever
/// its path. It is an error only where its properties cannot be decoded.
pub proof fn lemma_unserved_node_is_left_unbound(
    bytes: Seq<u8>,
    node: NodeView,
    path: Seq<char>,
    registry: Map<Seq<char>, DriverKind>,
    before: Bindings,
)
    requires
        !knows_one_of(registry, listed(bytes, node)),
    ensures
        match try_bind(bytes, node, path, registry, before) {
            Ok(tried) => tried == (false, before),
            Err(_) => true,
        },
{
    lemma_unknown_names_bind_nothing(bytes, node, path, listed(bytes, node), registry, before);
}

/// A node at the head of the queue that no driver serves does not end the
/// walk: the walk goes on with the nodes that wait behind it, its siblings
/// among them, and then with its children, and binds what it would bind
/// without that node.
pub proof fn lemma_walk_goes_on_past_unserved_node(
    bytes: Seq<u8>,
    registry: Map<Seq<char>, DriverKind>,
    queue: Pending,
    before: Bindings,
)
    requires
        queue.len() > 0,
        all_sound(bytes, queue),
        !knows_one_of(registry, listed(bytes, queue[0].0)),
        try_bind(bytes, queue[0].0, path_of(queue[0].1, queue[0].0.name), registry, before) is Ok,
        children_of(bytes, queue[0].0) is Ok,
    ensures
        walk(bytes, registry, queue, before) == walk(
            bytes,
            registry,
            queue.drop_first() + under(
                children_of(bytes, queue[0].0)->Ok_0,
                path_of(queue[0].1, queue[0].0.name),
            ),
            before,
        ),
{
    let node = queue[0].0;
    let path = path_of(queue[0].1, node.name);
    lemma_unserved_node_is_left_unbound(bytes, node, path, registry, before);
    lemma_walk_step(bytes, queue, path);
    let tried = try_bind(bytes, node, path, registry, before)->Ok_0;
    assert(tried.1 == before);
    let nodes = children_of(bytes, node)->Ok_0;
    assert(walk(bytes, registry, queue, before) == walk(
        bytes,
        registry,
        queue.drop_first() + under(nodes, path),
        tried.1,
    ));
}

/// The nodes that wait to be visited, each with the path of its parent.
pub type Pending = Seq<(NodeView, Seq<char>)>;

/// `nodes`, each with `parent` for the path of its parent.
pub open spec fn under(nodes: Seq<NodeView>, parent: Seq<char>) -> Pending {
    Seq::new(nodes.len(), |i: int| (nodes[i], parent))
}

/// The nodes of a queue, without their paths.
pub open spec fn nodes_of(queue: Pending) -> Seq<NodeView> {
    Seq::new(queue.len(), |i: int| queue[i].0)
}

/// Whether every node of the queue is what decoding the blob gives.
pub open spec fn all_sound(bytes: Seq<u8>, queue: Pending) -> bool {
    forall|i: int| 0 <= i < queue.len() ==> sound(bytes, (#[trigger] queue[i]).0)
}

/// The path of a node: the path of its parent, a `/`, and its full name.
pub open spec fn path_of(parent: Seq<char>, name: Seq<char>) -> Seq<char> {
    parent + seq!['/'] + name
}

/// The breadth-first walk: the node at the head of the queue is tried against
/// the registry, then its children join the queue behind all that wait. The
/// walk ends when the queue is empty, or at the first node whose properties
/// or children cannot be decoded, which is returned with what was bound up to
/// there.
pub open spec fn walk(
    bytes: Seq<u8>,
    registry: Map<Seq<char>, DriverKind>,
    queue: Pending,
    before: Bindings,
) -> (Bindings, Option<ParsingError>)
    decreases total_weight(nodes_of(queue)),
    when all_sound(bytes, queue)
    via walk_decreases
{
    if queue.len() == 0 {
        (before, None)
    } else {
        let node = queue[0].0;
        let path = path_of(queue[0].1, node.name);
        match try_bind(bytes, node, path, registry, before) {
            Err(e) => (before, Some(e)),
            Ok(tried) => match children_of(bytes, node) {
                Err(e) => (tried.1, Some(e)),
                Ok(nodes) => walk(
                    bytes,
                    registry,
                    queue.drop_first() + under(nodes, path),
                    tried.1,
                ),
            },
        }
    }
}

#[via_fn]
proof fn walk_decreases(
    bytes: Seq<u8>,
    registry: Map<Seq<char>, DriverKind>,
    queue: Pending,
    before: Bindings,
) {
    if queue.len() > 0 {
        let node = queue[0].0;
        let path = path_of(queue[0].1, node.name);
        lemma_walk_step(bytes, queue, path);
    }
}

/// Visiting the head of the queue leaves a queue of sound nodes that take up
/// less of the blob.
pub proof fn lemma_walk_step(bytes: Seq<u8>, queue: Pending, path: Seq<char>)
    requires
        queue.len() > 0,
        all_sound(bytes, queue),
    ensures
        match children_of(bytes, queue[0].0) {
            Ok(nodes) => all_sound(bytes, queue.drop_first() + under(nodes, path))
                && total_weight(nodes_of(queue.drop_first() + under(nodes, path)))
                < total_weight(nodes_of(queue)),
            Err(_) => true,
        },
{
    let node = queue[0].0;
    assert(sound(bytes, queue[0].0));
    lemma_children_of_sound(bytes, node);
    if let Ok(nodes) = children_of(bytes, node) {
        let next = queue.drop_first() + under(nodes, path);
        assert(nodes_of(next) =~= nodes_of(queue).drop_first() + nodes);
        lemma_total_weight_add(nodes_of(queue).drop_first(), nodes);
        assert(nodes_of(queue)[0] == node);
        assert forall|i: int| 0 <= i < next.len() implies sound(bytes, (#[trigger] next[i]).0) by {
            if i < queue.len() - 1 {
                assert(next[i] == queue[i + 1]);
            } else {
                assert(next[i].0 == nodes[i - (queue.len() - 1)]);
            }
        }
    }
}

/// Whether the walk comes to a node at `path` that lists a compatibility
/// string known to the registry.
pub open spec fn visits_served(
    bytes: Seq<u8>,
    registry: Map<Seq<char>, DriverKind>,
    queue: Pending,
    path: Seq<char>,
) -> bool
    decreases total_weight(nodes_of(queue)),
    when all_sound(bytes, queue)
    via visits_served_decreases
{
    if queue.len() == 0 {
        false
    } else {
        let node = queue[0].0;
        let here = path_of(queue[0].1, node.name);
        (here == path && knows_one_of(registry, listed(bytes, node))) || match children_of(
            bytes,
            node,
        ) {
            Err(_) => false,
            Ok(nodes) => visits_served(
                bytes,
                registry,
                queue.drop_first() + under(nodes, here),
                path,
            ),
        }
    }
}

#[via_fn]
proof fn visits_served_decreases(
    bytes: Seq<u8>,
    registry: Map<Seq<char>, DriverKind>,
    queue: Pending,
    path: Seq<char>,
) {
    if queue.len() > 0 {
        lemma_walk_step(bytes, queue, path_of(queue[0].1, queue[0].0.name));
    }
}

/// Trying drivers on a node at `path` changes nothing of what is bound
/// under any other path.
pub proof fn lemma_bind_first_keeps_other_paths(
    bytes: Seq<u8>,
    node: NodeView,
    path: Seq<char>,
    names: Seq<Seq<char>>,
    registry: Map<Seq<char>, DriverKind>,
    before: Bindings,
    other: (Seq<char>, CapabilityKind),
)
    requires
        other.0 != path,
    ensures
        bind_first(bytes, node, path, names, registry, before).1.contains_key(other)
            == before.contains_key(other),
        before.contains_key(other) ==> bind_first(
            bytes,
            node,
            path,
            names,
            registry,
            before,
        ).1[other] == before[other],
    decreases names.len(),
{
    if names.len() > 0 {
        if !registry.contains_key(names[0]) {
            lemma_bind_first_keeps_other_paths(
                bytes,
                node,
                path,
                names.drop_first(),
                registry,
                before,
                other,
            );
        } else {
            let tried = registry[names[0]].outcome(bytes, node, path, before);
            if !tried.0 {
                lemma_bind_first_keeps_other_paths(
                    bytes,
                    node,
                    path,
                    names.drop_first(),
                    registry,
                    tried.1,
                    other,
                );
            }
        }
    }
}

/// A path at which the walk comes to no node that lists a compatibility
/// string known to the registry is bound afterwards to what it was bound to
/// before: where nothing was registered under it, nothing is, for every kind
/// of capability.
pub proof fn lemma_unserved_path_stays_unbound(
    bytes: Seq<u8>,
    registry: Map<Seq<char>, DriverKind>,
    queue: Pending,
    before: Bindings,
    path: Seq<char>,
    kind: CapabilityKind,
)
    requires
        all_sound(bytes, queue),
        !visits_served(bytes, registry, queue, path),
    ensures
        walk(bytes, registry, queue, before).0.contains_key((path, kind)) == before.contains_key(
            (path, kind),
        ),
        before.contains_key((path, kind)) ==> walk(bytes, registry, queue, before).0[(
            path,
            kind,
        )] == before[(path, kind)],
    decreases total_weight(nodes_of(queue)),
{
    if queue.len() > 0 {
        let node = queue[0].0;
        let here = path_of(queue[0].1, node.name);
        lemma_walk_step(bytes, queue, here);
        match try_bind(bytes, node, here, registry, before) {
            Err(_) => {},
            Ok(tried) => {
                if here == path {
                    lemma_unserved_node_is_left_unbound(bytes, node, here, registry, before);
                } else {
                    lemma_bind_first_keeps_other_paths(
                        bytes,
                        node,
                        here,
                        listed(bytes, node),
                        registry,
                        before,
                        (path, kind),
                    );
                }
                match children_of(bytes, node) {
                    Err(_) => {},
                    Ok(nodes) => {
                        lemma_unserved_path_stays_unbound(
                            bytes,
                            registry,
                            queue.drop_first() + under(nodes, here),
                            tried.1,
                            path,
                            kind,
                        );
                    },
                }
            },
        }
    }
}

/// What loading the drivers for the tree under `root` gives: the walk over
/// the children of the root, which have the empty path for their parent's.
/// The root itself is tried against no driver.
pub open spec fn spec_load(
    bytes: Seq<u8>,
    root: NodeView,
    registry: Map<Seq<char>, DriverKind>,
    before: Bindings,
) -> (Bindings, Option<ParsingError>) {
    match children_of(bytes, root) {
        Err(e) => (before, Some(e)),
        Ok(nodes) => walk(bytes, registry, under(nodes, Seq::empty()), before),
    }
}

} // verus!
