//! What every driver offers to the registry and the manager.

use crate::manager::{Bindings, DriverManager};
use crate::node::{DeviceTreeNode, NodeView};
use vstd::prelude::*;

verus! {

/// The characters of each string of `names`, in order.
pub open spec fn texts(names: Seq<&'static str>) -> Seq<Seq<char>> {
    Seq::new(names.len(), |i: int| names[i]@)
}

/// A driver: it knows the compatibility strings of the devices it serves, and
/// how to bind itself to a node of the tree.
pub trait Driver: Sized {
    /// What `try_initialize` does for a node at `path`: whether it succeeds,
    /// and what the manager binds afterwards.
    spec fn outcome(bytes: Seq<u8>, node: NodeView, path: Seq<char>, before: Bindings) -> (
        bool,
        Bindings,
    );

    /// The compatibility strings of the devices that the driver serves.
    spec fn names() -> Seq<Seq<char>>;

    /// Initialises the driver for `node` and registers its capabilities with
    /// the manager under `path`. Returns `true` if it succeeds.
    fn try_initialize(node: &DeviceTreeNode, path: &str, manager: &mut DriverManager) -> (ok: bool)
        ensures
            (ok, final(manager)@) == Self::outcome(node.blob(), node@, path@, old(manager)@),
    ;

    /// The compatibility strings of the devices that the driver serves.
    fn compatible() -> (r: &'static [&'static str])
        ensures
            texts(r@) == Self::names(),
    ;
}

} // verus!
