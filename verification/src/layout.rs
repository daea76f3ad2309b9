//! A tree as it is laid out in a blob, and what decoding the blob gives
//! back: the name of each node, its properties and its children, as many as
//! were laid out and in their order, whatever `Nop` tokens stand between
//! them and however deep the children go.

use crate::children::{child_at, children_from};
use crate::node::{body_start, first_child, node_end, property_end, spec_parse, NodeView, ParsingError};
use crate::properties::{be_len, properties_from, properties_of, property_at, PropertyView};
use crate::reader::children_of;
use crate::structure::lemma_nops_are_skipped;
use crate::tokens::{lemma_nops_end, nops_end, token_at, Tokens};
use crate::wire::{lemma_nul_at_is, nul_at, padded, word_at};
use vstd::prelude::*;
use vstd::utf8::*;

verus! {

/// A property as it is laid out: behind some `Nop` tokens, with the offset of
/// its name in the strings block, the name that lies there, and its value.
pub struct PropertyModel {
    pub nops: nat,
    pub name_off: u32,
    pub name: Seq<u8>,
    pub value: Seq<u8>,
}

/// A node as it is laid out: behind some `Nop` tokens, with its name, its
/// properties, its children, and some `Nop` tokens before its `EndNode`.
pub struct TreeModel {
    pub nops: nat,
    pub name: Seq<u8>,
    pub props: Seq<PropertyModel>,
    pub children: Seq<TreeModel>,
    pub closing_nops: nat,
}

/// Whether `n` `Nop` tokens lie at `pos`.
pub open spec fn nops_at(bytes: Seq<u8>, pos: int, n: nat) -> bool
    decreases n,
{
    n == 0 || (word_at(bytes, pos) == Some(4u32) && nops_at(bytes, pos + 4, (n - 1) as nat))
}

/// Whether the bytes of `text`, none of them zero, lie at `pos` with a zero
/// byte behind them.
pub open spec fn text_at(bytes: Seq<u8>, pos: int, text: Seq<u8>) -> bool {
    &&& 0 <= pos
    &&& pos + text.len() < bytes.len()
    &&& bytes.subrange(pos, pos + text.len()) == text
    &&& forall|i: int| 0 <= i < text.len() ==> text[i] != 0
    &&& bytes[pos + text.len()] == 0
}

/// How many bytes a property takes up, `Nop` tokens and padding included.
pub open spec fn property_size(p: PropertyModel) -> int {
    4 * p.nops + 12 + padded(p.value.len() as int)
}

/// How many bytes the first `n` of the properties take up.
pub open spec fn properties_size(ps: Seq<PropertyModel>, n: nat) -> int
    decreases n,
{
    if n == 0 {
        0
    } else {
        properties_size(ps, (n - 1) as nat) + property_size(ps[n - 1])
    }
}

/// Whether the property `p` is laid out at `pos`, its name in the strings
/// block at `strings`.
pub open spec fn holds_property(bytes: Seq<u8>, pos: int, strings: int, p: PropertyModel) -> bool {
    let at = pos + 4 * p.nops;
    &&& 0 <= pos
    &&& nops_at(bytes, pos, p.nops)
    &&& word_at(bytes, at) == Some(3u32)
    &&& p.value.len() <= u32::MAX
    &&& word_at(bytes, at + 4) == Some(p.value.len() as u32)
    &&& word_at(bytes, at + 8) == Some(p.name_off)
    &&& at + 12 + p.value.len() <= bytes.len()
    &&& bytes.subrange(at + 12, at + 12 + p.value.len()) == p.value
    &&& text_at(bytes, strings + p.name_off, p.name)
    &&& valid_utf8(p.name)
}

/// Whether the property `ps[i]` is laid out where the `i` before it end.
pub open spec fn property_in_run(
    bytes: Seq<u8>,
    pos: int,
    strings: int,
    ps: Seq<PropertyModel>,
    i: int,
) -> bool {
    holds_property(bytes, pos + properties_size(ps, i as nat), strings, ps[i])
}

/// Whether the properties from index `from` on are laid out one after the
/// other, the first of all of them at `pos`.
pub open spec fn holds_properties(
    bytes: Seq<u8>,
    pos: int,
    strings: int,
    ps: Seq<PropertyModel>,
    from: nat,
) -> bool {
    forall|i: int| from <= i < ps.len() ==> #[trigger] property_in_run(bytes, pos, strings, ps, i)
}

/// How many bytes a node takes up, from its first `Nop` to its `EndNode`.
pub open spec fn node_size(t: TreeModel) -> int
    decreases t, 0nat,
{
    4 * t.nops + 4 + padded(t.name.len() as int + 1) + properties_size(t.props, t.props.len())
        + children_size(t.children, t.children.len()) + 4 * t.closing_nops + 4
}

/// How many bytes the first `n` of the nodes take up.
pub open spec fn children_size(cs: Seq<TreeModel>, n: nat) -> int
    decreases cs, n,
{
    if n == 0 || n > cs.len() {
        0
    } else {
        children_size(cs, (n - 1) as nat) + node_size(cs[n - 1])
    }
}

/// Where the body of a node laid out at `pos` begins: behind its name.
pub open spec fn body_of(t: TreeModel, pos: int) -> int {
    pos + 4 * t.nops + 4 + padded(t.name.len() as int + 1)
}

/// Where the children of a node laid out at `pos` begin: behind its
/// properties.
pub open spec fn children_of_layout(t: TreeModel, pos: int) -> int {
    body_of(t, pos) + properties_size(t.props, t.props.len())
}

/// Marks the index that a statement about every child is applied to.
pub open spec fn nth(i: int) -> bool {
    true
}

/// Whether the node `t`, with all that is below it, is laid out at `pos`.
#[verifier::opaque]
pub open spec fn holds_node(bytes: Seq<u8>, pos: int, strings: int, t: TreeModel) -> bool
    decreases t,
{
    let begin = pos + 4 * t.nops;
    let closing = children_of_layout(t, pos) + children_size(t.children, t.children.len());
    &&& 0 <= pos
    &&& nops_at(bytes, pos, t.nops)
    &&& word_at(bytes, begin) == Some(1u32)
    &&& text_at(bytes, begin + 4, t.name)
    &&& valid_utf8(t.name)
    &&& forall|i: int|
        0 <= i < t.props.len() ==> #[trigger] property_in_run(
            bytes,
            body_of(t, pos),
            strings,
            t.props,
            i,
        )
    &&& forall|i: int|
        0 <= i < t.children.len() && #[trigger] nth(i) ==> holds_node(
            bytes,
            children_of_layout(t, pos) + children_size(t.children, i as nat),
            strings,
            t.children[i],
        )
    &&& nops_at(bytes, closing, t.closing_nops)
    &&& word_at(bytes, closing + 4 * t.closing_nops) == Some(2u32)
}

/// Whether the node `cs[i]` is laid out where the `i` before it end.
pub open spec fn node_in_run(
    bytes: Seq<u8>,
    pos: int,
    strings: int,
    cs: Seq<TreeModel>,
    i: int,
) -> bool {
    holds_node(bytes, pos + children_size(cs, i as nat), strings, cs[i])
}

/// Whether the nodes from index `from` on are laid out one after the other,
/// the first of all of them at `pos`.
pub open spec fn holds_nodes(
    bytes: Seq<u8>,
    pos: int,
    strings: int,
    cs: Seq<TreeModel>,
    from: nat,
) -> bool {
    forall|i: int| from <= i < cs.len() ==> #[trigger] node_in_run(bytes, pos, strings, cs, i)
}

/// A node of a run that is laid out is laid out where the nodes before it
/// end.
pub proof fn lemma_node_in_run(
    bytes: Seq<u8>,
    pos: int,
    strings: int,
    cs: Seq<TreeModel>,
    from: nat,
    i: int,
)
    requires
        holds_nodes(bytes, pos, strings, cs, from),
        from <= i < cs.len(),
    ensures
        holds_node(bytes, pos + children_size(cs, i as nat), strings, cs[i]),
{
    assert(node_in_run(bytes, pos, strings, cs, i));
}

/// A property as the cursor yields it.
pub open spec fn property_view(p: PropertyModel) -> PropertyView {
    PropertyView { name: decode_utf8(p.name), value: p.value }
}

/// The properties as the cursor yields them.
pub open spec fn property_views(ps: Seq<PropertyModel>) -> Seq<PropertyView> {
    Seq::new(ps.len(), |i: int| property_view(ps[i]))
}

/// What decoding the node `t` laid out at `pos` gives.
pub open spec fn node_view(t: TreeModel, pos: int, strings: int) -> NodeView {
    NodeView {
        start: pos + 4 * t.nops,
        name: decode_utf8(t.name),
        props: if t.props.len() > 0 {
            Some(body_of(t, pos) + 4 * t.props[0].nops)
        } else {
            None
        },
        children: if t.children.len() > 0 {
            Some(children_of_layout(t, pos) + 4 * t.children[0].nops)
        } else {
            None
        },
        strings,
        end: pos + node_size(t) - 4,
    }
}

/// What decoding the nodes `cs` laid out one after the other from `pos` on
/// gives.
pub open spec fn child_views(cs: Seq<TreeModel>, pos: int, strings: int) -> Seq<NodeView> {
    Seq::new(cs.len(), |i: int| node_view(cs[i], pos + children_size(cs, i as nat), strings))
}

/// A run of `Nop` tokens changes nothing of what is read from its start.
pub proof fn lemma_nop_run(bytes: Seq<u8>, pos: int, n: nat, depth: nat)
    requires
        nops_at(bytes, pos, n),
    ensures
        nops_end(bytes, pos) == nops_end(bytes, pos + 4 * n),
        node_end(bytes, pos, depth) == node_end(bytes, pos + 4 * n, depth),
        first_child(bytes, pos) == first_child(bytes, pos + 4 * n),
    decreases n,
{
    if n > 0 {
        lemma_nop_run(bytes, pos + 4, (n - 1) as nat, depth);
    }
}

/// A text that is laid out ends at the first zero byte after its start.
pub proof fn lemma_text_ends_at_nul(bytes: Seq<u8>, pos: int, text: Seq<u8>)
    requires
        text_at(bytes, pos, text),
    ensures
        nul_at(bytes, pos) == Some(pos + text.len()),
{
    assert forall|i: int| pos <= i < pos + text.len() implies bytes[i] != 0 by {
        assert(bytes.subrange(pos, pos + text.len())[i - pos] == bytes[i]);
    }
    lemma_nul_at_is(bytes, pos, pos + text.len());
}

/// The sizes of the prefixes of a run of properties grow with the prefix.
pub proof fn lemma_properties_size_grows(ps: Seq<PropertyModel>, i: nat, j: nat)
    requires
        i <= j,
    ensures
        properties_size(ps, i) <= properties_size(ps, j),
        0 <= properties_size(ps, i),
    decreases j,
{
    if i < j {
        lemma_properties_size_grows(ps, i, (j - 1) as nat);
    } else if j > 0 {
        lemma_properties_size_grows(ps, (i - 1) as nat, (j - 1) as nat);
    }
}

/// A property that is laid out is stepped over as a whole, and the cursor
/// yields it where a token follows it.
pub proof fn lemma_property_laid_out(
    bytes: Seq<u8>,
    pos: int,
    strings: int,
    p: PropertyModel,
    depth: nat,
)
    requires
        holds_property(bytes, pos, strings, p),
    ensures
        nops_end(bytes, pos) == Ok::<int, ParsingError>(pos + 4 * p.nops),
        token_at(bytes, pos + 4 * p.nops) == Ok::<Tokens, ParsingError>(Tokens::Property),
        node_end(bytes, pos, depth) == node_end(bytes, pos + property_size(p), depth),
        first_child(bytes, pos) == first_child(bytes, pos + property_size(p)),
        pos + property_size(p) + 4 <= bytes.len() ==> property_at(bytes, pos, strings) == Ok::<
            Option<(PropertyView, int)>,
            ParsingError,
        >(Some((property_view(p), pos + property_size(p)))),
{
    lemma_nop_run(bytes, pos, p.nops, depth);
    lemma_text_ends_at_nul(bytes, strings + p.name_off, p.name);
    let at = pos + 4 * p.nops;
    assert(property_end(bytes, at) == Some(at + 12 + padded(p.value.len() as int)));
    assert(be_len(bytes, at) == p.value.len());
}

/// A run of properties that is laid out is stepped over as a whole.
pub proof fn lemma_properties_stepped_over(
    bytes: Seq<u8>,
    pos: int,
    strings: int,
    ps: Seq<PropertyModel>,
    from: nat,
    depth: nat,
)
    requires
        from <= ps.len(),
        holds_properties(bytes, pos, strings, ps, from),
    ensures
        node_end(bytes, pos + properties_size(ps, from), depth) == node_end(
            bytes,
            pos + properties_size(ps, ps.len()),
            depth,
        ),
        first_child(bytes, pos + properties_size(ps, from)) == first_child(
            bytes,
            pos + properties_size(ps, ps.len()),
        ),
    decreases ps.len() - from,
{
    if from < ps.len() {
        assert(property_in_run(bytes, pos, strings, ps, from as int));
        lemma_property_laid_out(
            bytes,
            pos + properties_size(ps, from),
            strings,
            ps[from as int],
            depth,
        );
        lemma_properties_stepped_over(bytes, pos, strings, ps, from + 1, depth);
    }
}

/// The cursor yields the properties that are laid out, as many as there are
/// and in their order, where the run is followed by a token that is no
/// property.
pub proof fn lemma_properties_yielded(
    bytes: Seq<u8>,
    pos: int,
    strings: int,
    ps: Seq<PropertyModel>,
    from: nat,
)
    requires
        from <= ps.len(),
        holds_properties(bytes, pos, strings, ps, from),
        pos + properties_size(ps, ps.len()) + 4 <= bytes.len(),
        property_at(bytes, pos + properties_size(ps, ps.len()), strings) == Ok::<
            Option<(PropertyView, int)>,
            ParsingError,
        >(None),
    ensures
        properties_from(bytes, pos + properties_size(ps, from), strings) == Ok::<
            Seq<PropertyView>,
            ParsingError,
        >(property_views(ps).subrange(from as int, ps.len() as int)),
    decreases ps.len() - from,
{
    let views = property_views(ps);
    if from < ps.len() {
        let here = pos + properties_size(ps, from);
        assert(property_in_run(bytes, pos, strings, ps, from as int));
        lemma_property_laid_out(bytes, here, strings, ps[from as int], 0);
        lemma_properties_size_grows(ps, from + 1, ps.len());
        lemma_properties_yielded(bytes, pos, strings, ps, from + 1);
        assert(seq![property_view(ps[from as int])] + views.subrange(
            from as int + 1,
            ps.len() as int,
        ) =~= views.subrange(from as int, ps.len() as int));
    } else {
        assert(views.subrange(from as int, ps.len() as int) =~= Seq::<PropertyView>::empty());
    }
}

/// A node takes up at least its two tokens and its padded name.
pub proof fn lemma_node_size_positive(t: TreeModel)
    ensures
        node_size(t) >= 12,
        0 <= properties_size(t.props, t.props.len()),
        0 <= children_size(t.children, t.children.len()),
    decreases t,
{
    lemma_properties_size_grows(t.props, 0, t.props.len());
    lemma_children_size_nonnegative(t.children, t.children.len());
}

/// A run of nodes takes up no less than nothing.
pub proof fn lemma_children_size_nonnegative(cs: Seq<TreeModel>, n: nat)
    requires
        n <= cs.len(),
    ensures
        0 <= children_size(cs, n),
    decreases cs, n,
{
    if n > 0 {
        lemma_children_size_nonnegative(cs, (n - 1) as nat);
        lemma_node_size_positive(cs[n - 1]);
    }
}

/// Where the `Nop` tokens before the `EndNode` of a node laid out at `pos`
/// begin: behind its children.
pub open spec fn closing_of(t: TreeModel, pos: int) -> int {
    children_of_layout(t, pos) + children_size(t.children, t.children.len())
}

/// The head of a node that is laid out: its `Nop` tokens, its `BeginNode`
/// and its name are read, and its body begins behind them, one node deeper.
pub proof fn lemma_node_head(bytes: Seq<u8>, pos: int, strings: int, t: TreeModel, depth: nat)
    requires
        holds_node(bytes, pos, strings, t),
    ensures
        nops_end(bytes, pos) == Ok::<int, ParsingError>(pos + 4 * t.nops),
        token_at(bytes, pos + 4 * t.nops) == Ok::<Tokens, ParsingError>(Tokens::BeginNode),
        first_child(bytes, pos) == Some(pos + 4 * t.nops),
        nul_at(bytes, pos + 4 * t.nops + 4) == Some(pos + 4 * t.nops + 4 + t.name.len()),
        body_start(bytes, pos + 4 * t.nops) == Some(body_of(t, pos)),
        node_end(bytes, pos, depth) == node_end(bytes, body_of(t, pos), depth + 1),
{
    reveal(holds_node);
    let begin = pos + 4 * t.nops;
    lemma_nop_run(bytes, pos, t.nops, depth);
    lemma_text_ends_at_nul(bytes, begin + 4, t.name);
}

/// The tail of a node that is laid out: the `Nop` tokens behind its children
/// and its `EndNode` close it.
pub proof fn lemma_node_tail(bytes: Seq<u8>, pos: int, strings: int, t: TreeModel, depth: nat)
    requires
        holds_node(bytes, pos, strings, t),
    ensures
        nops_end(bytes, closing_of(t, pos)) == Ok::<int, ParsingError>(
            closing_of(t, pos) + 4 * t.closing_nops,
        ),
        token_at(bytes, closing_of(t, pos) + 4 * t.closing_nops) == Ok::<Tokens, ParsingError>(
            Tokens::EndNode,
        ),
        first_child(bytes, closing_of(t, pos)) is None,
        node_end(bytes, closing_of(t, pos), depth + 1) == node_end(
            bytes,
            closing_of(t, pos) + 4 * t.closing_nops + 4,
            depth,
        ),
        node_end(bytes, closing_of(t, pos), 0) == Ok::<int, ParsingError>(
            closing_of(t, pos) + 4 * t.closing_nops,
        ),
        closing_of(t, pos) + 4 * t.closing_nops + 4 <= bytes.len(),
{
    reveal(holds_node);
    let closing = closing_of(t, pos);
    lemma_nop_run(bytes, closing, t.closing_nops, depth + 1);
    lemma_nop_run(bytes, closing, t.closing_nops, 0);
}

/// The parts of a node that is laid out.
pub proof fn lemma_node_parts(bytes: Seq<u8>, pos: int, strings: int, t: TreeModel)
    requires
        holds_node(bytes, pos, strings, t),
    ensures
        holds_properties(bytes, body_of(t, pos), strings, t.props, 0),
        holds_nodes(bytes, children_of_layout(t, pos), strings, t.children, 0),
        valid_utf8(t.name),
        bytes.subrange(pos + 4 * t.nops + 4, pos + 4 * t.nops + 4 + t.name.len()) == t.name,
        pos + node_size(t) == closing_of(t, pos) + 4 * t.closing_nops + 4,
        0 <= pos,
{
    reveal(holds_node);
    assert forall|i: int| 0 <= i < t.children.len() implies #[trigger] node_in_run(
        bytes,
        children_of_layout(t, pos),
        strings,
        t.children,
        i,
    ) by {
        assert(nth(i));
    }
}

/// A node that is laid out is stepped over as a whole, whatever lies in it:
/// behind it as many nodes are open as before it. Its body, read for itself,
/// ends at its own `EndNode`.
pub proof fn lemma_node_stepped_over(
    bytes: Seq<u8>,
    pos: int,
    strings: int,
    t: TreeModel,
    depth: nat,
)
    requires
        holds_node(bytes, pos, strings, t),
    ensures
        node_end(bytes, pos, depth) == node_end(bytes, pos + node_size(t), depth),
        node_end(bytes, body_of(t, pos), 0) == Ok::<int, ParsingError>(pos + node_size(t) - 4),
        pos + node_size(t) <= bytes.len(),
    decreases t, 0nat,
{
    let body = body_of(t, pos);
    let kids = children_of_layout(t, pos);
    let closing = closing_of(t, pos);
    lemma_node_parts(bytes, pos, strings, t);
    lemma_node_head(bytes, pos, strings, t, depth);
    lemma_node_tail(bytes, pos, strings, t, depth);
    lemma_properties_stepped_over(bytes, body, strings, t.props, 0, depth + 1);
    lemma_properties_stepped_over(bytes, body, strings, t.props, 0, 0);
    lemma_children_stepped_over(bytes, kids, strings, t.children, 0, depth + 1);
    lemma_children_stepped_over(bytes, kids, strings, t.children, 0, 0);
    assert(node_end(bytes, body, depth + 1) == node_end(bytes, kids, depth + 1));
    assert(node_end(bytes, kids, depth + 1) == node_end(bytes, closing, depth + 1));
    assert(node_end(bytes, body, 0) == node_end(bytes, kids, 0));
    assert(node_end(bytes, kids, 0) == node_end(bytes, closing, 0));
}

/// A run of nodes that is laid out is stepped over as a whole.
pub proof fn lemma_children_stepped_over(
    bytes: Seq<u8>,
    pos: int,
    strings: int,
    cs: Seq<TreeModel>,
    from: nat,
    depth: nat,
)
    requires
        from <= cs.len(),
        holds_nodes(bytes, pos, strings, cs, from),
    ensures
        node_end(bytes, pos + children_size(cs, from), depth) == node_end(
            bytes,
            pos + children_size(cs, cs.len()),
            depth,
        ),
    decreases cs, cs.len() - from,
{
    if from < cs.len() {
        lemma_node_in_run(bytes, pos, strings, cs, from, from as int);
        lemma_node_stepped_over(
            bytes,
            pos + children_size(cs, from),
            strings,
            cs[from as int],
            depth,
        );
        lemma_children_stepped_over(bytes, pos, strings, cs, from + 1, depth);
    }
}

/// The first token of the body of a node that is laid out: a property where
/// the node has properties, and the first child is where the first child is
/// laid out.
pub proof fn lemma_body_begins(bytes: Seq<u8>, pos: int, strings: int, t: TreeModel)
    requires
        holds_node(bytes, pos, strings, t),
    ensures
        match nops_end(bytes, body_of(t, pos)) {
            Ok(first) => (token_at(bytes, first) == Ok::<Tokens, ParsingError>(Tokens::Property)
                <==> t.props.len() > 0) && (t.props.len() > 0 ==> first == body_of(t, pos) + 4
                * t.props[0].nops),
            Err(_) => false,
        },
        first_child(bytes, body_of(t, pos)) == node_view(t, pos, strings).children,
        property_at(bytes, children_of_layout(t, pos), strings) == Ok::<
            Option<(PropertyView, int)>,
            ParsingError,
        >(None),
        children_of_layout(t, pos) + 4 <= bytes.len(),
{
    let body = body_of(t, pos);
    let kids = children_of_layout(t, pos);
    lemma_node_parts(bytes, pos, strings, t);
    lemma_node_tail(bytes, pos, strings, t, 0);
    lemma_node_size_positive(t);
    lemma_properties_stepped_over(bytes, body, strings, t.props, 0, 0);
    if t.children.len() > 0 {
        lemma_node_in_run(bytes, kids, strings, t.children, 0, 0);
        lemma_node_head(bytes, kids, strings, t.children[0], 0);
    }
    if t.props.len() > 0 {
        assert(property_in_run(bytes, body, strings, t.props, 0));
        lemma_property_laid_out(bytes, body, strings, t.props[0], 0);
    }
}

/// Decoding a node that is laid out gives its name, where its properties and
/// its children begin, and where it ends.
pub proof fn lemma_node_decoded(bytes: Seq<u8>, pos: int, strings: int, t: TreeModel)
    requires
        holds_node(bytes, pos, strings, t),
    ensures
        spec_parse(bytes, pos, strings) == Ok::<NodeView, ParsingError>(
            node_view(t, pos, strings),
        ),
        spec_parse(bytes, pos + 4 * t.nops, strings) == Ok::<NodeView, ParsingError>(
            node_view(t, pos, strings),
        ),
{
    let begin = pos + 4 * t.nops;
    let body = body_of(t, pos);
    lemma_node_parts(bytes, pos, strings, t);
    lemma_node_head(bytes, pos, strings, t, 0);
    lemma_node_stepped_over(bytes, pos, strings, t, 0);
    lemma_body_begins(bytes, pos, strings, t);
    lemma_nops_are_skipped(bytes, body, 0);
    lemma_nops_end(bytes, pos);
    let first = nops_end(bytes, body)->Ok_0;
    assert(nops_end(bytes, begin) == Ok::<int, ParsingError>(begin));
    assert(node_end(bytes, first, 0) == Ok::<int, ParsingError>(pos + node_size(t) - 4));
    assert(first_child(bytes, first) == node_view(t, pos, strings).children);
}

/// The cursor yields the nodes that are laid out one after the other, as
/// many as there are and in their order, where the run is followed by the
/// closing tokens of their parent.
pub proof fn lemma_children_yielded(
    bytes: Seq<u8>,
    pos: int,
    strings: int,
    cs: Seq<TreeModel>,
    from: nat,
)
    requires
        from <= cs.len(),
        holds_nodes(bytes, pos, strings, cs, from),
        child_at(bytes, pos + children_size(cs, cs.len()), strings) == Ok::<
            Option<(NodeView, int)>,
            ParsingError,
        >(None),
    ensures
        children_from(bytes, pos + children_size(cs, from), strings) == Ok::<
            Seq<NodeView>,
            ParsingError,
        >(child_views(cs, pos, strings).subrange(from as int, cs.len() as int)),
    decreases cs.len() - from,
{
    let views = child_views(cs, pos, strings);
    if from < cs.len() {
        let here = pos + children_size(cs, from);
        let t = cs[from as int];
        lemma_node_in_run(bytes, pos, strings, cs, from, from as int);
        lemma_node_head(bytes, here, strings, t, 0);
        lemma_node_decoded(bytes, here, strings, t);
        lemma_children_yielded(bytes, pos, strings, cs, from + 1);
        assert(child_at(bytes, here, strings) == Ok::<Option<(NodeView, int)>, ParsingError>(
            Some((node_view(t, here, strings), here + node_size(t))),
        ));
        assert(seq![node_view(t, here, strings)] + views.subrange(
            from as int + 1,
            cs.len() as int,
        ) =~= views.subrange(from as int, cs.len() as int));
    } else {
        assert(views.subrange(from as int, cs.len() as int) =~= Seq::<NodeView>::empty());
    }
}

/// Decoding gives back what was laid out. For a node with any number of
/// properties and any number of children, laid out with any `Nop` tokens
/// between them and with whole subtrees below the children: decoding the node
/// gives its name; the property cursor yields exactly its properties, in the
/// order in which they are laid out; and the child cursor yields exactly its
/// children, in that order, each as decoding it for itself gives it, and
/// none of the nodes below them.
pub proof fn lemma_decoding_yields_what_is_laid_out(
    bytes: Seq<u8>,
    pos: int,
    strings: int,
    t: TreeModel,
)
    requires
        holds_node(bytes, pos, strings, t),
    ensures
        spec_parse(bytes, pos, strings) == Ok::<NodeView, ParsingError>(
            node_view(t, pos, strings),
        ),
        node_view(t, pos, strings).name == decode_utf8(t.name),
        properties_of(bytes, node_view(t, pos, strings)) == Ok::<
            Seq<PropertyView>,
            ParsingError,
        >(property_views(t.props)),
        property_views(t.props).len() == t.props.len(),
        children_of(bytes, node_view(t, pos, strings)) == Ok::<Seq<NodeView>, ParsingError>(
            child_views(t.children, children_of_layout(t, pos), strings),
        ),
        child_views(t.children, children_of_layout(t, pos), strings).len() == t.children.len(),
        holds_nodes(bytes, children_of_layout(t, pos), strings, t.children, 0),
        forall|i: int|
            0 <= i < t.children.len() ==> (#[trigger] child_views(
                t.children,
                children_of_layout(t, pos),
                strings,
            )[i]).name == decode_utf8(t.children[i].name),
{
    let body = body_of(t, pos);
    let kids = children_of_layout(t, pos);
    let view = node_view(t, pos, strings);
    lemma_node_parts(bytes, pos, strings, t);
    lemma_node_decoded(bytes, pos, strings, t);
    lemma_body_begins(bytes, pos, strings, t);
    lemma_node_tail(bytes, pos, strings, t, 0);
    // the properties
    lemma_properties_yielded(bytes, body, strings, t.props, 0);
    assert(property_views(t.props).subrange(0, t.props.len() as int) =~= property_views(
        t.props,
    ));
    if t.props.len() > 0 {
        let first = body + 4 * t.props[0].nops;
        lemma_nops_end(bytes, body);
        assert(property_at(bytes, first, strings) == property_at(bytes, body, strings));
        assert(properties_from(bytes, first, strings) == properties_from(bytes, body, strings));
    }
    // the children
    assert(child_at(bytes, kids + children_size(t.children, t.children.len()), strings) == Ok::<
        Option<(NodeView, int)>,
        ParsingError,
    >(None));
    lemma_children_yielded(bytes, kids, strings, t.children, 0);
    assert(child_views(t.children, kids, strings).subrange(0, t.children.len() as int)
        =~= child_views(t.children, kids, strings));
    if t.children.len() > 0 {
        let first = kids + 4 * t.children[0].nops;
        lemma_node_in_run(bytes, kids, strings, t.children, 0, 0);
        lemma_node_head(bytes, kids, strings, t.children[0], 0);
        lemma_nops_end(bytes, kids);
        lemma_node_decoded(bytes, kids, strings, t.children[0]);
        assert(child_at(bytes, first, strings) == child_at(bytes, kids, strings));
        assert(children_from(bytes, first, strings) == children_from(bytes, kids, strings));
    }
}

} // verus!
