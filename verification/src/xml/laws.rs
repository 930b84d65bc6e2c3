//! How the nodes of a document are told.
use super::{attribute_in, within, AttributeView, NodeView};
use vstd::prelude::*;

verus! {

/// An attribute has the value that its name is first given; one with a prefix is another.
pub proof fn an_attribute_is_told_by_its_name(
    attributes: Seq<AttributeView>,
    name: Seq<char>,
    from: int,
    i: int,
)
    requires
        0 <= from <= attributes.len(),
        forall|k: int|
            from <= k < i && k < attributes.len() ==> (#[trigger] attributes[k]).name != name
                || attributes[k].space is Some,
    ensures
        from <= i < attributes.len() && attributes[i].name == name && attributes[i].space is None
            ==> attribute_in(attributes, name, from) == Some(attributes[i].value),
        i >= attributes.len() ==> attribute_in(attributes, name, from) is None,
    decreases attributes.len() - from,
{
    if from < attributes.len() && from < i {
        an_attribute_is_told_by_its_name(attributes, name, from + 1, i);
    }
}

/// A node is inside itself, and a child is inside whatever its parent is inside of.
pub proof fn a_child_is_inside_what_its_parent_is_in(
    nodes: Seq<NodeView>,
    node: int,
    parent: usize,
    outer: int,
)
    requires
        0 <= node < nodes.len(),
        nodes[node].parent == Some(parent),
        parent < node,
    ensures
        within(nodes, outer, outer),
        within(nodes, node, outer) <==> node == outer || within(nodes, parent as int, outer),
{
}

/// A node at the top is inside nothing but itself.
pub proof fn the_top_is_inside_nothing(nodes: Seq<NodeView>, node: int, outer: int)
    requires
        0 <= node < nodes.len(),
        nodes[node].parent is None,
    ensures
        within(nodes, node, outer) <==> node == outer,
{
}

/// An element is told by its name; a text is none.
pub proof fn an_element_is_told_by_its_name(node: NodeView, space: Seq<char>, name: Seq<char>)
    ensures
        node.element && node.name == name ==> node.called(name),
        !node.element ==> !node.called(name) && !node.tagged(space, name),
        node.name != name ==> !node.called(name) && !node.tagged(space, name),
        node.called(name) && node.space == Some(space) ==> node.tagged(space, name),
        node.space != Some(space) ==> !node.tagged(space, name),
{
}

} // verus!
