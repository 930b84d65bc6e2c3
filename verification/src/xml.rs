//! XML documents as plain lists of nodes, in document order.
use crate::text;
use crate::values::result_view;
use roxmltree::{Document, ParsingOptions};
use vstd::prelude::*;

pub mod laws;

verus! {

broadcast use vstd::string::group_string_axioms;

#[derive(Clone, Debug, PartialEq, Eq)]
pub struct Attribute {
    pub name: String,
    /// The namespace the name belongs to, when it is written with a prefix.
    pub space: Option<String>,
    pub value: String,
}

#[verifier::ext_equal]
pub struct AttributeView {
    pub name: Seq<char>,
    pub space: Option<Seq<char>>,
    pub value: Seq<char>,
}

impl DeepView for Attribute {
    type V = AttributeView;

    open spec fn deep_view(&self) -> AttributeView {
        AttributeView {
            name: self.name@,
            space: self.space.deep_view(),
            value: self.value@,
        }
    }
}

/// One node of a document.
#[derive(Clone, Debug, PartialEq, Eq)]
pub struct Node {
    /// Whether this is an element.
    pub element: bool,
    pub name: String,
    pub space: Option<String>,
    pub attributes: Vec<Attribute>,
    /// What an element's text starts with, or what a text or a comment says.
    pub text: Option<String>,
    /// The position of the node this one stands in.
    pub parent: Option<usize>,
}

#[verifier::ext_equal]
pub struct NodeView {
    pub element: bool,
    pub name: Seq<char>,
    pub space: Option<Seq<char>>,
    pub attributes: Seq<AttributeView>,
    pub text: Option<Seq<char>>,
    pub parent: Option<usize>,
}

impl View for Node {
    type V = NodeView;

    open spec fn view(&self) -> NodeView {
        NodeView {
            element: self.element,
            name: self.name@,
            space: self.space.deep_view(),
            attributes: self.attributes.deep_view(),
            text: self.text.deep_view(),
            parent: self.parent,
        }
    }
}

impl DeepView for Node {
    type V = NodeView;

    open spec fn deep_view(&self) -> NodeView {
        self@
    }
}

/// What `roxmltree::Document::parse_with_options` makes of a text: its nodes in
/// document order, the root first, or the words of its complaint. `doctype`
/// says whether a document type declaration is allowed.
pub uninterp spec fn document(text: Seq<char>, doctype: bool) -> Result<Seq<NodeView>, Seq<char>>;

/// `roxmltree::Document::parse_with_options`, with the nodes that
/// `Document::descendants` gives. What XML makes of a text is named rather than
/// stated; it depends on the text and the one option alone.
#[verifier::external_body]
pub(crate) fn parse(text: &str, doctype: bool) -> (r: Result<Vec<Node>, String>)
    ensures
        result_view(r) == document(text@, doctype),
{
    Document::parse_with_options(text, ParsingOptions {
        allow_dtd: doctype, ..Default::default()
    }).map(|d| d.descendants().map(|n| Node {
        element: n.is_element(),
        name: n.tag_name().name().into(),
        space: n.tag_name().namespace().map(str::to_owned),
        attributes: n.attributes().map(|a| Attribute {
            name: a.name().into(),
            space: a.namespace().map(str::to_owned),
            value: a.value().into()
        }).collect(),
        text: n.text().map(Into::into),
        parent: n.parent().map(|p| p.id().get_usize())
    }).collect()).map_err(|e| e.to_string())
}

impl NodeView {
    /// The value of an attribute written without a prefix.
    pub open spec fn attribute(self, name: Seq<char>) -> Option<Seq<char>> {
        attribute_in(self.attributes, name, 0)
    }

    /// Whether this is an element of that name, in whatever namespace.
    pub open spec fn called(self, name: Seq<char>) -> bool {
        self.element && self.name == name
    }

    /// Whether this is an element of that name in that namespace.
    pub open spec fn tagged(self, space: Seq<char>, name: Seq<char>) -> bool {
        self.element && self.name == name && self.space == Some(space)
    }
}

/// The value of the first attribute from `from` on with that plain name.
pub open spec fn attribute_in(
    attributes: Seq<AttributeView>,
    name: Seq<char>,
    from: int,
) -> Option<Seq<char>>
    decreases attributes.len() - from,
{
    if from < 0 || from >= attributes.len() {
        None
    } else if attributes[from].name == name && attributes[from].space is None {
        Some(attributes[from].value)
    } else {
        attribute_in(attributes, name, from + 1)
    }
}

impl Node {
    pub fn attribute(&self, name: &str) -> (r: Option<String>)
        ensures
            r.deep_view() == self@.attribute(name@),
    {
        let mut i: usize = 0;
        while i < self.attributes.len()
            invariant
                i <= self.attributes@.len(),
                self@.attribute(name@) == attribute_in(self@.attributes, name@, i as int),
            decreases self.attributes@.len() - i,
        {
            assert(self@.attributes[i as int] == self.attributes@[i as int].deep_view());
            if text::same(self.attributes[i].name.as_str(), name)
                && self.attributes[i].space.is_none() {
                return Some(self.attributes[i].value.as_str().to_owned());
            }
            i += 1;
        }
        None
    }

    /// Whether an attribute has exactly that value.
    pub fn says(&self, name: &str, value: &str) -> (r: bool)
        ensures
            r == (self@.attribute(name@) == Some(value@)),
    {
        match self.attribute(name) {
            Some(found) => text::same(found.as_str(), value),
            None => false,
        }
    }

    pub fn is_called(&self, name: &str) -> (r: bool)
        ensures
            r == self@.called(name@),
    {
        self.element && text::same(self.name.as_str(), name)
    }

    pub fn is_tagged(&self, space: &str, name: &str) -> (r: bool)
        ensures
            r == self@.tagged(space@, name@),
    {
        self.element && text::same(self.name.as_str(), name) && match &self.space {
            Some(found) => text::same(found.as_str(), space),
            None => false,
        }
    }
}

/// The first element of a name from `from` on, or the length.
pub open spec fn first_called(nodes: Seq<NodeView>, name: Seq<char>, from: int) -> int
    decreases nodes.len() - from,
{
    if from < 0 || from >= nodes.len() {
        nodes.len() as int
    } else if nodes[from].called(name) {
        from
    } else {
        first_called(nodes, name, from + 1)
    }
}

pub fn find_called(nodes: &Vec<Node>, name: &str, from: usize) -> (r: usize)
    requires
        from <= nodes@.len(),
    ensures
        r == first_called(nodes.deep_view(), name@, from as int),
        from <= r <= nodes@.len(),
{
    let mut i: usize = from;
    while i < nodes.len()
        invariant
            from <= i <= nodes@.len(),
            first_called(nodes.deep_view(), name@, from as int) == first_called(
                nodes.deep_view(),
                name@,
                i as int,
            ),
        decreases nodes@.len() - i,
    {
        assert(nodes.deep_view()[i as int] == nodes@[i as int]@);
        if nodes[i].is_called(name) {
            return i;
        }
        i += 1;
    }
    i
}

/// Whether a node is another one or stands somewhere inside it.
pub open spec fn within(nodes: Seq<NodeView>, node: int, outer: int) -> bool
    decreases node,
{
    node == outer || (0 <= node < nodes.len() && match nodes[node].parent {
        Some(parent) => (parent as int) < node && within(nodes, parent as int, outer),
        None => false,
    })
}

pub fn is_within(nodes: &Vec<Node>, node: usize, outer: usize) -> (r: bool)
    requires
        node < nodes@.len(),
    ensures
        r == within(nodes.deep_view(), node as int, outer as int),
{
    let mut at: usize = node;
    loop
        invariant
            at < nodes@.len(),
            within(nodes.deep_view(), node as int, outer as int) == within(
                nodes.deep_view(),
                at as int,
                outer as int,
            ),
        decreases at,
    {
        if at == outer {
            return true;
        }
        assert(nodes.deep_view()[at as int] == nodes@[at as int]@);
        match nodes[at].parent {
            Some(parent) => {
                if parent >= at {
                    return false;
                }
                at = parent;
            },
            None => return false,
        }
    }
}

} // verus!
