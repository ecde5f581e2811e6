//! The document tree of a page, and the three ways in which the extraction
//! reads it: the children of a node that fit a tag and attribute values, the
//! text of a node, and the value of an attribute.

use vstd::prelude::*;
use vstd::string::*;
use crate::error::Error;
use crate::text::str_eq;

verus! {

/// One attribute of an element.
#[derive(Debug, PartialEq, Eq)]
pub struct Attribute {
    pub name: String,
    pub value: String,
}

/// What a node is, apart from its children.
#[derive(Debug, PartialEq, Eq)]
pub enum PageData {
    /// An element: its tag name and its attributes in source order.
    Element { name: String, attrs: Vec<Attribute> },
    /// A run of text.
    Text { contents: String },
    /// The document root, a doctype, a comment or a processing instruction:
    /// nothing of it is read but its children.
    Other,
}

/// A node of the document tree together with everything below it. The
/// children stand in source order.
#[derive(Debug, PartialEq, Eq)]
pub struct PageNode {
    pub data: PageData,
    pub children: Vec<PageNode>,
}

/// An attribute as a pair of texts.
pub struct AttributeView {
    pub name: Seq<char>,
    pub value: Seq<char>,
}

/// The data of a node as mathematical values.
pub enum PageDataView {
    Element { name: Seq<char>, attrs: Seq<AttributeView> },
    Text { contents: Seq<char> },
    Other,
}

/// A document tree as a mathematical value.
pub struct PageView {
    pub data: PageDataView,
    pub children: Seq<PageView>,
}

impl View for Attribute {
    type V = AttributeView;

    open spec fn view(&self) -> AttributeView {
        AttributeView { name: self.name@, value: self.value@ }
    }
}

/// A list of attributes as pairs of texts, in order.
pub open spec fn attributes_of(attrs: Seq<Attribute>) -> Seq<AttributeView> {
    Seq::new(attrs.len(), |i: int| attrs[i]@)
}

impl View for PageData {
    type V = PageDataView;

    open spec fn view(&self) -> PageDataView {
        match self {
            PageData::Element { name, attrs } => PageDataView::Element {
                name: name@,
                attrs: attributes_of(attrs@),
            },
            PageData::Text { contents } => PageDataView::Text { contents: contents@ },
            PageData::Other => PageDataView::Other,
        }
    }
}

/// The tree that a node spans.
pub open spec fn tree_of(node: PageNode) -> PageView
    decreases node,
{
    PageView { data: node.data@, children: trees_of(node.children@) }
}

/// The trees that a list of nodes spans, in order.
pub open spec fn trees_of(nodes: Seq<PageNode>) -> Seq<PageView>
    decreases nodes,
{
    if nodes.len() == 0 {
        Seq::empty()
    } else {
        trees_of(nodes.drop_last()).push(tree_of(nodes.last()))
    }
}

impl View for PageNode {
    type V = PageView;

    open spec fn view(&self) -> PageView {
        tree_of(*self)
    }
}

/// The trees of a list of nodes are as many as the nodes, and each is the
/// tree of the node in its place.
pub proof fn lemma_trees_of(nodes: Seq<PageNode>)
    ensures
        trees_of(nodes).len() == nodes.len(),
        forall|i: int| 0 <= i < nodes.len() ==> (#[trigger] trees_of(nodes)[i]) == nodes[i]@,
    decreases nodes.len(),
{
    if nodes.len() > 0 {
        lemma_trees_of(nodes.drop_last());
    }
}

/// The view of a node is made of the view of its data and the views of its
/// children, in order.
pub proof fn lemma_view_of_node(node: &PageNode)
    ensures
        node@.data == node.data@,
        node@.children.len() == node.children@.len(),
        forall|i: int|
            0 <= i < node.children@.len() ==> (#[trigger] node@.children[i])
                == node.children@[i]@,
{
    lemma_trees_of(node.children@);
}

impl Attribute {
    /// An attribute with the given name and value.
    pub fn new(name: &str, value: &str) -> (attribute: Attribute)
        ensures
            attribute@ == (AttributeView { name: name@, value: value@ }),
    {
        Attribute { name: String::from_str(name), value: String::from_str(value) }
    }
}

impl PageNode {
    /// An element with the given tag name, attributes and children.
    pub fn element(name: &str, attrs: Vec<Attribute>, children: Vec<PageNode>) -> (node:
        PageNode)
        ensures
            node@ == (PageView {
                data: PageDataView::Element { name: name@, attrs: attributes_of(attrs@) },
                children: trees_of(children@),
            }),
    {
        PageNode { data: PageData::Element { name: String::from_str(name), attrs }, children }
    }

    /// A text node.
    pub fn text(contents: &str) -> (node: PageNode)
        ensures
            node@ == (PageView {
                data: PageDataView::Text { contents: contents@ },
                children: Seq::empty(),
            }),
    {
        PageNode { data: PageData::Text { contents: String::from_str(contents) }, children: Vec::new() }
    }

    /// A node that is neither an element nor a text, such as the document
    /// root, with the given children.
    pub fn other(children: Vec<PageNode>) -> (node: PageNode)
        ensures
            node@ == (PageView { data: PageDataView::Other, children: trees_of(children@) }),
    {
        PageNode { data: PageData::Other, children }
    }
}

/// The value of the first attribute in the list that is called `name`, or
/// the empty text if none is.
pub open spec fn first_value(attrs: Seq<AttributeView>, name: Seq<char>) -> Seq<char>
    decreases attrs.len(),
{
    if attrs.len() == 0 {
        Seq::empty()
    } else if attrs[0].name == name {
        attrs[0].value
    } else {
        first_value(attrs.drop_first(), name)
    }
}

/// An attribute called `name` with none of that name before it gives the
/// value.
pub proof fn lemma_first_value_is(attrs: Seq<AttributeView>, name: Seq<char>, at: int)
    requires
        0 <= at < attrs.len(),
        attrs[at].name == name,
        forall|j: int| 0 <= j < at ==> (#[trigger] attrs[j]).name != name,
    ensures
        first_value(attrs, name) == attrs[at].value,
    decreases at,
{
    if at > 0 {
        let rest = attrs.drop_first();
        assert(attrs[0].name != name);
        assert forall|j: int| 0 <= j < at - 1 implies (#[trigger] rest[j]).name != name by {
            assert(rest[j] == attrs[j + 1]);
        }
        lemma_first_value_is(rest, name, at - 1);
    }
}

/// Where no attribute is called `name`, the value is empty.
pub proof fn lemma_no_value(attrs: Seq<AttributeView>, name: Seq<char>)
    requires
        forall|j: int| 0 <= j < attrs.len() ==> (#[trigger] attrs[j]).name != name,
    ensures
        first_value(attrs, name) == Seq::<char>::empty(),
    decreases attrs.len(),
{
    if attrs.len() > 0 {
        let rest = attrs.drop_first();
        assert(attrs[0].name != name);
        assert forall|j: int| 0 <= j < rest.len() implies (#[trigger] rest[j]).name != name by {
            assert(rest[j] == attrs[j + 1]);
        }
        lemma_no_value(rest, name);
    }
}

/// The value that a node has for the attribute `name`: that of its first
/// attribute of this name, and the empty text where it has none or is no
/// element.
pub open spec fn attribute_of(node: PageView, name: Seq<char>) -> Seq<char> {
    match node.data {
        PageDataView::Element { name: _, attrs } => first_value(attrs, name),
        _ => Seq::empty(),
    }
}

/// The contents of the first text node among `children`.
pub open spec fn first_text_in(children: Seq<PageView>) -> Option<Seq<char>>
    decreases children.len(),
{
    if children.len() == 0 {
        None
    } else {
        match children[0].data {
            PageDataView::Text { contents } => Some(contents),
            _ => first_text_in(children.drop_first()),
        }
    }
}

/// A text node among `children` with no text node before it gives the
/// text.
pub proof fn lemma_first_text_is(children: Seq<PageView>, at: int)
    requires
        0 <= at < children.len(),
        children[at].data is Text,
        forall|j: int| 0 <= j < at ==> !((#[trigger] children[j]).data is Text),
    ensures
        first_text_in(children) == Some(children[at].data->contents),
    decreases at,
{
    if at > 0 {
        let rest = children.drop_first();
        assert(!(children[0].data is Text));
        assert forall|j: int| 0 <= j < at - 1 implies !((#[trigger] rest[j]).data is Text) by {
            assert(rest[j] == children[j + 1]);
        }
        lemma_first_text_is(rest, at - 1);
    }
}

/// Where no text node is among `children`, there is no text.
pub proof fn lemma_no_text(children: Seq<PageView>)
    requires
        forall|j: int| 0 <= j < children.len() ==> !((#[trigger] children[j]).data is Text),
    ensures
        first_text_in(children).is_none(),
    decreases children.len(),
{
    if children.len() > 0 {
        let rest = children.drop_first();
        assert(!(children[0].data is Text));
        assert forall|j: int| 0 <= j < rest.len() implies !((#[trigger] rest[j]).data is Text) by {
            assert(rest[j] == children[j + 1]);
        }
        lemma_no_text(rest);
    }
}

/// The text of a node: the contents of the first of its direct children that
/// is a text node.
pub open spec fn text_of(node: PageView) -> Option<Seq<char>> {
    first_text_in(node.children)
}

/// Whether a node has each of the attribute values that `constraints` asks
/// for. An attribute that the node lacks counts as empty.
pub open spec fn has_values(node: PageView, constraints: Seq<(Seq<char>, Seq<char>)>) -> bool {
    forall|k: int|
        0 <= k < constraints.len() ==> attribute_of(node, (#[trigger] constraints[k]).0)
            == constraints[k].1
}

/// Whether a node is an element called `tag` that has each of the attribute
/// values that `constraints` asks for.
pub open spec fn fits(node: PageView, tag: Seq<char>, constraints: Seq<(Seq<char>, Seq<char>)>)
    -> bool {
    &&& node.data matches PageDataView::Element { name, .. }
    &&& name == tag
    &&& has_values(node, constraints)
}

/// The direct children of `parent` that fit `tag` and `constraints`, in
/// source order.
pub open spec fn children_matching(
    parent: PageView,
    tag: Seq<char>,
    constraints: Seq<(Seq<char>, Seq<char>)>,
) -> Seq<PageView> {
    parent.children.filter(|child: PageView| fits(child, tag, constraints))
}

/// The selection holds direct children that fit and nothing else, and it
/// holds every direct child that fits.
pub proof fn lemma_children_matching(
    parent: PageView,
    tag: Seq<char>,
    constraints: Seq<(Seq<char>, Seq<char>)>,
)
    ensures
        children_matching(parent, tag, constraints).len() <= parent.children.len(),
        forall|i: int|
            0 <= i < children_matching(parent, tag, constraints).len() ==> fits(
                #[trigger] children_matching(parent, tag, constraints)[i],
                tag,
                constraints,
            ) && parent.children.contains(children_matching(parent, tag, constraints)[i]),
        forall|i: int|
            0 <= i < parent.children.len() && fits(
                #[trigger] parent.children[i],
                tag,
                constraints,
            ) ==> children_matching(parent, tag, constraints).contains(parent.children[i]),
{
    let pred = |child: PageView| fits(child, tag, constraints);
    let found = parent.children.filter(pred);
    parent.children.lemma_filter_len(pred);
    assert forall|i: int| 0 <= i < found.len() implies fits(#[trigger] found[i], tag, constraints)
        && parent.children.contains(found[i]) by {
        parent.children.lemma_filter_pred(pred, i);
        assert(found.contains(found[i]));
        parent.children.lemma_filter_contains_rev(pred, found[i]);
    }
    assert forall|i: int|
        0 <= i < parent.children.len() && fits(
            #[trigger] parent.children[i],
            tag,
            constraints,
        ) implies found.contains(parent.children[i]) by {
        parent.children.lemma_filter_contains(pred, i);
    }
}

/// The first direct child of `parent` that fits `tag` and `constraints`.
pub open spec fn first_matching(
    parent: PageView,
    tag: Seq<char>,
    constraints: Seq<(Seq<char>, Seq<char>)>,
) -> Option<PageView> {
    let found = children_matching(parent, tag, constraints);
    if found.len() > 0 {
        Some(found[0])
    } else {
        None
    }
}

/// The trees that a list of node references points to.
pub open spec fn views_of(nodes: Seq<&PageNode>) -> Seq<PageView> {
    Seq::new(nodes.len(), |i: int| nodes[i]@)
}

/// Reads the value of an attribute off a node. A node that lacks the
/// attribute, or that is no element, gives the empty string.
pub fn attribute_value(node: &PageNode, attribute: &str) -> (value: String)
    ensures
        value@ == attribute_of(node@, attribute@),
{
    match &node.data {
        PageData::Element { name: _, attrs } => {
            let ghost all = attributes_of(attrs@);
            let mut i: usize = 0;
            proof {
                assert(all.skip(0) =~= all);
            }
            while i < attrs.len()
                invariant
                    i <= attrs@.len(),
                    all == attributes_of(attrs@),
                    attribute_of(node@, attribute@) == first_value(all, attribute@),
                    first_value(all, attribute@) == first_value(all.skip(i as int), attribute@),
                decreases attrs@.len() - i,
            {
                proof {
                    assert(all.skip(i as int)[0] == attrs@[i as int]@);
                    assert(all.skip(i as int).drop_first() =~= all.skip(i + 1));
                }
                if str_eq(attrs[i].name.as_str(), attribute) {
                    let value = attrs[i].value.clone();
                    proof {
                        assert(all.skip(i as int)[0].name == attribute@);
                        assert(first_value(all.skip(i as int), attribute@) == value@);
                    }
                    return value;
                }
                i += 1;
            }
            String::new()
        },
        _ => String::new(),
    }
}

/// Reads the text of a node: the contents of the first text node among its
/// direct children. A node without a text child has no text, which is a
/// structural error.
pub fn node_text(node: &PageNode) -> (text: Result<String, Error>)
    ensures
        match text {
            Ok(contents) => text_of(node@) == Some(contents@),
            Err(e) => e == Error::Structure && text_of(node@).is_none(),
        },
{
    let ghost all = node@.children;
    let mut i: usize = 0;
    proof {
        assert(all.skip(0) =~= all);
    }
    while i < node.children.len()
        invariant
            i <= node.children@.len(),
            all == node@.children,
            first_text_in(all) == first_text_in(all.skip(i as int)),
        decreases node.children@.len() - i,
    {
        proof {
            lemma_view_of_node(node);
            lemma_view_of_node(&node.children@[i as int]);
            assert(all.skip(i as int)[0] == node.children@[i as int]@);
            assert(all.skip(i as int).drop_first() =~= all.skip(i + 1));
        }
        match &node.children[i].data {
            PageData::Text { contents } => {
                return Ok(contents.clone());
            },
            _ => {},
        }
        i += 1;
    }
    proof {
        lemma_view_of_node(node);
    }
    Err(Error::Structure)
}

/// Whether `node` has each of the attribute values asked for.
fn has_attribute_values(node: &PageNode, attribute_values: &[(&str, &str)]) -> (holds: bool)
    ensures
        holds == has_values(node@, attribute_values.deep_view()),
{
    let ghost constraints = attribute_values.deep_view();
    let mut k: usize = 0;
    while k < attribute_values.len()
        invariant
            k <= attribute_values@.len(),
            constraints == attribute_values.deep_view(),
            forall|j: int|
                0 <= j < k ==> attribute_of(node@, (#[trigger] constraints[j]).0)
                    == constraints[j].1,
        decreases attribute_values@.len() - k,
    {
        let (attribute, expected) = attribute_values[k];
        let value = attribute_value(node, attribute);
        proof {
            assert(constraints[k as int] == (attribute@, expected@));
        }
        if !str_eq(value.as_str(), expected) {
            return false;
        }
        k += 1;
    }
    true
}

/// Whether `node` is an element called `tag` with the attribute values asked
/// for.
fn node_fits(node: &PageNode, tag: &str, attribute_values: &[(&str, &str)]) -> (holds: bool)
    ensures
        holds == fits(node@, tag@, attribute_values.deep_view()),
{
    match &node.data {
        PageData::Element { name, attrs: _ } => {
            str_eq(name.as_str(), tag) && has_attribute_values(node, attribute_values)
        },
        _ => false,
    }
}

/// Selects the direct children of `node` that are elements called `tag` and
/// have each of the given attribute values, in source order. Text nodes are
/// never selected, and descendants below the children are not looked at.
pub fn node_children<'a>(node: &'a PageNode, tag: &str, attribute_values: &[(&str, &str)]) -> (found:
    Vec<&'a PageNode>)
    ensures
        views_of(found@) == children_matching(node@, tag@, attribute_values.deep_view()),
{
    let ghost constraints = attribute_values.deep_view();
    let ghost pred = |child: PageView| fits(child, tag@, constraints);
    let mut found: Vec<&'a PageNode> = Vec::new();
    let mut i: usize = 0;
    proof {
        reveal(Seq::filter);
        assert(node@.children.take(0) =~= Seq::empty());
        assert(views_of(found@) =~= Seq::empty());
    }
    while i < node.children.len()
        invariant
            i <= node.children@.len(),
            constraints == attribute_values.deep_view(),
            pred == (|child: PageView| fits(child, tag@, constraints)),
            views_of(found@) == node@.children.take(i as int).filter(pred),
        decreases node.children@.len() - i,
    {
        let child = &node.children[i];
        let ghost before = found@;
        proof {
            lemma_view_of_node(node);
            assert(node@.children[i as int] == child@);
            assert(node@.children.take(i + 1) =~= node@.children.take(i as int).push(child@));
            node@.children.take(i as int).lemma_filter_push(child@, pred);
        }
        if node_fits(child, tag, attribute_values) {
            found.push(child);
            proof {
                assert(views_of(found@) =~= views_of(before).push(child@));
            }
        }
        i += 1;
    }
    proof {
        lemma_view_of_node(node);
        assert(node@.children.take(i as int) =~= node@.children);
    }
    found
}

/// Takes the first direct child of `node` that is an element called `tag`
/// with the given attribute values. That there is none is a structural
/// error.
pub fn first_child<'a>(node: &'a PageNode, tag: &str, attribute_values: &[(&str, &str)]) -> (found:
    Result<&'a PageNode, Error>)
    ensures
        match found {
            Ok(child) => first_matching(node@, tag@, attribute_values.deep_view()) == Some(
                child@,
            ),
            Err(e) => e == Error::Structure && first_matching(
                node@,
                tag@,
                attribute_values.deep_view(),
            ).is_none(),
        },
{
    let found = node_children(node, tag, attribute_values);
    if found.len() > 0 {
        proof {
            assert(views_of(found@)[0] == found@[0]@);
        }
        Ok(found[0])
    } else {
        proof {
            assert(views_of(found@).len() == 0);
        }
        Err(Error::Structure)
    }
}

/// The first direct child of `node` that is an element called `tag`,
/// whatever its attributes.
pub open spec fn child(node: PageView, tag: Seq<char>) -> Option<PageView> {
    first_matching(node, tag, Seq::empty())
}

/// The node reached from `node` by taking, for each tag of `path` in turn,
/// the first child element of that name.
pub open spec fn descend(node: PageView, path: Seq<Seq<char>>) -> Option<PageView>
    decreases path.len(),
{
    if path.len() == 0 {
        Some(node)
    } else {
        match child(node, path[0]) {
            Some(next) => descend(next, path.drop_first()),
            None => None,
        }
    }
}

/// Takes the first direct child of `node` that is an element called `tag`,
/// whatever its attributes. That there is none is a structural error.
pub fn child_element<'a>(node: &'a PageNode, tag: &str) -> (found: Result<&'a PageNode, Error>)
    ensures
        match found {
            Ok(element) => child(node@, tag@) == Some(element@),
            Err(e) => e == Error::Structure && child(node@, tag@).is_none(),
        },
{
    let unconstrained: [(&str, &str); 0] = [];
    let none = unconstrained.as_slice();
    proof {
        assert(none.deep_view() =~= Seq::empty());
    }
    first_child(node, tag, none)
}

/// Walks down from `node`: for each tag of `path` in turn, to the first
/// child element of that name. A step that finds no such child is a
/// structural error.
pub fn descend_path<'a>(node: &'a PageNode, path: &[&str]) -> (found: Result<&'a PageNode, Error>)
    ensures
        match found {
            Ok(reached) => descend(node@, path.deep_view()) == Some(reached@),
            Err(e) => e == Error::Structure && descend(node@, path.deep_view()).is_none(),
        },
{
    let ghost tags = path.deep_view();
    let mut current: &'a PageNode = node;
    let mut i: usize = 0;
    proof {
        assert(tags.skip(0) =~= tags);
    }
    while i < path.len()
        invariant
            i <= path@.len(),
            tags == path.deep_view(),
            descend(node@, tags) == descend(current@, tags.skip(i as int)),
        decreases path@.len() - i,
    {
        proof {
            assert(tags.skip(i as int)[0] == path@[i as int]@);
            assert(tags.skip(i as int).drop_first() =~= tags.skip(i + 1));
        }
        current = child_element(current, path[i])?;
        i += 1;
    }
    Ok(current)
}

} // verus!
