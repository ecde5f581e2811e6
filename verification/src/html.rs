//! From the text of a page to its document tree.
//!
//! The HTML is parsed by `html5ever` into its reference-counted DOM. That DOM
//! is read here node by node, through a handful of accessors whose contracts
//! are taken on trust, and rebuilt as a `PageNode` by verified code.

use std::rc::Rc;
use html5ever::driver::ParseOpts;
use html5ever::rcdom::RcDom;
use html5ever::tendril::TendrilSink;
use html5ever::tree_builder::TreeBuilderOpts;
use markup5ever::rcdom::NodeData;
use vstd::prelude::*;
use crate::page::{
    attributes_of, trees_of, Attribute, PageData, PageDataView, PageNode, PageView,
};

verus! {

/// The longest page text, in bytes, that is handed to the parser. The
/// parser's buffers count their length in 32 bits and panic beyond that; a
/// page of this size stays far below it even where every character is
/// replaced by a longer one.
pub const MAX_PAGE_LEN: usize = 0x1000_0000;

/// A node of the DOM that `html5ever` builds. Nothing inside it is visible
/// to the verifier.
#[verifier::external_type_specification]
#[verifier::external_body]
pub struct ExDomNode(markup5ever::rcdom::Node);

/// The tree that a DOM node spans once parsing is over: for an element its
/// local tag name and its attributes by local name, for a text node its
/// contents, and the trees of its children in document order.
pub uninterp spec fn dom_tree(node: markup5ever::rcdom::Node) -> PageView;

/// The tree of the document that `html5ever` builds from a page text, with
/// the doctype dropped.
pub uninterp spec fn html_tree(text: Seq<char>) -> PageView;

/// Runs `html5ever::parse_document` on the bytes of `text`, with an `RcDom`
/// as the sink and the option that drops the doctype, and hands out the
/// document node. Trusted: the tree of that node is a function of the text
/// alone, and the parser returns for every text within the length limit.
#[verifier::external_body]
fn parse_document(text: &str) -> (document: Rc<markup5ever::rcdom::Node>)
    requires
        text.len() <= MAX_PAGE_LEN,
    ensures
        dom_tree(*document) == html_tree(text@),
{
    let opts = ParseOpts {
        tree_builder: TreeBuilderOpts { drop_doctype: true, ..Default::default() },
        ..Default::default()
    };
    html5ever::parse_document(RcDom::default(), opts).from_utf8().one(text.as_bytes()).document
}

/// Reads the field `children` of a DOM node at one index. Trusted: the
/// children are those of the node's tree, in the same order, and there is a
/// child at `index` exactly when the index is below their number.
#[verifier::external_body]
fn child_at(node: &markup5ever::rcdom::Node, index: usize) -> (child: Option<
    Rc<markup5ever::rcdom::Node>,
>)
    ensures
        match child {
            Some(c) => index < dom_tree(*node).children.len() && dom_tree(*c) == dom_tree(
                *node,
            ).children[index as int],
            None => index >= dom_tree(*node).children.len(),
        },
{
    node.children.borrow().get(index).cloned()
}

/// Reads the local name out of the variant `NodeData::Element` of a DOM
/// node. Trusted: a name comes back exactly for an element, and it is the
/// tag name of the node's tree.
#[verifier::external_body]
fn element_name(node: &markup5ever::rcdom::Node) -> (name: Option<String>)
    ensures
        match name {
            Some(n) => dom_tree(*node).data matches PageDataView::Element { name, .. } && name
                == n@,
            None => !(dom_tree(*node).data is Element),
        },
{
    match node.data {
        NodeData::Document => None,
        NodeData::Doctype { .. } => None,
        NodeData::Text { .. } => None,
        NodeData::Comment { .. } => None,
        NodeData::Element { ref name, .. } => Some(name.local.to_string()),
        NodeData::ProcessingInstruction { .. } => None,
    }
}

/// Reads one entry of the attribute list in the variant `NodeData::Element`
/// of a DOM node: the local name and the value. Trusted: the attributes are
/// those of the node's tree, in the same order; there is one at `index`
/// exactly when the node is an element and the index is below their number.
#[verifier::external_body]
fn attribute_at(node: &markup5ever::rcdom::Node, index: usize) -> (attribute: Option<Attribute>)
    ensures
        match attribute {
            Some(a) => dom_tree(*node).data matches PageDataView::Element { attrs, .. } && index
                < attrs.len() && a@ == attrs[index as int],
            None => dom_tree(*node).data matches PageDataView::Element { attrs, .. } ==> index
                >= attrs.len(),
        },
{
    match node.data {
        NodeData::Document => None,
        NodeData::Doctype { .. } => None,
        NodeData::Text { .. } => None,
        NodeData::Comment { .. } => None,
        NodeData::Element { ref attrs, .. } => attrs.borrow().get(index).map(
            |a| Attribute::new(&a.name.local, &a.value),
        ),
        NodeData::ProcessingInstruction { .. } => None,
    }
}

/// Reads the contents out of the variant `NodeData::Text` of a DOM node.
/// Trusted: a text comes back exactly for a text node, and it is the
/// contents in the node's tree.
#[verifier::external_body]
fn text_contents(node: &markup5ever::rcdom::Node) -> (contents: Option<String>)
    ensures
        match contents {
            Some(c) => dom_tree(*node).data == (PageDataView::Text { contents: c@ }),
            None => !(dom_tree(*node).data is Text),
        },
{
    match node.data {
        NodeData::Document => None,
        NodeData::Doctype { .. } => None,
        NodeData::Text { ref contents } => Some(contents.borrow().to_string()),
        NodeData::Comment { .. } => None,
        NodeData::Element { .. } => None,
        NodeData::ProcessingInstruction { .. } => None,
    }
}

/// Collects the attributes of a DOM element.
fn attributes_from(node: &markup5ever::rcdom::Node) -> (attrs: Vec<Attribute>)
    requires
        dom_tree(*node).data is Element,
    ensures
        dom_tree(*node).data matches PageDataView::Element { attrs: all, .. } && attributes_of(
            attrs@,
        ) == all,
{
    let ghost all = dom_tree(*node).data->attrs;
    let mut attrs: Vec<Attribute> = Vec::new();
    loop
        invariant
            dom_tree(*node).data matches PageDataView::Element { attrs: a, .. } && a == all,
            attrs@.len() <= all.len(),
            attributes_of(attrs@) == all.take(attrs@.len() as int),
        decreases all.len() - attrs@.len(),
    {
        let ghost before = attrs@;
        match attribute_at(node, attrs.len()) {
            Some(attribute) => {
                attrs.push(attribute);
                proof {
                    assert(attributes_of(attrs@) =~= attributes_of(before).push(attribute@));
                    assert(all.take(attrs@.len() as int) =~= all.take(before.len() as int).push(
                        attribute@,
                    ));
                }
            },
            None => {
                proof {
                    assert(all.take(attrs@.len() as int) =~= all);
                }
                return attrs;
            },
        }
    }
}

/// Rebuilds the tree below a DOM node as a `PageNode`.
fn page_of(node: &markup5ever::rcdom::Node) -> (page: PageNode)
    ensures
        page@ == dom_tree(*node),
    decreases dom_tree(*node),
{
    let ghost tree = dom_tree(*node);
    let mut children: Vec<PageNode> = Vec::new();
    loop
        invariant
            tree == dom_tree(*node),
            children@.len() <= tree.children.len(),
            trees_of(children@) == tree.children.take(children@.len() as int),
        ensures
            trees_of(children@) == tree.children,
        decreases tree.children.len() - children@.len(),
    {
        let ghost before = children@;
        match child_at(node, children.len()) {
            Some(child) => {
                let subtree = page_of(&child);
                children.push(subtree);
                proof {
                    assert(children@.drop_last() =~= before);
                    assert(tree.children.take(children@.len() as int) =~= tree.children.take(
                        before.len() as int,
                    ).push(subtree@));
                }
            },
            None => {
                proof {
                    assert(tree.children.take(children@.len() as int) =~= tree.children);
                }
                break ;
            },
        }
    }
    let data = match element_name(node) {
        Some(name) => PageData::Element { name, attrs: attributes_from(node) },
        None => match text_contents(node) {
            Some(contents) => PageData::Text { contents },
            None => PageData::Other,
        },
    };
    PageNode { data, children }
}

/// Parses the text of a page into its document tree.
///
/// The tree is rebuilt by recursion along the nesting of the page's
/// elements, so the stack in use grows with the depth of that nesting.
pub fn parse_page(text: &str) -> (page: PageNode)
    requires
        text.len() <= MAX_PAGE_LEN,
    ensures
        page@ == html_tree(text@),
{
    let document = parse_document(text);
    page_of(&document)
}

} // verus!
