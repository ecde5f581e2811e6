use iqdb::error::Error;
use iqdb::html::parse_page;
use iqdb::page::{
    attribute_value, child_element, descend_path, first_child, node_children, node_text,
    Attribute, PageData, PageNode,
};

fn element(name: &str, attrs: &[(&str, &str)], children: Vec<PageNode>) -> PageNode {
    let attrs = attrs.iter().map(|(n, v)| Attribute::new(n, v)).collect();
    PageNode::element(name, attrs, children)
}

#[test]
fn it_works() {
    assert_eq!(2 + 2, 4);
}

#[test]
fn constructors_build_what_they_are_given() {
    let node = element("a", &[("href", "/x")], vec![PageNode::text("t")]);
    assert_eq!(
        node.data,
        PageData::Element {
            name: "a".to_string(),
            attrs: vec![Attribute { name: "href".to_string(), value: "/x".to_string() }],
        }
    );
    assert_eq!(node.children.len(), 1);
    assert_eq!(node.children[0].data, PageData::Text { contents: "t".to_string() });
    assert!(node.children[0].children.is_empty());
    let root = PageNode::other(vec![node]);
    assert_eq!(root.data, PageData::Other);
    assert_eq!(root.children.len(), 1);
}

#[test]
fn child_filter_keeps_matching_elements_in_order() {
    let parent = element(
        "div",
        &[],
        vec![
            element("p", &[("id", "one")], vec![]),
            PageNode::text("p"),
            element("span", &[("id", "two")], vec![]),
            element("p", &[("id", "three")], vec![]),
        ],
    );
    let found = node_children(&parent, "p", &[]);
    assert_eq!(found.len(), 2);
    assert_eq!(attribute_value(found[0], "id"), "one");
    assert_eq!(attribute_value(found[1], "id"), "three");
}

#[test]
fn child_filter_looks_at_direct_children_only() {
    let parent = element("div", &[], vec![element("ul", &[], vec![element("li", &[], vec![])])]);
    assert!(node_children(&parent, "li", &[]).is_empty());
    assert_eq!(node_children(&parent, "ul", &[]).len(), 1);
}

#[test]
fn child_filter_never_selects_text() {
    let parent = element("div", &[], vec![PageNode::text("div"), PageNode::text("")]);
    assert!(node_children(&parent, "div", &[]).is_empty());
    assert!(node_children(&parent, "", &[]).is_empty());
}

#[test]
fn child_filter_compares_tags_exactly() {
    let parent = element("div", &[], vec![element("TR", &[], vec![]), element("tr", &[], vec![])]);
    let found = node_children(&parent, "tr", &[]);
    assert_eq!(found.len(), 1);
    assert_eq!(found[0].data, PageData::Element { name: "tr".to_string(), attrs: vec![] });
    assert!(node_children(&parent, "t", &[]).is_empty());
    assert!(node_children(&parent, "trr", &[]).is_empty());
}

#[test]
fn child_filter_requires_every_attribute_value() {
    let parent = element(
        "body",
        &[],
        vec![
            element("div", &[("id", "pages"), ("class", "x")], vec![]),
            element("div", &[("id", "pages")], vec![]),
            element("div", &[("class", "x")], vec![]),
            element("div", &[("id", "pages "), ("class", "x")], vec![]),
        ],
    );
    assert_eq!(node_children(&parent, "div", &[("id", "pages")]).len(), 2);
    assert_eq!(node_children(&parent, "div", &[("id", "pages"), ("class", "x")]).len(), 1);
    assert_eq!(node_children(&parent, "div", &[("class", "x")]).len(), 3);
    assert_eq!(node_children(&parent, "div", &[]).len(), 4);
}

#[test]
fn missing_attribute_counts_as_empty() {
    let parent = element(
        "body",
        &[],
        vec![element("div", &[], vec![]), element("div", &[("id", "")], vec![])],
    );
    assert_eq!(node_children(&parent, "div", &[("id", "")]).len(), 2);
    assert!(node_children(&parent, "div", &[("id", "pages")]).is_empty());
}

#[test]
fn child_filter_of_a_leaf_is_empty() {
    assert!(node_children(&PageNode::text("x"), "p", &[]).is_empty());
    assert!(node_children(&element("p", &[], vec![]), "p", &[]).is_empty());
}

#[test]
fn text_is_that_of_the_first_text_child() {
    let node = element(
        "th",
        &[],
        vec![element("b", &[], vec![PageNode::text("inner")]), PageNode::text("first"), PageNode::text("second")],
    );
    assert_eq!(node_text(&node), Ok("first".to_string()));
}

#[test]
fn text_may_be_empty() {
    let node = element("th", &[], vec![PageNode::text("")]);
    assert_eq!(node_text(&node), Ok(String::new()));
}

#[test]
fn node_without_text_child_is_a_structure_error() {
    let node = element("th", &[], vec![element("b", &[], vec![PageNode::text("inner")])]);
    assert_eq!(node_text(&node), Err(Error::Structure));
    assert_eq!(node_text(&element("th", &[], vec![])), Err(Error::Structure));
    assert_eq!(node_text(&PageNode::text("itself")), Err(Error::Structure));
}

#[test]
fn attribute_reader_takes_the_first_of_a_name() {
    let node = element("a", &[("href", "/one"), ("id", "x"), ("href", "/two")], vec![]);
    assert_eq!(attribute_value(&node, "href"), "/one");
    assert_eq!(attribute_value(&node, "id"), "x");
}

#[test]
fn attribute_reader_gives_empty_for_what_is_absent() {
    let node = element("a", &[("href", "/one")], vec![]);
    assert_eq!(attribute_value(&node, "id"), "");
    assert_eq!(attribute_value(&node, "HREF"), "");
    assert_eq!(attribute_value(&node, "hre"), "");
    assert_eq!(attribute_value(&PageNode::text("href"), "href"), "");
    assert_eq!(attribute_value(&PageNode::other(vec![]), "href"), "");
}

#[test]
fn first_child_is_the_first_match() {
    let parent = element(
        "tr",
        &[],
        vec![element("td", &[("n", "1")], vec![]), element("td", &[("n", "2")], vec![])],
    );
    let td = first_child(&parent, "td", &[]).unwrap();
    assert_eq!(attribute_value(td, "n"), "1");
    let second = first_child(&parent, "td", &[("n", "2")]).unwrap();
    assert_eq!(attribute_value(second, "n"), "2");
    assert_eq!(first_child(&parent, "th", &[]).err(), Some(Error::Structure));
    assert_eq!(child_element(&parent, "th").err(), Some(Error::Structure));
    assert_eq!(attribute_value(child_element(&parent, "td").unwrap(), "n"), "1");
}

#[test]
fn path_is_followed_through_first_children() {
    let tree = PageNode::other(vec![element(
        "html",
        &[],
        vec![
            element("head", &[], vec![]),
            element("body", &[("n", "1")], vec![element("p", &[], vec![PageNode::text("in")])]),
            element("body", &[("n", "2")], vec![]),
        ],
    )]);
    let p = descend_path(&tree, &["html", "body", "p"]).unwrap();
    assert_eq!(node_text(p), Ok("in".to_string()));
    assert_eq!(descend_path(&tree, &["html", "p"]).err(), Some(Error::Structure));
    assert_eq!(descend_path(&tree, &["body"]).err(), Some(Error::Structure));
    let same = descend_path(&tree, &[]).unwrap();
    assert_eq!(same.children.len(), 1);
}

#[test]
fn parsed_page_has_html_and_body() {
    let page = parse_page("<html><body><p id=\"x\">hello</p></body></html>");
    let html = node_children(&page, "html", &[]);
    assert_eq!(html.len(), 1);
    let body = node_children(html[0], "body", &[]);
    assert_eq!(body.len(), 1);
    let p = node_children(body[0], "p", &[("id", "x")]);
    assert_eq!(p.len(), 1);
    assert_eq!(node_text(p[0]), Ok("hello".to_string()));
    assert_eq!(attribute_value(p[0], "id"), "x");
    assert!(matches!(page.data, PageData::Other));
}

#[test]
fn parsed_page_keeps_names_attributes_and_order() {
    let page = parse_page(
        "<!DOCTYPE html><html><head></head><body><!-- note --><A HREF='/one' Id=k>first<b>bold</b>second</A><br></body></html>",
    );
    assert_eq!(page.data, PageData::Other);
    assert_eq!(page.children.len(), 1);
    let body = descend_path(&page, &["html", "body"]).unwrap();
    assert_eq!(body.children.len(), 3);
    assert_eq!(body.children[0].data, PageData::Other);
    let a = &body.children[1];
    assert_eq!(
        a.data,
        PageData::Element {
            name: "a".to_string(),
            attrs: vec![
                Attribute { name: "href".to_string(), value: "/one".to_string() },
                Attribute { name: "id".to_string(), value: "k".to_string() },
            ],
        }
    );
    assert_eq!(a.children.len(), 3);
    assert_eq!(a.children[0], PageNode::text("first"));
    assert_eq!(a.children[1], PageNode::element("b", vec![], vec![PageNode::text("bold")]));
    assert_eq!(a.children[2], PageNode::text("second"));
    assert_eq!(body.children[2], PageNode::element("br", vec![], vec![]));
}

#[test]
fn parsed_text_is_decoded() {
    let page = parse_page("<p>a &amp; b &lt; c é</p>");
    let p = descend_path(&page, &["html", "body", "p"]).unwrap();
    assert_eq!(node_text(p), Ok("a & b < c é".to_string()));
}

#[test]
fn parser_supplies_missing_structure() {
    let page = parse_page("<table><tr><td>cell</td></tr></table>");
    let td = descend_path(&page, &["html", "body", "table", "tbody", "tr", "td"]).unwrap();
    assert_eq!(node_text(td), Ok("cell".to_string()));
    let empty = parse_page("");
    let html = child_element(&empty, "html").unwrap();
    assert_eq!(node_children(html, "head", &[]).len(), 1);
    assert_eq!(node_children(html, "body", &[]).len(), 1);
}
