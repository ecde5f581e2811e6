use iqdb::page::{Attribute, PageNode};
use iqdb::search::{classify, match_of_panel, match_of_rows, matches_of, similarity_of};
use iqdb::{search_by_url, search_form, Error, Match, MatchType, Service};

fn element(name: &str, attrs: &[(&str, &str)], children: Vec<PageNode>) -> PageNode {
    let attrs = attrs.iter().map(|(n, v)| Attribute::new(n, v)).collect();
    PageNode::element(name, attrs, children)
}

fn heading(label: &str) -> PageNode {
    element("tr", &[], vec![element("th", &[], vec![PageNode::text(label)])])
}

fn picture(href: &str) -> PageNode {
    element(
        "tr",
        &[],
        vec![element(
            "td",
            &[("class", "image")],
            vec![element("a", &[("href", href)], vec![element("img", &[("src", "/t.jpg")], vec![])])],
        )],
    )
}

fn cell(text: &str) -> PageNode {
    element("tr", &[], vec![element("td", &[], vec![PageNode::text(text)])])
}

fn panel(rows: Vec<PageNode>) -> PageNode {
    element("div", &[], vec![element("table", &[], vec![element("tbody", &[], rows)])])
}

fn full_panel(label: &str, href: &str, similarity: &str) -> PageNode {
    panel(vec![heading(label), picture(href), cell("640×480 [Safe]"), cell(similarity)])
}

fn results_page(panels: Vec<PageNode>) -> PageNode {
    PageNode::other(vec![element(
        "html",
        &[],
        vec![
            element("head", &[], vec![]),
            element(
                "body",
                &[],
                vec![
                    element("div", &[("id", "header")], vec![]),
                    element("div", &[("id", "pages"), ("class", "pages")], panels),
                ],
            ),
        ],
    )])
}

fn found(typ: MatchType, url: &str, similarity: i32) -> Match {
    Match { typ, url: url.to_string(), similarity }
}

const RESULTS_PAGE: &str = "<html><head><title>Results</title></head><body>
<div id=\"pages\" class=\"pages\">
<div><table><tbody>
<tr><th>Best match</th></tr>
<tr><td class=\"image\"><a href=\"//img.test/1.jpg\"><img src=\"/thumb/1.jpg\"></a></td></tr>
<tr><td>640×480 [Safe]</td></tr>
<tr><td>95% similarity</td></tr>
</tbody></table></div>
<div><table><tbody>
<tr><th>No relevant matches</th></tr>
<tr><td>Nothing was found.</td></tr>
</tbody></table></div>
</div>
</body></html>";

#[test]
fn best_match_panel_gives_one_match() {
    assert_eq!(
        search_by_url(RESULTS_PAGE),
        Ok(vec![found(MatchType::Best, "http://img.test/1.jpg", 95)])
    );
}

#[test]
fn page_without_pages_block_is_a_structure_error() {
    let page = "<html><body><div id=\"other\"><div><table><tbody><tr><th>Best match</th></tr></tbody></table></div></div></body></html>";
    assert_eq!(search_by_url(page), Err(Error::Structure));
    assert_eq!(search_by_url("<html><body></body></html>"), Err(Error::Structure));
    assert_eq!(search_by_url(""), Err(Error::Structure));
    let tree = PageNode::other(vec![element("html", &[], vec![element("body", &[], vec![])])]);
    assert_eq!(matches_of(&tree), Err(Error::Structure));
    assert_eq!(matches_of(&PageNode::other(vec![])), Err(Error::Structure));
}

#[test]
fn pages_block_must_be_a_child_of_the_body() {
    let tree = PageNode::other(vec![element(
        "html",
        &[],
        vec![element(
            "body",
            &[],
            vec![element("div", &[], vec![element("div", &[("id", "pages")], vec![])])],
        )],
    )]);
    assert_eq!(matches_of(&tree), Err(Error::Structure));
}

#[test]
fn pages_block_without_panels_gives_no_matches() {
    assert_eq!(matches_of(&results_page(vec![])), Ok(vec![]));
    assert_eq!(search_by_url("<div id=pages></div>"), Ok(vec![]));
}

#[test]
fn label_case_does_not_matter() {
    let page = "<div id=pages><div><table>
<tr><th>BEST MATCH</th></tr>
<tr><td><a href=\"https://img.test/2.jpg\">x</a></td></tr>
<tr><td>61% similarity</td></tr>
</table></div><div><table>
<tr><th>Possible Match</th></tr>
<tr><td><a href=\"//img.test/3.jpg\">x</a></td></tr>
<tr><td>48% similarity</td></tr>
</table></div></div>";
    assert_eq!(
        search_by_url(page),
        Ok(vec![
            found(MatchType::Best, "https://img.test/2.jpg", 61),
            found(MatchType::Possible, "http://img.test/3.jpg", 48),
        ])
    );
    assert_eq!(
        match_of_panel(&full_panel("bEsT mAtCh", "//a.test/", "50% similarity")),
        Ok(Some(found(MatchType::Best, "http://a.test/", 50)))
    );
}

#[test]
fn matches_come_in_panel_order_and_others_are_left_out() {
    let tree = results_page(vec![
        full_panel("Your image", "//own.test/", "100% similarity"),
        full_panel("Best match", "//one.test/1", "91% similarity"),
        panel(vec![heading("No relevant matches")]),
        full_panel("Possible match", "//two.test/2", "55% similarity"),
        full_panel("Possible match", "http://three.test/3", "54% similarity"),
    ]);
    assert_eq!(
        matches_of(&tree),
        Ok(vec![
            found(MatchType::Best, "http://one.test/1", 91),
            found(MatchType::Possible, "http://two.test/2", 55),
            found(MatchType::Possible, "http://three.test/3", 54),
        ])
    );
}

#[test]
fn label_decides_the_kind() {
    assert_eq!(classify("best match"), Some(MatchType::Best));
    assert_eq!(classify("possible match"), Some(MatchType::Possible));
    assert_eq!(classify("best"), Some(MatchType::Best));
    assert_eq!(classify("the possible ones"), Some(MatchType::Possible));
    assert_eq!(classify("no relevant matches"), None);
    assert_eq!(classify("your image"), None);
    assert_eq!(classify(""), None);
    assert_eq!(classify("bes t"), None);
    assert_eq!(classify("possibl"), None);
}

#[test]
fn best_wins_over_possible() {
    assert_eq!(classify("best possible match"), Some(MatchType::Best));
    assert_eq!(classify("possible match, at best"), Some(MatchType::Best));
}

#[test]
fn classification_takes_the_label_as_it_is() {
    assert_eq!(classify("Best match"), None);
    assert_eq!(classify("POSSIBLE"), None);
}

#[test]
fn similarity_is_the_number_before_the_percent_sign() {
    assert_eq!(similarity_of("87% similarity"), Ok(87));
    assert_eq!(similarity_of("95% similarity"), Ok(95));
    assert_eq!(similarity_of("0%"), Ok(0));
    assert_eq!(similarity_of("100% similarity"), Ok(100));
    assert_eq!(similarity_of("7%%"), Ok(7));
    assert_eq!(similarity_of("+7% or 9%"), Ok(7));
    assert_eq!(similarity_of("-3%"), Ok(-3));
    assert_eq!(similarity_of("250%"), Ok(250));
}

#[test]
fn similarity_without_percent_sign_is_a_format_error() {
    assert_eq!(similarity_of("87 similarity"), Err(Error::Format));
    assert_eq!(similarity_of("87"), Err(Error::Format));
    assert_eq!(similarity_of(""), Err(Error::Format));
}

#[test]
fn similarity_without_a_number_is_a_format_error() {
    assert_eq!(similarity_of("%"), Err(Error::Format));
    assert_eq!(similarity_of("about 87%"), Err(Error::Format));
    assert_eq!(similarity_of("87 %"), Err(Error::Format));
    assert_eq!(similarity_of(" 87%"), Err(Error::Format));
    assert_eq!(similarity_of("8.7%"), Err(Error::Format));
    assert_eq!(similarity_of("99999999999%"), Err(Error::Format));
}

#[test]
fn panel_is_read_from_second_and_last_row() {
    let rows = vec![
        heading("ignored here"),
        picture("//second.test/"),
        picture("//third.test/"),
        cell("12% similarity"),
    ];
    let refs: Vec<&PageNode> = rows.iter().collect();
    assert_eq!(
        match_of_rows(&refs, MatchType::Possible),
        Ok(found(MatchType::Possible, "http://second.test/", 12))
    );
}

#[test]
fn panel_of_two_rows_reads_both_from_the_second() {
    let second = element(
        "tr",
        &[],
        vec![element(
            "td",
            &[],
            vec![PageNode::text("33% similarity"), element("a", &[("href", "//x.test/")], vec![])],
        )],
    );
    let p = panel(vec![heading("Best match"), second]);
    assert_eq!(match_of_panel(&p), Ok(Some(found(MatchType::Best, "http://x.test/", 33))));
}

#[test]
fn match_panel_with_too_few_rows_is_a_structure_error() {
    assert_eq!(match_of_panel(&panel(vec![heading("Best match")])), Err(Error::Structure));
    let rows = vec![heading("Best match")];
    let refs: Vec<&PageNode> = rows.iter().collect();
    assert_eq!(match_of_rows(&refs, MatchType::Best), Err(Error::Structure));
    assert_eq!(match_of_rows(&[], MatchType::Best), Err(Error::Structure));
    let tree = results_page(vec![panel(vec![heading("Possible match")])]);
    assert_eq!(matches_of(&tree), Err(Error::Structure));
}

#[test]
fn panel_without_rows_or_label_is_a_structure_error() {
    assert_eq!(match_of_panel(&panel(vec![])), Err(Error::Structure));
    assert_eq!(match_of_panel(&element("div", &[], vec![])), Err(Error::Structure));
    assert_eq!(
        match_of_panel(&element("div", &[], vec![element("table", &[], vec![])])),
        Err(Error::Structure)
    );
    let no_th = panel(vec![cell("Best match"), picture("//a.test/"), cell("9%")]);
    assert_eq!(match_of_panel(&no_th), Err(Error::Structure));
    let no_text = panel(vec![
        element("tr", &[], vec![element("th", &[], vec![])]),
        picture("//a.test/"),
        cell("9%"),
    ]);
    assert_eq!(match_of_panel(&no_text), Err(Error::Structure));
}

#[test]
fn match_panel_without_link_or_cell_is_a_structure_error() {
    let no_link = panel(vec![heading("Best match"), cell("no link"), cell("9%")]);
    assert_eq!(match_of_panel(&no_link), Err(Error::Structure));
    let no_td = panel(vec![heading("Best match"), heading("no cell"), cell("9%")]);
    assert_eq!(match_of_panel(&no_td), Err(Error::Structure));
    let last_without_td = panel(vec![heading("Best match"), picture("//a.test/"), heading("9%")]);
    assert_eq!(match_of_panel(&last_without_td), Err(Error::Structure));
    let last_without_text = panel(vec![heading("Best match"), picture("//a.test/"), picture("//b.test/")]);
    assert_eq!(match_of_panel(&last_without_text), Err(Error::Structure));
}

#[test]
fn match_panel_with_unreadable_similarity_is_a_format_error() {
    let p = full_panel("Best match", "//a.test/", "high similarity");
    assert_eq!(match_of_panel(&p), Err(Error::Format));
    let tree = results_page(vec![full_panel("Possible match", "//a.test/", "similar")]);
    assert_eq!(matches_of(&tree), Err(Error::Format));
}

#[test]
fn other_panels_are_passed_over_whatever_they_hold() {
    assert_eq!(match_of_panel(&panel(vec![heading("No relevant matches")])), Ok(None));
    assert_eq!(
        match_of_panel(&full_panel("Your image", "//a.test/", "no number")),
        Ok(None)
    );
}

#[test]
fn first_failing_panel_decides_the_error() {
    let tree = results_page(vec![
        full_panel("Best match", "//a.test/", "nothing"),
        panel(vec![]),
    ]);
    assert_eq!(matches_of(&tree), Err(Error::Format));
    let tree = results_page(vec![
        panel(vec![]),
        full_panel("Best match", "//a.test/", "nothing"),
    ]);
    assert_eq!(matches_of(&tree), Err(Error::Structure));
}

#[test]
fn form_has_the_url_and_one_field_per_service() {
    let services = vec![
        Service { value: 1, name: "A".to_string(), url: "http://a.test/".to_string() },
        Service { value: 13, name: "B".to_string(), url: "http://b.test/".to_string() },
        Service { value: -2, name: "C".to_string(), url: "http://c.test/".to_string() },
    ];
    assert_eq!(
        search_form("http://img.test/cat.png", &services),
        vec![
            ("url".to_string(), "http://img.test/cat.png".to_string()),
            ("service[]".to_string(), "1".to_string()),
            ("service[]".to_string(), "13".to_string()),
            ("service[]".to_string(), "-2".to_string()),
        ]
    );
}

#[test]
fn form_without_services_has_the_url_alone() {
    assert_eq!(search_form("", &[]), vec![("url".to_string(), String::new())]);
}
