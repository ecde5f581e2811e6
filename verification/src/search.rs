//! The matches that a search returned, as listed on its results page, and
//! the form that asks for a search.

use vstd::prelude::*;
use vstd::string::*;
use crate::decimal::{decimal, decimal_string, parse_prefix_i32, parsed_i32};
use crate::error::Error;
use crate::html::{html_tree, parse_page, MAX_PAGE_LEN};
use crate::page::{
    attribute_of, attribute_value, child, child_element, children_matching, descend,
    descend_path, first_child, first_matching, fits, lemma_children_matching, node_children,
    node_text, text_of, views_of, PageNode, PageView,
};
use crate::service::{service_views, Service, ServiceView};
use crate::text::{
    chars_of, contains, find_char, first_index, has_substring, lemma_contains_prefix,
    lemma_first_index, lowercased, to_lowercase,
};
use crate::url::{normalized, prepend_https};

verus! {

/// How sure the site is of a match.
#[derive(Debug, Clone, Copy, PartialEq, Eq, Structural)]
pub enum MatchType {
    /// The site's best match.
    Best,
    /// A further match that the site holds possible.
    Possible,
}

/// One image that the search found.
#[derive(Debug, PartialEq, Eq)]
pub struct Match {
    /// Whether this is the best match or a possible one.
    pub typ: MatchType,
    /// The absolute address of the match.
    pub url: String,
    /// The similarity to the searched image, in percent.
    pub similarity: i32,
}

/// A match as mathematical values.
pub struct MatchView {
    pub typ: MatchType,
    pub url: Seq<char>,
    pub similarity: int,
}

impl View for Match {
    type V = MatchView;

    open spec fn view(&self) -> MatchView {
        MatchView { typ: self.typ, url: self.url@, similarity: self.similarity as int }
    }
}

/// The views of a list of matches, in order.
pub open spec fn match_views(matches: Seq<Match>) -> Seq<MatchView> {
    Seq::new(matches.len(), |i: int| matches[i]@)
}

/// The kind of match that a panel with this lower-case label holds: the
/// best match if the label speaks of `best`, else a possible match if it
/// speaks of `possible`, else none.
pub open spec fn classification(label: Seq<char>) -> Option<MatchType> {
    if contains(label, "best"@) {
        Some(MatchType::Best)
    } else if contains(label, "possible"@) {
        Some(MatchType::Possible)
    } else {
        None
    }
}

/// Tells from the lower-case label of a panel what kind of match it holds,
/// if any.
pub fn classify(label: &str) -> (kind: Option<MatchType>)
    ensures
        kind == classification(label@),
{
    let text = chars_of(label);
    let best = chars_of("best");
    let possible = chars_of("possible");
    if has_substring(text.as_slice(), best.as_slice()) {
        Some(MatchType::Best)
    } else if has_substring(text.as_slice(), possible.as_slice()) {
        Some(MatchType::Possible)
    } else {
        None
    }
}

/// The similarity that a cell text states: the integer written before its
/// first `%`. A text without `%`, or without an integer before it, is a
/// format error.
pub open spec fn similarity(text: Seq<char>) -> Result<i32, Error> {
    match first_index(text, '%') {
        None => Err(Error::Format),
        Some(at) => match parsed_i32(text.take(at)) {
            None => Err(Error::Format),
            Some(percent) => Ok(percent),
        },
    }
}

/// Reads the similarity off a cell text such as `87% similarity`.
pub fn similarity_of(text: &str) -> (percent: Result<i32, Error>)
    ensures
        percent == similarity(text@),
{
    let chars = chars_of(text);
    match find_char(chars.as_slice(), '%') {
        None => Err(Error::Format),
        Some(at) => {
            proof {
                lemma_first_index(chars@, '%');
            }
            match parse_prefix_i32(chars.as_slice(), at) {
                None => Err(Error::Format),
                Some(percent) => Ok(percent),
            }
        },
    }
}

/// The attribute value that marks the block of result panels.
pub open spec fn pages_marker() -> Seq<(Seq<char>, Seq<char>)> {
    seq![("id"@, "pages"@)]
}

/// The result panels of a results page: the `div` children of the first
/// `div` with the id `pages` under `html` and `body`. There are none to
/// speak of where a step of that path is missing.
pub open spec fn result_panels(document: PageView) -> Option<Seq<PageView>> {
    match descend(document, seq!["html"@, "body"@]) {
        None => None,
        Some(body) => match first_matching(body, "div"@, pages_marker()) {
            None => None,
            Some(pages) => Some(children_matching(pages, "div"@, Seq::empty())),
        },
    }
}

/// The rows of a panel: the `tr` children of the `tbody` in its `table`.
pub open spec fn panel_rows(panel: PageView) -> Option<Seq<PageView>> {
    match descend(panel, seq!["table"@, "tbody"@]) {
        None => None,
        Some(tbody) => Some(children_matching(tbody, "tr"@, Seq::empty())),
    }
}

/// The label of a panel: the text of the first `th` in its first row.
pub open spec fn panel_label(panel: PageView) -> Option<Seq<char>> {
    match panel_rows(panel) {
        None => None,
        Some(rows) => if rows.len() == 0 {
            None
        } else {
            match child(rows[0], "th"@) {
                None => None,
                Some(th) => text_of(th),
            }
        },
    }
}

/// The match of kind `typ` that the rows of a panel describe. The address
/// is the `href` of the link in the first `td` of the second row, made
/// absolute; the similarity is stated by the text of the first `td` of the
/// last row. Fewer than two rows, or a missing element or text, are a
/// structural error; a similarity that cannot be read is a format error.
pub open spec fn rows_match(rows: Seq<PageView>, typ: MatchType) -> Result<MatchView, Error> {
    if rows.len() < 2 {
        Err(Error::Structure)
    } else {
        match child(rows[1], "td"@) {
            None => Err(Error::Structure),
            Some(td) => match child(td, "a"@) {
                None => Err(Error::Structure),
                Some(link) => match child(rows.last(), "td"@) {
                    None => Err(Error::Structure),
                    Some(cell) => match text_of(cell) {
                        None => Err(Error::Structure),
                        Some(text) => match similarity(text) {
                            Err(e) => Err(e),
                            Ok(percent) => Ok(
                                MatchView {
                                    typ,
                                    url: normalized(attribute_of(link, "href"@)),
                                    similarity: percent as int,
                                },
                            ),
                        },
                    },
                },
            },
        }
    }
}

/// What a panel contributes to the matches: nothing where its label, put in
/// lower case, names no kind of match; else the match that its rows
/// describe. A panel without a label is a structural error.
pub open spec fn panel_match(panel: PageView) -> Result<Option<MatchView>, Error> {
    match panel_label(panel) {
        None => Err(Error::Structure),
        Some(label) => match classification(lowercased(label)) {
            None => Ok(None),
            Some(typ) => match rows_match(panel_rows(panel).unwrap(), typ) {
                Err(e) => Err(e),
                Ok(found) => Ok(Some(found)),
            },
        },
    }
}

/// The matches that a list of panels holds, in panel order, or the error of
/// the first panel that cannot be read.
pub open spec fn matches_in(panels: Seq<PageView>) -> Result<Seq<MatchView>, Error>
    decreases panels.len(),
{
    if panels.len() == 0 {
        Ok(Seq::empty())
    } else {
        match matches_in(panels.drop_last()) {
            Err(e) => Err(e),
            Ok(found) => match panel_match(panels.last()) {
                Err(e) => Err(e),
                Ok(None) => Ok(found),
                Ok(Some(m)) => Ok(found.push(m)),
            },
        }
    }
}

/// The matches that a results page lists. A page without the block of
/// panels is a structural error.
pub open spec fn match_list(document: PageView) -> Result<Seq<MatchView>, Error> {
    match result_panels(document) {
        None => Err(Error::Structure),
        Some(panels) => matches_in(panels),
    }
}

/// What `matches_in` says of a list of panels, it says of every longer list
/// once a panel has failed.
pub proof fn lemma_failed_panel_fails_list(panels: Seq<PageView>, upto: int)
    requires
        0 <= upto <= panels.len(),
        matches_in(panels.take(upto)) is Err,
    ensures
        matches_in(panels) == matches_in(panels.take(upto)),
    decreases panels.len() - upto,
{
    if upto == panels.len() {
        assert(panels.take(upto) =~= panels);
    } else {
        assert(panels.take(upto + 1).drop_last() =~= panels.take(upto));
        lemma_failed_panel_fails_list(panels, upto + 1);
    }
}

/// Reads the match of kind `typ` off the rows of a panel.
pub fn match_of_rows(rows: &[&PageNode], typ: MatchType) -> (found: Result<Match, Error>)
    ensures
        match found {
            Ok(m) => rows_match(views_of(rows@), typ) == Ok::<MatchView, Error>(m@),
            Err(e) => rows_match(views_of(rows@), typ) == Err::<MatchView, Error>(e),
        },
{
    if rows.len() < 2 {
        return Err(Error::Structure);
    }
    proof {
        assert(views_of(rows@)[1] == rows@[1]@);
        assert(views_of(rows@).last() == rows@[rows@.len() - 1]@);
    }
    let td = child_element(rows[1], "td")?;
    let link = child_element(td, "a")?;
    let url = prepend_https(attribute_value(link, "href").as_str());
    let cell = child_element(rows[rows.len() - 1], "td")?;
    let text = node_text(cell)?;
    let similarity = similarity_of(text.as_str())?;
    Ok(Match { typ, url, similarity })
}

/// Reads what a panel contributes to the matches: its match, or nothing
/// where its label names no kind of match.
pub fn match_of_panel(panel: &PageNode) -> (found: Result<Option<Match>, Error>)
    ensures
        match found {
            Ok(Some(m)) => panel_match(panel@) == Ok::<Option<MatchView>, Error>(Some(m@)),
            Ok(None) => panel_match(panel@) == Ok::<Option<MatchView>, Error>(None),
            Err(e) => panel_match(panel@) == Err::<Option<MatchView>, Error>(e),
        },
{
    let path: [&str; 2] = ["table", "tbody"];
    let steps = path.as_slice();
    proof {
        assert(steps.deep_view() =~= seq!["table"@, "tbody"@]);
    }
    let tbody = descend_path(panel, steps)?;
    let unconstrained: [(&str, &str); 0] = [];
    let none = unconstrained.as_slice();
    proof {
        assert(none.deep_view() =~= Seq::empty());
    }
    let rows = node_children(tbody, "tr", none);
    if rows.len() == 0 {
        proof {
            assert(views_of(rows@).len() == 0);
        }
        return Err(Error::Structure);
    }
    proof {
        assert(views_of(rows@)[0] == rows@[0]@);
    }
    let th = child_element(rows[0], "th")?;
    let label = node_text(th)?;
    let lower = to_lowercase(label.as_str());
    match classify(lower.as_str()) {
        None => Ok(None),
        Some(typ) => {
            let found = match_of_rows(rows.as_slice(), typ)?;
            Ok(Some(found))
        },
    }
}

/// Reads the matches off the document tree of a results page: one for each
/// panel whose label names a kind of match, in panel order. Any such panel
/// that cannot be read fails the whole call.
pub fn matches_of(document: &PageNode) -> (found: Result<Vec<Match>, Error>)
    ensures
        match found {
            Ok(all) => match_list(document@) == Ok::<Seq<MatchView>, Error>(match_views(all@)),
            Err(e) => match_list(document@) == Err::<Seq<MatchView>, Error>(e),
        },
{
    let path: [&str; 2] = ["html", "body"];
    let steps = path.as_slice();
    proof {
        assert(steps.deep_view() =~= seq!["html"@, "body"@]);
    }
    let body = descend_path(document, steps)?;
    let marker: [(&str, &str); 1] = [("id", "pages")];
    let marked = marker.as_slice();
    proof {
        assert(marked.deep_view() =~= pages_marker());
    }
    let pages = first_child(body, "div", marked)?;
    let unconstrained: [(&str, &str); 0] = [];
    let none = unconstrained.as_slice();
    proof {
        assert(none.deep_view() =~= Seq::empty());
    }
    let panels = node_children(pages, "div", none);
    let ghost all = views_of(panels@);
    let mut list: Vec<Match> = Vec::new();
    let mut i: usize = 0;
    proof {
        assert(all.take(0) =~= Seq::empty());
        assert(match_views(list@) =~= Seq::empty());
    }
    while i < panels.len()
        invariant
            i <= panels@.len(),
            all == views_of(panels@),
            match_list(document@) == matches_in(all),
            matches_in(all.take(i as int)) == Ok::<Seq<MatchView>, Error>(match_views(list@)),
        decreases panels@.len() - i,
    {
        let ghost before = list@;
        proof {
            assert(all.take(i + 1).drop_last() =~= all.take(i as int));
            assert(all.take(i + 1).last() == panels@[i as int]@);
        }
        match match_of_panel(panels[i]) {
            Ok(Some(one)) => {
                list.push(one);
                proof {
                    assert(match_views(list@) =~= match_views(before).push(one@));
                }
            },
            Ok(None) => {},
            Err(e) => {
                proof {
                    lemma_failed_panel_fails_list(all, i + 1);
                }
                return Err(e);
            },
        }
        i += 1;
    }
    proof {
        assert(all.take(i as int) =~= all);
    }
    Ok(list)
}

/// Reads the matches that a search returned off the text of its results
/// page.
///
/// The page is parsed as HTML and the panels are looked up under `html`,
/// `body` and the `div` with the id `pages`.
pub fn search_by_url(page: &str) -> (found: Result<Vec<Match>, Error>)
    requires
        page.len() <= MAX_PAGE_LEN,
    ensures
        match found {
            Ok(all) => match_list(html_tree(page@)) == Ok::<Seq<MatchView>, Error>(
                match_views(all@),
            ),
            Err(e) => match_list(html_tree(page@)) == Err::<Seq<MatchView>, Error>(e),
        },
{
    let document = parse_page(page);
    matches_of(&document)
}

/// The fields of the form that asks for a search, in the order in which
/// they are sent: the address of the image under `url`, then one field
/// `service[]` per service, holding its identifier in decimal.
pub open spec fn form_fields(image_url: Seq<char>, services: Seq<ServiceView>) -> Seq<
    (Seq<char>, Seq<char>),
> {
    seq![("url"@, image_url)] + Seq::new(
        services.len(),
        |i: int| ("service[]"@, decimal(services[i].value)),
    )
}

/// Builds the form that asks the site to search the given services for the
/// image at `image_url`.
pub fn search_form(image_url: &str, services: &[Service]) -> (fields: Vec<(String, String)>)
    ensures
        fields.deep_view() == form_fields(image_url@, service_views(services@)),
{
    let mut fields: Vec<(String, String)> = Vec::new();
    fields.push((String::from_str("url"), String::from_str(image_url)));
    let ghost wanted = form_fields(image_url@, service_views(services@));
    let mut i: usize = 0;
    while i < services.len()
        invariant
            i <= services@.len(),
            wanted == form_fields(image_url@, service_views(services@)),
            fields@.len() == i + 1,
            forall|k: int| 0 <= k < fields@.len() ==> (#[trigger] fields@[k]).deep_view() == wanted[k],
        decreases services@.len() - i,
    {
        let value = decimal_string(services[i].value);
        fields.push((String::from_str("service[]"), value));
        i += 1;
    }
    proof {
        assert(fields.deep_view() =~= wanted);
    }
    fields
}

/// What a panel adds to the list of matches where it can be read.
pub open spec fn contribution(panel: PageView) -> Option<MatchView> {
    match panel_match(panel) {
        Ok(found) => found,
        Err(_) => None,
    }
}

/// Where every panel can be read, the matches are those of the panels that
/// hold one, in panel order; the panels that hold none leave no trace.
pub proof fn lemma_matches_follow_panels(panels: Seq<PageView>)
    requires
        forall|i: int| 0 <= i < panels.len() ==> (#[trigger] panel_match(panels[i])) is Ok,
    ensures
        matches_in(panels) == Ok::<Seq<MatchView>, Error>(
            panels.filter_map(|panel: PageView| contribution(panel)),
        ),
    decreases panels.len(),
{
    if panels.len() > 0 {
        let shorter = panels.drop_last();
        assert forall|i: int| 0 <= i < shorter.len() implies (#[trigger] panel_match(
            shorter[i],
        )) is Ok by {
            assert(shorter[i] == panels[i]);
        }
        lemma_matches_follow_panels(shorter);
        assert(panel_match(panels[panels.len() - 1]) is Ok);
        let found = shorter.filter_map(|panel: PageView| contribution(panel));
        match contribution(panels.last()) {
            Some(m) => {
                assert(found + seq![m] =~= found.push(m));
            },
            None => {},
        }
    }
}

/// A panel whose label says `best match`, in whatever case, holds the best
/// match: it is never passed over, and the match read off it is of the kind
/// `Best`.
pub proof fn lemma_best_match_label(panel: PageView)
    requires
        panel_label(panel) is Some,
        contains(lowercased(panel_label(panel).unwrap()), "best match"@),
    ensures
        panel_match(panel) != Ok::<Option<MatchView>, Error>(None),
        panel_match(panel) matches Ok(Some(found)) ==> found.typ == MatchType::Best,
{
    reveal_strlit("best match");
    reveal_strlit("best");
    assert("best match"@.take(4) =~= "best"@);
    lemma_contains_prefix(
        lowercased(panel_label(panel).unwrap()),
        "best match"@,
        4,
    );
}

/// A panel whose label says `possible match`, in whatever case, and does
/// not speak of `best`, holds a possible match: it is never passed over, and
/// the match read off it is of the kind `Possible`.
pub proof fn lemma_possible_match_label(panel: PageView)
    requires
        panel_label(panel) is Some,
        contains(lowercased(panel_label(panel).unwrap()), "possible match"@),
        !contains(lowercased(panel_label(panel).unwrap()), "best"@),
    ensures
        panel_match(panel) != Ok::<Option<MatchView>, Error>(None),
        panel_match(panel) matches Ok(Some(found)) ==> found.typ == MatchType::Possible,
{
    reveal_strlit("possible match");
    reveal_strlit("possible");
    assert("possible match"@.take(8) =~= "possible"@);
    lemma_contains_prefix(
        lowercased(panel_label(panel).unwrap()),
        "possible match"@,
        8,
    );
}

/// A panel whose label speaks neither of `best` nor of `possible` is passed
/// over without an error, whatever else it holds.
pub proof fn lemma_other_label_is_passed_over(panel: PageView)
    requires
        panel_label(panel) is Some,
        !contains(lowercased(panel_label(panel).unwrap()), "best"@),
        !contains(lowercased(panel_label(panel).unwrap()), "possible"@),
    ensures
        panel_match(panel) == Ok::<Option<MatchView>, Error>(None),
{
}

/// A cell text without `%` states no similarity: reading it is a format
/// error.
pub proof fn lemma_similarity_needs_percent(text: Seq<char>)
    requires
        forall|i: int| 0 <= i < text.len() ==> text[i] != '%',
    ensures
        similarity(text) == Err::<i32, Error>(Error::Format),
{
    lemma_first_index(text, '%');
}

/// A results page without the block of panels gives a structural error,
/// never an empty list of matches.
pub proof fn lemma_missing_panels_is_an_error(document: PageView)
    requires
        result_panels(document).is_none(),
    ensures
        match_list(document) == Err::<Seq<MatchView>, Error>(Error::Structure),
{
}

/// A results page with `html` and `body` in place but no `div` with the id
/// `pages` among the children of the body has no block of panels.
pub proof fn lemma_no_pages_div_no_panels(document: PageView)
    requires
        descend(document, seq!["html"@, "body"@]) matches Some(body) && forall|i: int|
            0 <= i < body.children.len() ==> !fits(
                #[trigger] body.children[i],
                "div"@,
                pages_marker(),
            ),
    ensures
        result_panels(document).is_none(),
{
    let body = descend(document, seq!["html"@, "body"@]).unwrap();
    let found = children_matching(body, "div"@, pages_marker());
    lemma_children_matching(body, "div"@, pages_marker());
    if found.len() > 0 {
        let at = choose|at: int| 0 <= at < body.children.len() && body.children[at] == found[0];
        assert(!fits(body.children[at], "div"@, pages_marker()));
    }
}

} // verus!
