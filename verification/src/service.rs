//! The services that the site offers to search, as listed on its front page.

use vstd::prelude::*;
use vstd::string::*;
use crate::decimal::{parse_i32, parsed_i32};
use crate::error::Error;
use crate::html::{html_tree, parse_page, MAX_PAGE_LEN};
use crate::page::{
    attribute_of, attribute_value, child, child_element, children_matching, descend,
    descend_path, node_children, node_text, text_of, views_of, PageNode, PageView,
};
use crate::url::{normalized, prepend_https};

verus! {

/// One searchable service of the site.
#[derive(Debug, PartialEq, Eq)]
pub struct Service {
    /// The value that selects the service in the search form.
    pub value: i32,
    /// The name under which the site shows the service.
    pub name: String,
    /// The absolute address of the service.
    pub url: String,
}

/// A service as mathematical values.
pub struct ServiceView {
    pub value: int,
    pub name: Seq<char>,
    pub url: Seq<char>,
}

impl View for Service {
    type V = ServiceView;

    open spec fn view(&self) -> ServiceView {
        ServiceView { value: self.value as int, name: self.name@, url: self.url@ }
    }
}

/// The views of a list of services, in order.
pub open spec fn service_views(services: Seq<Service>) -> Seq<ServiceView> {
    Seq::new(services.len(), |i: int| services[i]@)
}

/// The tags that lead from the document root to the body of the service
/// table.
pub open spec fn service_path() -> Seq<Seq<char>> {
    seq!["html"@, "body"@, "form"@, "table"@, "tbody"@]
}

/// The rows of the service table: the `tr` children of the `tbody` that
/// stands under `html`, `body`, `form` and `table`. There are none to speak
/// of where a step of that path is missing.
pub open spec fn service_rows(document: PageView) -> Option<Seq<PageView>> {
    match descend(document, service_path()) {
        Some(tbody) => Some(children_matching(tbody, "tr"@, Seq::empty())),
        None => None,
    }
}

/// The service that a table row describes. The row holds a `th` with a
/// `label`, and in the label an `input` and a link. The identifier is the
/// number in the input's `value`, the address is the link's `href` made
/// absolute, the name is the link's text. A missing element or text is a
/// structural error, a `value` that is no number a format error.
pub open spec fn row_service(row: PageView) -> Result<ServiceView, Error> {
    match child(row, "th"@) {
        None => Err(Error::Structure),
        Some(th) => match child(th, "label"@) {
            None => Err(Error::Structure),
            Some(label) => match (child(label, "input"@), child(label, "a"@)) {
                (Some(input), Some(link)) => match parsed_i32(attribute_of(input, "value"@)) {
                    None => Err(Error::Format),
                    Some(value) => match text_of(link) {
                        None => Err(Error::Structure),
                        Some(name) => Ok(
                            ServiceView {
                                value: value as int,
                                name,
                                url: normalized(attribute_of(link, "href"@)),
                            },
                        ),
                    },
                },
                _ => Err(Error::Structure),
            },
        },
    }
}

/// The services that a list of rows describes, in row order, or the error of
/// the first row that describes none.
pub open spec fn services_in(rows: Seq<PageView>) -> Result<Seq<ServiceView>, Error>
    decreases rows.len(),
{
    if rows.len() == 0 {
        Ok(Seq::empty())
    } else {
        match services_in(rows.drop_last()) {
            Err(e) => Err(e),
            Ok(services) => match row_service(rows.last()) {
                Err(e) => Err(e),
                Ok(service) => Ok(services.push(service)),
            },
        }
    }
}

/// The services that a front page lists: one for each row of its service
/// table. A page without that table is a structural error.
pub open spec fn service_list(document: PageView) -> Result<Seq<ServiceView>, Error> {
    match service_rows(document) {
        None => Err(Error::Structure),
        Some(rows) => services_in(rows),
    }
}

/// What `services_in` says of a list of rows, it says of every longer list
/// once a row has failed.
pub proof fn lemma_failed_row_fails_list(rows: Seq<PageView>, upto: int)
    requires
        0 <= upto <= rows.len(),
        services_in(rows.take(upto)) is Err,
    ensures
        services_in(rows) == services_in(rows.take(upto)),
    decreases rows.len() - upto,
{
    if upto == rows.len() {
        assert(rows.take(upto) =~= rows);
    } else {
        assert(rows.take(upto + 1).drop_last() =~= rows.take(upto));
        lemma_failed_row_fails_list(rows, upto + 1);
    }
}

/// Reads one row of the service table.
pub fn service_of_row(row: &PageNode) -> (service: Result<Service, Error>)
    ensures
        match service {
            Ok(s) => row_service(row@) == Ok::<ServiceView, Error>(s@),
            Err(e) => row_service(row@) == Err::<ServiceView, Error>(e),
        },
{
    let th = child_element(row, "th")?;
    let label = child_element(th, "label")?;
    let input = child_element(label, "input")?;
    let link = child_element(label, "a")?;
    let value = match parse_i32(attribute_value(input, "value").as_str()) {
        Some(value) => value,
        None => {
            return Err(Error::Format);
        },
    };
    let url = prepend_https(attribute_value(link, "href").as_str());
    let name = node_text(link)?;
    Ok(Service { value, name, url })
}

/// Reads the services off the document tree of the front page: one for each
/// row of the service table, in row order. Any row that cannot be read fails
/// the whole call, so that no partial list is ever returned.
pub fn services_of(document: &PageNode) -> (services: Result<Vec<Service>, Error>)
    ensures
        match services {
            Ok(list) => service_list(document@) == Ok::<Seq<ServiceView>, Error>(
                service_views(list@),
            ),
            Err(e) => service_list(document@) == Err::<Seq<ServiceView>, Error>(e),
        },
{
    let path: [&str; 5] = ["html", "body", "form", "table", "tbody"];
    let steps = path.as_slice();
    proof {
        assert(steps.deep_view() =~= service_path());
    }
    let tbody = descend_path(document, steps)?;
    let unconstrained: [(&str, &str); 0] = [];
    let none = unconstrained.as_slice();
    proof {
        assert(none.deep_view() =~= Seq::empty());
    }
    let rows = node_children(tbody, "tr", none);
    let ghost all = views_of(rows@);
    let mut services: Vec<Service> = Vec::new();
    let mut i: usize = 0;
    proof {
        assert(all.take(0) =~= Seq::empty());
        assert(service_views(services@) =~= Seq::empty());
    }
    while i < rows.len()
        invariant
            i <= rows@.len(),
            all == views_of(rows@),
            service_list(document@) == services_in(all),
            services_in(all.take(i as int)) == Ok::<Seq<ServiceView>, Error>(
                service_views(services@),
            ),
        decreases rows@.len() - i,
    {
        let ghost before = services@;
        proof {
            assert(all.take(i + 1).drop_last() =~= all.take(i as int));
            assert(all.take(i + 1).last() == rows@[i as int]@);
        }
        match service_of_row(rows[i]) {
            Ok(service) => {
                services.push(service);
                proof {
                    assert(service_views(services@) =~= service_views(before).push(service@));
                }
            },
            Err(e) => {
                proof {
                    lemma_failed_row_fails_list(all, i + 1);
                }
                return Err(e);
            },
        }
        i += 1;
    }
    proof {
        assert(all.take(i as int) =~= all);
    }
    Ok(services)
}

/// Reads the services that the site offers off the text of its front page.
///
/// The page is parsed as HTML and the service table is looked up under
/// `html`, `body`, `form`, `table` and `tbody`.
pub fn available_services(page: &str) -> (services: Result<Vec<Service>, Error>)
    requires
        page.len() <= MAX_PAGE_LEN,
    ensures
        match services {
            Ok(list) => service_list(html_tree(page@)) == Ok::<Seq<ServiceView>, Error>(
                service_views(list@),
            ),
            Err(e) => service_list(html_tree(page@)) == Err::<Seq<ServiceView>, Error>(e),
        },
{
    let document = parse_page(page);
    services_of(&document)
}

/// Where every row of the service table describes a service, the list holds
/// as many services as there are rows, and each is the one that the row in
/// its place describes.
pub proof fn lemma_well_formed_rows(rows: Seq<PageView>)
    requires
        forall|i: int| 0 <= i < rows.len() ==> (#[trigger] row_service(rows[i])) is Ok,
    ensures
        services_in(rows) matches Ok(services) && services.len() == rows.len() && forall|i: int|
            0 <= i < rows.len() ==> row_service(rows[i]) == Ok::<ServiceView, Error>(
                #[trigger] services[i],
            ),
    decreases rows.len(),
{
    if rows.len() > 0 {
        let shorter = rows.drop_last();
        assert forall|i: int| 0 <= i < shorter.len() implies (#[trigger] row_service(
            shorter[i],
        )) is Ok by {
            assert(shorter[i] == rows[i]);
        }
        lemma_well_formed_rows(shorter);
        assert(row_service(rows[rows.len() - 1]) is Ok);
    }
}

/// On a front page whose service table is in place and whose rows all
/// describe a service, the list holds exactly one service per row, in row
/// order: the one that the row describes.
pub proof fn lemma_services_follow_rows(document: PageView)
    requires
        service_rows(document) is Some,
        forall|i: int|
            0 <= i < service_rows(document).unwrap().len() ==> (#[trigger] row_service(
                service_rows(document).unwrap()[i],
            )) is Ok,
    ensures
        service_list(document) is Ok,
        service_list(document).unwrap().len() == service_rows(document).unwrap().len(),
        forall|i: int|
            0 <= i < service_rows(document).unwrap().len() ==> row_service(
                service_rows(document).unwrap()[i],
            ) == Ok::<ServiceView, Error>(#[trigger] service_list(document).unwrap()[i]),
{
    lemma_well_formed_rows(service_rows(document).unwrap());
}

/// The service that a row describes has the number written in the `value`
/// of the row's input as its identifier, the text of the row's link as its
/// name, and the absolute form of the link's `href` as its address.
pub proof fn lemma_service_matches_row(row: PageView)
    requires
        row_service(row) is Ok,
    ensures
        child(row, "th"@) matches Some(th) && child(th, "label"@) matches Some(label) && child(
            label,
            "input"@,
        ) matches Some(input) && child(label, "a"@) matches Some(link) && {
            let service = row_service(row).unwrap();
            &&& parsed_i32(attribute_of(input, "value"@)) matches Some(value) && service.value
                == value
            &&& text_of(link) == Some(service.name)
            &&& service.url == normalized(attribute_of(link, "href"@))
        },
{
}

} // verus!
