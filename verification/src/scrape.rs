//! What the pages of the remote service say: the projects, the files of a
//! project, and the source of a file.

use vstd::prelude::*;
use crate::decode::{decode_entities, decoded};
use crate::failure::Failure;
use crate::text::texts;

verus! {

/// Selects the titles of the projects on the page of the service.
pub const PROJECT_TITLES: &'static str = "div.project-title";

/// Selects the files on the page of a project, and not the item that leads back.
pub const FILE_ITEMS: &'static str = "li:not(.backarrow)";

/// Selects the editor pane on the page of a file.
pub const EDITOR: &'static str = "div#editor";

/// The inner markup of the elements of `document` that `selector` selects,
/// as `scraper` finds them; `None` where `scraper` refuses the selector.
pub uninterp spec fn selected_markup(
    document: Seq<char>,
    selector: Seq<char>,
) -> Option<Seq<Seq<char>>>;

/// The names of the projects that the page of the service shows, where the
/// page can be queried.
pub open spec fn projects_of(page: Seq<char>) -> Option<Seq<Seq<char>>> {
    selected_markup(page, PROJECT_TITLES@)
}

/// The basenames that the page of a project lists, in the order of the
/// page, where the page can be queried.
pub open spec fn listing_of(page: Seq<char>) -> Option<Seq<Seq<char>>> {
    selected_markup(page, FILE_ITEMS@)
}

/// The markup inside the first editor pane of the page of a file, where the
/// page has such a pane.
pub open spec fn pane_of(page: Seq<char>) -> Option<Seq<char>> {
    match selected_markup(page, EDITOR@) {
        Some(panes) => if panes.len() > 0 {
            Some(panes[0])
        } else {
            None
        },
        None => None,
    }
}

/// The source text that the page of a file shows: what the markup inside
/// its first editor pane stands for, where the page has such a pane and the
/// markup stands for a text.
pub open spec fn source_of(page: Seq<char>) -> Option<Seq<char>> {
    match pane_of(page) {
        Some(markup) => decoded(markup),
        None => None,
    }
}

/// What a selection holds, as plain texts.
pub open spec fn selection_texts(selection: Option<Vec<String>>) -> Option<Seq<Seq<char>>> {
    match selection {
        Some(items) => Some(texts(items@)),
        None => None,
    }
}

/// Parses `selector` with `scraper::Selector::parse` and `document` with
/// `scraper::Html::parse_document`, walks `scraper::Html::select` and takes
/// `scraper::ElementRef::inner_html` of each element found. What comes back
/// depends on the two texts alone; it is `None` exactly when the selector is
/// refused.
#[verifier::external_body]
fn select_markup(document: &str, selector: &str) -> (selection: Option<Vec<String>>)
    ensures
        selection_texts(selection) == selected_markup(document@, selector@),
{
    match scraper::Selector::parse(selector) {
        Ok(selector) => {
            let document = scraper::Html::parse_document(document);
            Some(document.select(&selector).map(|element| element.inner_html()).collect())
        },
        Err(_) => None,
    }
}

/// Every item of a selection; `Failure::Shape` where there is no selection.
pub fn all_selected(selection: Option<Vec<String>>) -> (items: Result<Vec<String>, Failure>)
    ensures
        match items {
            Ok(items) => selection == Some(items),
            Err(failure) => failure == Failure::Shape && selection is None,
        },
{
    match selection {
        Some(items) => Ok(items),
        None => Err(Failure::Shape),
    }
}

/// The first item of a selection; `Failure::Shape` where there is no
/// selection or nothing in it.
pub fn first_selected(selection: Option<Vec<String>>) -> (item: Result<String, Failure>)
    ensures
        match item {
            Ok(item) => selection is Some && selection->0@.len() > 0 && item == selection->0@[0],
            Err(failure) => {
                &&& failure == Failure::Shape
                &&& (selection is None || selection->0@.len() == 0)
            },
        },
{
    match selection {
        Some(mut items) => {
            if items.len() > 0 {
                Ok(items.swap_remove(0))
            } else {
                Err(Failure::Shape)
            }
        },
        None => Err(Failure::Shape),
    }
}

/// The names of the projects that the page of the service shows.
pub fn project_names(page: &str) -> (names: Result<Vec<String>, Failure>)
    ensures
        match names {
            Ok(names) => projects_of(page@) == Some(texts(names@)),
            Err(failure) => failure == Failure::Shape && projects_of(page@) is None,
        },
{
    all_selected(select_markup(page, PROJECT_TITLES))
}

/// The basenames of the files that the page of a project lists, in the
/// order of the page.
pub fn file_listing(page: &str) -> (basenames: Result<Vec<String>, Failure>)
    ensures
        match basenames {
            Ok(basenames) => listing_of(page@) == Some(texts(basenames@)),
            Err(failure) => failure == Failure::Shape && listing_of(page@) is None,
        },
{
    all_selected(select_markup(page, FILE_ITEMS))
}

/// The markup inside the first editor pane of the page of a file, still
/// with its character references.
pub fn editor_markup(page: &str) -> (markup: Result<String, Failure>)
    ensures
        match markup {
            Ok(markup) => pane_of(page@) == Some(markup@),
            Err(failure) => failure == Failure::Shape && pane_of(page@) is None,
        },
{
    first_selected(select_markup(page, EDITOR))
}

/// The source text that the page of a file shows.
pub fn editor_source(page: &str) -> (source: Result<String, Failure>)
    ensures
        match source {
            Ok(source) => source_of(page@) == Some(source@),
            Err(failure) => failure == Failure::Shape && source_of(page@) is None,
        },
{
    match editor_markup(page) {
        Ok(markup) => decode_entities(markup.as_str()),
        Err(failure) => Err(failure),
    }
}

} // verus!
