//! Trusted declarations around the `scraper` crate. Parsing a document
//! and matching CSS selectors are deterministic functions of the
//! document text and the selector text alone, so their results are given
//! names (`sel_ok`, `card_hrefs_of`, `card_text_of`) that the extractor's
//! own contract can speak of; the wrappers here are what apply those
//! names to the real calls.

use vstd::prelude::*;
use scraper::Html;
use scraper::Selector;
use crate::text::{opt_str_views, opt_view};

verus! {

#[verifier::external_type_specification]
#[verifier::external_body]
pub struct ExSelector(Selector);

/// Whether `sel` is valid CSS selector text, i.e. whether
/// `scraper::Selector::parse` accepts it.
pub uninterp spec fn sel_ok(sel: Seq<char>) -> bool;

/// For each element of `doc` (parsed as an HTML fragment) matching
/// `card_sel`, in document order: the `href` of its first descendant
/// matching `link_sel`, or nothing when there is no such descendant or
/// it carries no `href`.
pub uninterp spec fn card_hrefs_of(
    doc: Seq<char>,
    card_sel: Seq<char>,
    link_sel: Seq<char>,
) -> Seq<Option<Seq<char>>>;

/// For the `index`-th element of `doc` matching `card_sel`: the first
/// text node under its first descendant matching `text_sel`, or nothing
/// when there is no such card, no such descendant, or no text under it.
pub uninterp spec fn card_text_of(
    doc: Seq<char>,
    card_sel: Seq<char>,
    index: int,
    text_sel: Seq<char>,
) -> Option<Seq<char>>;

/// Relies on scraper::Selector::parse: compiles a CSS selector group,
/// failing exactly on invalid selector text; the error is rendered to
/// text.
#[verifier::external_body]
pub(crate) fn parse_selector(sel: &str) -> (r: Result<Selector, String>)
    ensures
        (r is Ok) == sel_ok(sel@),
{
    match Selector::parse(sel) {
        Ok(s) => Ok(s),
        Err(e) => Err(e.to_string()),
    }
}

/// Relies on scraper::Html::parse_fragment, Html::select,
/// ElementRef::select and ElementRef::attr: parses the document and
/// yields, card by card in document order, the first-anchor href of
/// every `card_sel` match.
#[verifier::external_body]
pub(crate) fn collect_card_hrefs(document: &str, card_sel: &str, link_sel: &str) -> (r: Vec<
    Option<String>,
>)
    requires
        sel_ok(card_sel@),
        sel_ok(link_sel@),
    ensures
        opt_str_views(r@) == card_hrefs_of(document@, card_sel@, link_sel@),
{
    let cards = Selector::parse(card_sel).unwrap();
    let links = Selector::parse(link_sel).unwrap();
    let doc = Html::parse_fragment(document);
    doc.select(&cards).map(
        |el| el.select(&links).next().and_then(|a| a.attr("href")).map(|h| h.to_string()),
    ).collect()
}

/// Relies on scraper::Html::parse_fragment, Html::select,
/// ElementRef::select and ElementRef::text: the first text node under
/// the first `text_sel` match inside the `index`-th `card_sel` match of
/// the document.
#[verifier::external_body]
pub(crate) fn card_text(document: &str, card_sel: &str, index: usize, text_sel: &str) -> (r: Option<
    String,
>)
    requires
        sel_ok(card_sel@),
        sel_ok(text_sel@),
    ensures
        opt_view(r) == card_text_of(document@, card_sel@, index as int, text_sel@),
{
    let cards = Selector::parse(card_sel).unwrap();
    let texts = Selector::parse(text_sel).unwrap();
    let doc = Html::parse_fragment(document);
    let el = doc.select(&cards).nth(index)?;
    el.select(&texts).next()?.text().next().map(|t| t.to_string())
}

} // verus!
