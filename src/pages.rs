//! Page records: title, markdown source, rendered HTML and timestamp.
use pulldown_cmark::{html, Options, Parser};
use vstd::prelude::*;

use crate::token::unix_now;

verus! {

/// The HTML that CommonMark rendering, with every extension on, makes of `markdown`.
pub uninterp spec fn html_of(markdown: Seq<char>) -> Seq<char>;

/// Relies on pulldown_cmark's `Parser::new_ext` with `Options::all()` and
/// `html::push_html`: the HTML depends on the markdown alone.
#[verifier::external_body]
fn render_markdown(markdown: &str) -> (r: String)
    ensures
        r@ == html_of(markdown@),
{
    let mut buf = String::new();
    html::push_html(&mut buf, Parser::new_ext(markdown, Options::all()));
    buf
}

/// Abstract contents of a page record.
pub struct PageView {
    pub title: Seq<char>,
    pub markdown: Seq<char>,
    pub html: Seq<char>,
    pub date: i64,
}

/// A stored page.
#[derive(Debug)]
pub struct PageData {
    pub title: String,
    pub markdown: String,
    pub html: String,
    pub date: i64,
}

impl View for PageData {
    type V = PageView;

    open spec fn view(&self) -> PageView {
        PageView { title: self.title@, markdown: self.markdown@, html: self.html@, date: self.date }
    }
}

/// The page with `title` and `markdown`, rendered, dated `date`.
pub open spec fn page_of(title: Seq<char>, markdown: Seq<char>, date: i64) -> PageView {
    PageView { title, markdown, html: html_of(markdown), date }
}

impl PageData {
    /// A page with `title` and `markdown`, rendered and dated now.
    pub fn new(title: &str, markdown: &str) -> (r: Self)
        ensures
            r@ == page_of(title@, markdown@, r.date),
    {
        Self::new_at(title, markdown, unix_now())
    }

    /// A page with `title` and `markdown`, rendered and dated `date`.
    pub fn new_at(title: &str, markdown: &str, date: i64) -> (r: Self)
        ensures
            r@ == page_of(title@, markdown@, date),
    {
        PageData {
            title: title.to_owned(),
            markdown: markdown.to_owned(),
            html: render_markdown(markdown),
            date,
        }
    }

    /// A copy of this page.
    pub fn duplicate(&self) -> (r: Self)
        ensures
            r@ == self@,
    {
        PageData { title: self.title.clone(), markdown: self.markdown.clone(), html: self.html.clone(), date: self.date }
    }
}

} // verus!
