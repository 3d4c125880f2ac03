//! Request parameters, paper metadata and configuration.
use vstd::prelude::*;

verus! {

/// Search parameters.
#[derive(Debug, Clone)]
pub struct SearchArgs {
    pub query: String,
    pub searchtype: String,
    pub limit: Option<usize>,
    pub start: Option<usize>,
}

/// The search type used when a request names none: `"all"`.
pub fn default_search_type() -> (s: String)
    ensures
        s@ == "all"@,
{
    String::from_str("all")
}

/// Download parameters.
#[derive(Debug, Clone)]
pub struct DownloadArgs {
    pub paper_id: String,
}

/// Search-and-download parameters.
#[derive(Debug, Clone)]
pub struct SearchAndDownloadArgs {
    pub query: String,
    pub searchtype: String,
    pub limit: Option<usize>,
    pub start: Option<usize>,
    pub output_dir: String,
}

/// The output directory used when a request names none: `"./papers"`.
pub fn default_output_dir() -> (s: String)
    ensures
        s@ == "./papers"@,
{
    String::from_str("./papers")
}

/// Paper metadata.
#[derive(Debug, Clone, PartialEq, Eq)]
pub struct Paper {
    pub id: String,
    pub title: String,
    pub authors: Vec<String>,
    pub abstract_text: String,
    pub categories: Vec<String>,
    pub pdf_url: String,
    pub file_path: Option<String>,
}

/// The content of a [`Paper`], field by field.
pub struct PaperView {
    pub id: Seq<char>,
    pub title: Seq<char>,
    pub authors: Seq<Seq<char>>,
    pub abstract_text: Seq<char>,
    pub categories: Seq<Seq<char>>,
    pub pdf_url: Seq<char>,
    pub file_path: Option<Seq<char>>,
}

impl View for Paper {
    type V = PaperView;

    open spec fn view(&self) -> PaperView {
        PaperView {
            id: self.id@,
            title: self.title@,
            authors: self.authors.deep_view(),
            abstract_text: self.abstract_text@,
            categories: self.categories.deep_view(),
            pdf_url: self.pdf_url@,
            file_path: self.file_path.deep_view(),
        }
    }
}

/// The user agent of a default configuration.
pub open spec fn default_user_agent() -> Seq<char> {
    "Mozilla/5.0 (Macintosh; Intel Mac OS X 10_15_7) AppleWebKit/537.36 (KHTML, like Gecko) Chrome/120.0.0.0 Safari/537.36"@
}

/// Server configuration.
#[derive(Debug, Clone)]
pub struct Config {
    pub user_agent: String,
}

impl Default for Config {
    fn default() -> (c: Self)
        ensures
            c.user_agent@ == default_user_agent(),
    {
        Config {
            user_agent: String::from_str(
                "Mozilla/5.0 (Macintosh; Intel Mac OS X 10_15_7) AppleWebKit/537.36 (KHTML, like Gecko) Chrome/120.0.0.0 Safari/537.36",
            ),
        }
    }
}

} // verus!
