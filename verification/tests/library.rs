use arxiv_mcp::arxiv::{download_status, paper_from_block, papers_from_blocks, parse_papers, FoundElement};
use arxiv_mcp::error::ArxivError;
use arxiv_mcp::models::{self, Config, Paper};
use arxiv_mcp::server::{
    self, file_name_of, manifest_entry, manifest_path, output_dir_or_default, pdf_file_path, record_download,
    updated_manifest,
};
use arxiv_mcp::text::{chars_of, contains_chars, join, last_piece, push_decimal, trim};
use arxiv_mcp::url::{pdf_url, search_url};

const PAGE: &str = r##"<!DOCTYPE html><html><body><ol class="breathe-horizontal">
<li class="arxiv-result">
  <div class="is-marginless"><p class="list-title is-inline-block"><a href="https://arxiv.org/abs/2401.12345">arXiv:2401.12345</a> <span>&nbsp;[<a href="https://arxiv.org/pdf/2401.12345">pdf</a>]</span></p>
  <div class="tags is-inline-block"><span class="tag is-small is-link">cs.LG</span> <span class="tag is-small is-grey">stat.ML</span></div></div>
  <p class="title is-5 mathjax">
      Deep Learning for Everything
  </p>
  <p class="authors"><span class="search-hit">Authors:</span> <a href="/a?x=1">Alice Smith</a>, <a href="/a?x=2">Bob Jones</a></p>
  <p class="abstract mathjax"><span class="search-hit">Abstract</span>: <span class="abstract-short has-text-grey-dark mathjax">  We learn everything.  </span></p>
</li>
<li class="arxiv-result">
  <p class="title is-5 mathjax">No link here</p>
</li>
<li class="arxiv-result">
  <div class="is-marginless"><p class="list-title is-inline-block"><a href="https://arxiv.org/abs/2312.00001v2">arXiv:2312.00001</a></p></div>
  <p class="title is-5 mathjax">Second Paper</p>
</li>
</ol></body></html>"##;

fn s(x: &str) -> String {
    x.to_string()
}

fn paper(id: &str, title: &str) -> Paper {
    Paper {
        id: s(id),
        title: s(title),
        authors: vec![s("Alice"), s("Bob")],
        abstract_text: s("An abstract."),
        categories: vec![s("cs.AI")],
        pdf_url: pdf_url(id),
        file_path: None,
    }
}

#[test]
fn defaults_of_requests() {
    assert_eq!(models::default_search_type(), "all");
    assert_eq!(models::default_output_dir(), "./papers");
    assert_eq!(server::default_search_type(), "all");
    assert_eq!(server::default_output_dir(), "./papers");
    assert_eq!(output_dir_or_default(None), "./papers");
    assert_eq!(output_dir_or_default(Some(s("/tmp/out"))), "/tmp/out");
}

#[test]
fn default_config_user_agent() {
    let c = Config::default();
    assert!(c.user_agent.starts_with("Mozilla/5.0 (Macintosh; Intel Mac OS X 10_15_7)"));
    assert!(c.user_agent.ends_with("Chrome/120.0.0.0 Safari/537.36"));
}

#[test]
fn search_url_plain_query() {
    assert_eq!(
        search_url("machine learning", "all", None),
        "https://arxiv.org/search/?query=machine%20learning&searchtype=all&source=header"
    );
}

#[test]
fn search_url_with_start() {
    assert_eq!(
        search_url("graph", "title", Some(20)),
        "https://arxiv.org/search/?query=graph&searchtype=title&source=header&start=20"
    );
    assert_eq!(
        search_url("x", "author", Some(0)),
        "https://arxiv.org/search/?query=x&searchtype=author&source=header&start=0"
    );
}

#[test]
fn search_url_encodes_reserved_and_unicode() {
    assert_eq!(
        search_url("a&b=c?#/+", "all", None),
        "https://arxiv.org/search/?query=a%26b%3Dc%3F%23%2F%2B&searchtype=all&source=header"
    );
    assert_eq!(
        search_url("café", "all", None),
        "https://arxiv.org/search/?query=caf%C3%A9&searchtype=all&source=header"
    );
    assert_eq!(
        search_url("A-z_0.9~", "all", None),
        "https://arxiv.org/search/?query=A-z_0.9~&searchtype=all&source=header"
    );
}

#[test]
fn pdf_url_of_id() {
    assert_eq!(pdf_url("2401.12345"), "https://arxiv.org/pdf/2401.12345.pdf");
}

#[test]
fn parse_page_reads_papers() {
    let papers = parse_papers(PAGE, None).unwrap();
    assert_eq!(papers.len(), 2);
    let p = &papers[0];
    assert_eq!(p.id, "2401.12345");
    assert_eq!(p.title, "Deep Learning for Everything");
    assert_eq!(p.authors, vec![s("Alice Smith"), s("Bob Jones")]);
    assert_eq!(p.abstract_text, "We learn everything.");
    assert_eq!(p.categories, vec![s("cs.LG"), s("stat.ML")]);
    assert_eq!(p.pdf_url, "https://arxiv.org/pdf/2401.12345.pdf");
    assert_eq!(p.file_path, None);
    let q = &papers[1];
    assert_eq!(q.id, "2312.00001v2");
    assert_eq!(q.title, "Second Paper");
    assert!(q.authors.is_empty());
    assert_eq!(q.abstract_text, "");
    assert!(q.categories.is_empty());
}

#[test]
fn parse_page_limit_counts_blocks_without_id() {
    assert_eq!(parse_papers(PAGE, Some(1)).unwrap().len(), 1);
    // The second block has no link: it uses up the limit and yields nothing.
    assert_eq!(parse_papers(PAGE, Some(2)).unwrap().len(), 1);
    assert_eq!(parse_papers(PAGE, Some(3)).unwrap().len(), 2);
    assert_eq!(parse_papers(PAGE, Some(0)).unwrap().len(), 0);
}

#[test]
fn parse_page_without_results() {
    assert!(parse_papers("<html><body><p>No results</p></body></html>", Some(10)).unwrap().is_empty());
    assert!(parse_papers("", None).unwrap().is_empty());
}

fn found(text: &str, attr: Option<&str>) -> FoundElement {
    FoundElement { text: s(text), attr: attr.map(s) }
}

#[test]
fn block_without_href_has_no_paper() {
    let block = vec![vec![found("arXiv:1", None)], vec![found("T", None)]];
    assert!(paper_from_block(&block).is_none());
    let empty: Vec<Vec<FoundElement>> = Vec::new();
    assert!(paper_from_block(&empty).is_none());
    let trailing = vec![vec![found("x", Some("https://arxiv.org/abs/"))]];
    assert!(paper_from_block(&trailing).is_none());
}

#[test]
fn default_limit_is_ten() {
    let block = vec![vec![found("", Some("/abs/1"))]];
    let blocks: Vec<Vec<Vec<FoundElement>>> = (0..60).map(|_| block.clone()).collect();
    assert_eq!(papers_from_blocks(&blocks, None).len(), 10);
    assert_eq!(papers_from_blocks(&blocks, Some(70)).len(), 60);
    assert_eq!(papers_from_blocks(&blocks, Some(7)).len(), 7);
}

#[test]
fn download_status_outcomes() {
    assert_eq!(download_status(404, "2401.1"), Err(ArxivError::PaperNotFound(s("2401.1"))));
    assert_eq!(download_status(200, "2401.1"), Ok(()));
    assert_eq!(download_status(500, "2401.1"), Ok(()));
}

#[test]
fn error_messages() {
    assert_eq!(ArxivError::PaperNotFound(s("9")).message(), "Paper not found: 9");
    assert_eq!(ArxivError::Parse(s("bad")).message(), "Parse error: bad");
    assert_eq!(ArxivError::Network(s("timeout")).message(), "Network error: timeout");
}

#[test]
fn text_helpers() {
    assert_eq!(trim("  \t a b \n"), "a b");
    assert_eq!(trim("\u{3000}\u{a0}x\u{2009}"), "x");
    assert_eq!(trim("   "), "");
    assert_eq!(last_piece("https://arxiv.org/abs/2401.1", '/'), "2401.1");
    assert_eq!(last_piece("plain", '/'), "plain");
    assert_eq!(last_piece("end/", '/'), "");
    assert!(contains_chars(&chars_of("hello world"), &chars_of("o w")));
    assert!(!contains_chars(&chars_of("hello"), &chars_of("world")));
    assert!(contains_chars(&chars_of("abc"), &chars_of("")));
    assert_eq!(join(&vec![s("a"), s("b"), s("c")], ", "), "a, b, c");
    assert_eq!(join(&vec![], ", "), "");
    let mut out = s("n=");
    push_decimal(&mut out, 1234567);
    assert_eq!(out, "n=1234567");
}

#[test]
fn paths_of_downloads() {
    assert_eq!(pdf_file_path("./papers", "2401.12345"), "./papers/2401.12345.pdf");
    assert_eq!(manifest_path("./papers"), "./papers/README.md");
}

#[test]
fn record_download_sets_path_only_when_saved() {
    let p = paper("1", "T");
    assert_eq!(record_download(p.clone(), s("./papers/1.pdf"), true).file_path, Some(s("./papers/1.pdf")));
    assert_eq!(record_download(p, s("./papers/1.pdf"), false).file_path, None);
}

#[test]
fn manifest_entry_format() {
    let mut p = paper("2401.1", "A Title");
    assert_eq!(
        manifest_entry(&p, None),
        "## A Title\n\n- **ID**: 2401.1\n- **Authors**: Alice, Bob\n- **Categories**: cs.AI\n- **Abstract**: An abstract.\n\n"
    );
    p.file_path = Some(s("./papers/2401.1.pdf"));
    assert_eq!(
        manifest_entry(&p, Some(s("2401.1.pdf"))),
        "## A Title\n\n- **ID**: 2401.1\n- **Authors**: Alice, Bob\n- **Categories**: cs.AI\n- **File**: [2401.1.pdf](./papers/2401.1.pdf)\n- **Abstract**: An abstract.\n\n"
    );
    assert_eq!(
        manifest_entry(&p, None),
        "## A Title\n\n- **ID**: 2401.1\n- **Authors**: Alice, Bob\n- **Categories**: cs.AI\n- **File**: [unknown](./papers/2401.1.pdf)\n- **Abstract**: An abstract.\n\n"
    );
}

#[test]
fn new_manifest_has_header_and_file_names() {
    let mut p = paper("2401.1", "A Title");
    p.file_path = Some(s("./papers/2401.1.pdf"));
    let m = updated_manifest(None, &vec![p]);
    assert_eq!(
        m,
        "# ArXiv Papers\n\n## A Title\n\n- **ID**: 2401.1\n- **Authors**: Alice, Bob\n- **Categories**: cs.AI\n- **File**: [2401.1.pdf](./papers/2401.1.pdf)\n- **Abstract**: An abstract.\n\n"
    );
}

#[test]
fn manifest_skips_known_titles() {
    let existing = s("# ArXiv Papers\n\n## Old Paper\n\nstuff\n");
    let papers = vec![paper("1", "Old Paper"), paper("2", "New Paper"), paper("3", "New Paper")];
    let m = updated_manifest(Some(existing.clone()), &papers);
    assert!(m.starts_with(&existing));
    assert_eq!(m.matches("## New Paper").count(), 1);
    assert_eq!(m.matches("## Old Paper").count(), 1);
    assert!(m.contains("- **ID**: 2\n"));
    assert!(!m.contains("- **ID**: 3\n"));
}

#[test]
fn manifest_update_twice_is_once() {
    let papers = vec![paper("1", "One"), paper("2", "Two")];
    let once = updated_manifest(None, &papers);
    let twice = updated_manifest(Some(once.clone()), &papers);
    assert_eq!(once, twice);
}

#[test]
fn manifest_empty_title_never_added() {
    let m = updated_manifest(None, &vec![paper("1", "")]);
    assert_eq!(m, "# ArXiv Papers\n\n");
}

#[test]
fn file_names_of_paths() {
    let cases = [
        ("./papers/2401.1.pdf", Some("2401.1.pdf")),
        ("tmp/foo.txt", Some("foo.txt")),
        ("/usr/bin/", Some("bin")),
        ("foo.txt/.", Some("foo.txt")),
        ("foo.txt/.//", Some("foo.txt")),
        ("foo.txt/..", None),
        ("/", None),
        ("", None),
        (".", None),
        ("plain.pdf", Some("plain.pdf")),
    ];
    for (path, expected) in cases {
        assert_eq!(file_name_of(path).as_deref(), expected, "{}", path);
        let from_std = std::path::Path::new(path).file_name().and_then(|n| n.to_str());
        assert_eq!(from_std, expected, "{}", path);
    }
}
