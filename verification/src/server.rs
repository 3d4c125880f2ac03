//! The tool requests of the server, the paths it writes to, and the
//! manifest of downloaded papers.
use vstd::prelude::*;
use vstd::seq_lib::lemma_concat_associative;
use crate::models::{Paper, PaperView};
use crate::arxiv::papers_view;
use crate::text::{
    chars_of, contains_seq, contains_chars, join, joined, lemma_contains_extend,
    lemma_contains_piece, lemma_contains_within, lemma_joined_holds_parts, string_of_range,
};

verus! {

/// The search type used when a request names none: `"all"`.
pub fn default_search_type() -> (s: String)
    ensures
        s@ == "all"@,
{
    String::from_str("all")
}

/// The output directory used when a request names none: `"./papers"`.
pub fn default_output_dir() -> (s: String)
    ensures
        s@ == "./papers"@,
{
    String::from_str("./papers")
}

/// Parameters of the `search_papers` tool.
#[derive(Debug, Clone)]
pub struct SearchArgs {
    pub query: String,
    pub searchtype: String,
    pub limit: Option<usize>,
    pub start: Option<usize>,
}

/// Parameters of the `download_paper` tool.
#[derive(Debug, Clone)]
pub struct DownloadArgs {
    pub paper_id: String,
    pub output_dir: Option<String>,
}

/// Parameters of the `search_and_download_papers` tool.
#[derive(Debug, Clone)]
pub struct SearchAndDownloadArgs {
    pub query: String,
    pub searchtype: String,
    pub limit: Option<usize>,
    pub start: Option<usize>,
    pub output_dir: String,
}

/// The directory a download goes to: the one asked for, else `"./papers"`.
pub fn output_dir_or_default(output_dir: Option<String>) -> (dir: String)
    ensures
        dir@ == match output_dir {
            Some(d) => d@,
            None => "./papers"@,
        },
{
    match output_dir {
        Some(d) => d,
        None => String::from_str("./papers"),
    }
}

/// Where the PDF of paper `paper_id` is saved under `output_dir`.
pub open spec fn spec_pdf_file_path(output_dir: Seq<char>, paper_id: Seq<char>) -> Seq<char> {
    output_dir + "/"@ + paper_id + ".pdf"@
}

/// Where the PDF of paper `paper_id` is saved under `output_dir`:
/// `{output_dir}/{paper_id}.pdf`.
pub fn pdf_file_path(output_dir: &str, paper_id: &str) -> (path: String)
    ensures
        path@ == spec_pdf_file_path(output_dir@, paper_id@),
{
    let mut path = String::from_str(output_dir);
    path.append("/");
    path.append(paper_id);
    path.append(".pdf");
    path
}

/// Where the manifest of `output_dir` is kept.
pub open spec fn spec_manifest_path(output_dir: Seq<char>) -> Seq<char> {
    output_dir + "/README.md"@
}

/// Where the manifest of `output_dir` is kept: `{output_dir}/README.md`.
pub fn manifest_path(output_dir: &str) -> (path: String)
    ensures
        path@ == spec_manifest_path(output_dir@),
{
    let mut path = String::from_str(output_dir);
    path.append("/README.md");
    path
}

/// A searched paper after its download: it records `file_path` exactly when
/// the PDF was saved there.
pub fn record_download(paper: Paper, file_path: String, saved: bool) -> (r: Paper)
    ensures
        r@ == (PaperView {
            file_path: if saved {
                Some(file_path@)
            } else {
                paper@.file_path
            },
            ..paper@
        }),
{
    let mut paper = paper;
    if saved {
        paper.file_path = Some(file_path);
    }
    paper
}

/// The first line of a new manifest.
pub open spec fn manifest_header() -> Seq<char> {
    "# ArXiv Papers\n\n"@
}

/// The pieces of `s` between the separators `sep`, in order; a text with
/// `k` separators has `k + 1` pieces.
pub open spec fn split_pieces(s: Seq<char>, sep: char) -> Seq<Seq<char>>
    decreases s.len(),
{
    if s.len() == 0 {
        seq![Seq::empty()]
    } else {
        let earlier = split_pieces(s.drop_last(), sep);
        if s.last() == sep {
            earlier.push(Seq::empty())
        } else {
            earlier.update(earlier.len() - 1, earlier.last().push(s.last()))
        }
    }
}

/// A path piece that names nothing: empty (a doubled or final `/`) or `.`.
pub open spec fn is_skipped_piece(p: Seq<char>) -> bool {
    p.len() == 0 || p == seq!['.']
}

/// The file name that the last of the pieces gives: the last piece that is
/// neither empty nor `.`, unless it is `..`; `None` when there is none.
pub open spec fn last_named_piece(pieces: Seq<Seq<char>>) -> Option<Seq<char>>
    decreases pieces.len(),
{
    if pieces.len() == 0 {
        None
    } else if is_skipped_piece(pieces.last()) {
        last_named_piece(pieces.drop_last())
    } else if pieces.last() == seq!['.', '.'] {
        None
    } else {
        Some(pieces.last())
    }
}

/// The file name of a `/`-separated path, as `std::path::Path::file_name`
/// gives it on Unix: its final component, `None` when that is `..` or the
/// path has no component with a name.
pub open spec fn path_file_name(path: Seq<char>) -> Option<Seq<char>> {
    last_named_piece(split_pieces(path, '/'))
}

/// The name that piece `chars[from..to]` gives after the name `res` of the
/// earlier pieces.
fn next_named_piece(chars: &Vec<char>, from: usize, to: usize, res: Option<(usize, usize)>) -> (r:
    Option<(usize, usize)>)
    requires
        from <= to <= chars@.len(),
        res matches Some((a, b)) ==> a <= b <= chars@.len(),
    ensures
        r matches Some((a, b)) ==> a <= b <= chars@.len(),
        ({
            let p = chars@.subrange(from as int, to as int);
            let before = match res {
                Some((a, b)) => Some(chars@.subrange(a as int, b as int)),
                None => None,
            };
            let after = match r {
                Some((a, b)) => Some(chars@.subrange(a as int, b as int)),
                None => None,
            };
            after == if is_skipped_piece(p) {
                before
            } else if p == seq!['.', '.'] {
                None
            } else {
                Some(p)
            }
        }),
{
    let ghost p = chars@.subrange(from as int, to as int);
    let len = to - from;
    if len == 0 || (len == 1 && chars[from] == '.') {
        if len == 1 {
            assert(p =~= seq!['.']);
        }
        res
    } else if len == 2 && chars[from] == '.' && chars[from + 1] == '.' {
        assert(p =~= seq!['.', '.']);
        None
    } else {
        assert(p.len() == len);
        assert(len >= 1 ==> p[0] == chars@[from as int]);
        assert(len >= 2 ==> p[1] == chars@[from + 1]);
        assert(p != seq!['.']) by {
            if p == seq!['.'] {
                assert(seq!['.'].len() == 1 && seq!['.'][0] == '.');
            }
        }
        assert(p != seq!['.', '.']) by {
            if p == seq!['.', '.'] {
                assert(seq!['.', '.'].len() == 2 && seq!['.', '.'][0] == '.' && seq![
                    '.',
                    '.',
                ][1] == '.');
            }
        }
        Some((from, to))
    }
}

/// The file name of a `/`-separated path: its final component, `None` when
/// that is `..` or the path has no component with a name.
pub fn file_name_of(path: &str) -> (r: Option<String>)
    ensures
        r.deep_view() == path_file_name(path@),
{
    let chars = chars_of(path);
    let n = chars.len();
    let mut start: usize = 0;
    let mut res: Option<(usize, usize)> = None;
    let mut i: usize = 0;
    assert(path@.take(0) =~= Seq::<char>::empty());
    while i < n
        invariant
            i <= n == chars@.len(),
            chars@ == path@,
            start <= i,
            res matches Some((a, b)) ==> a <= b <= n,
            split_pieces(path@.take(i as int), '/').len() > 0,
            split_pieces(path@.take(i as int), '/').last() == path@.subrange(
                start as int,
                i as int,
            ),
            last_named_piece(split_pieces(path@.take(i as int), '/').drop_last()) == match res {
                Some((a, b)) => Some(path@.subrange(a as int, b as int)),
                None => None,
            },
        decreases n - i,
    {
        let ghost old_pieces = split_pieces(path@.take(i as int), '/');
        assert(path@.take((i + 1) as int).drop_last() =~= path@.take(i as int));
        assert(path@.take((i + 1) as int).last() == chars@[i as int]);
        if chars[i] == '/' {
            res = next_named_piece(&chars, start, i, res);
            let ghost new_pieces = split_pieces(path@.take((i + 1) as int), '/');
            assert(new_pieces == old_pieces.push(Seq::empty()));
            assert(new_pieces.drop_last() =~= old_pieces);
            assert(path@.subrange((i + 1) as int, (i + 1) as int) =~= Seq::<char>::empty());
            start = i + 1;
        } else {
            let ghost new_pieces = split_pieces(path@.take((i + 1) as int), '/');
            assert(new_pieces == old_pieces.update(
                old_pieces.len() - 1,
                old_pieces.last().push(chars@[i as int]),
            ));
            assert(new_pieces.drop_last() =~= old_pieces.drop_last());
            assert(path@.subrange(start as int, (i + 1) as int) =~= path@.subrange(
                start as int,
                i as int,
            ).push(chars@[i as int]));
        }
        i = i + 1;
    }
    assert(path@.take(n as int) =~= path@);
    match next_named_piece(&chars, start, n, res) {
        Some((a, b)) => Some(string_of_range(&chars, a, b)),
        None => None,
    }
}

/// The manifest section of a paper, given the file name of its PDF (as
/// `file_name_of` finds it).
#[verifier::opaque]
pub open spec fn spec_manifest_entry(p: PaperView, file_name: Option<Seq<char>>) -> Seq<char> {
    let file_line = match p.file_path {
        Some(fp) => "- **File**: ["@ + (match file_name {
            Some(n) => n,
            None => "unknown"@,
        }) + "]("@ + fp + ")\n"@,
        None => Seq::empty(),
    };
    "## "@ + p.title + "\n\n"@ + "- **ID**: "@ + p.id + "\n"@ + "- **Authors**: "@ + joined(
        p.authors,
        ", "@,
    ) + "\n"@ + "- **Categories**: "@ + joined(p.categories, ", "@) + "\n"@ + file_line
        + "- **Abstract**: "@ + p.abstract_text + "\n\n"@
}

/// The manifest section of `paper`: its title as a heading, then its id,
/// authors, categories, file link (when it has a file; the link text is
/// `file_name`, or `unknown` when that is absent) and abstract.
pub fn manifest_entry(paper: &Paper, file_name: Option<String>) -> (s: String)
    ensures
        s@ == spec_manifest_entry(paper@, file_name.deep_view()),
{
    let mut s = String::from_str("## ");
    s.append(paper.title.as_str());
    s.append("\n\n");
    s.append("- **ID**: ");
    s.append(paper.id.as_str());
    s.append("\n");
    s.append("- **Authors**: ");
    let authors = join(&paper.authors, ", ");
    s.append(authors.as_str());
    s.append("\n");
    s.append("- **Categories**: ");
    let categories = join(&paper.categories, ", ");
    s.append(categories.as_str());
    s.append("\n");
    let ghost head = s@;
    match &paper.file_path {
        Some(fp) => {
            s.append("- **File**: [");
            match &file_name {
                Some(n) => s.append(n.as_str()),
                None => s.append("unknown"),
            }
            s.append("](");
            s.append(fp.as_str());
            s.append(")\n");
        },
        None => {},
    }
    let ghost with_file = s@;
    s.append("- **Abstract**: ");
    s.append(paper.abstract_text.as_str());
    s.append("\n\n");
    proof {
        let fl = match paper@.file_path {
            Some(fp) => "- **File**: ["@ + (match file_name.deep_view() {
                Some(n) => n,
                None => "unknown"@,
            }) + "]("@ + fp + ")\n"@,
            None => Seq::empty(),
        };
        assert(with_file =~= head + fl);
        reveal(spec_manifest_entry);
        assert(s@ =~= spec_manifest_entry(paper@, file_name.deep_view()));
    }
    s
}

/// The manifest section of a paper, with the file name of its file path.
pub open spec fn entry_of(p: PaperView) -> Seq<char> {
    spec_manifest_entry(
        p,
        match p.file_path {
            Some(fp) => path_file_name(fp),
            None => None,
        },
    )
}

/// The manifest after considering one more paper: its section is added
/// unless its title already occurs in the manifest.
pub open spec fn add_paper(content: Seq<char>, p: PaperView) -> Seq<char> {
    if contains_seq(content, p.title) {
        content
    } else {
        content + entry_of(p)
    }
}

/// The manifest after considering the papers in order.
pub open spec fn add_papers(content: Seq<char>, papers: Seq<PaperView>) -> Seq<char>
    decreases papers.len(),
{
    if papers.len() == 0 {
        content
    } else {
        add_paper(add_papers(content, papers.drop_last()), papers.last())
    }
}

/// The updated manifest: the existing one (a bare header when there is
/// none) with a section for each paper whose title it does not hold yet.
pub open spec fn spec_updated_manifest(existing: Option<Seq<char>>, papers: Seq<PaperView>) -> Seq<
    char,
> {
    add_papers(
        match existing {
            Some(c) => c,
            None => manifest_header(),
        },
        papers,
    )
}

/// Adds to `content` a section for each paper, in order, whose title does not
/// occur in it yet.
pub fn add_papers_to_manifest(content: &mut String, papers: &Vec<Paper>)
    ensures
        final(content)@ == add_papers(old(content)@, papers_view(papers@)),
{
    let ghost ps = papers_view(papers@);
    let mut i: usize = 0;
    assert(ps.take(0) =~= Seq::<PaperView>::empty());
    while i < papers.len()
        invariant
            i <= papers@.len(),
            ps == papers_view(papers@),
            content@ == add_papers(old(content)@, ps.take(i as int)),
        decreases papers@.len() - i,
    {
        assert(ps.take((i + 1) as int).drop_last() =~= ps.take(i as int));
        let paper = &papers[i];
        assert(ps.take((i + 1) as int).last() == paper@);
        let hay = chars_of(content.as_str());
        let needle = chars_of(paper.title.as_str());
        if !contains_chars(&hay, &needle) {
            let file_name = match &paper.file_path {
                Some(fp) => file_name_of(fp.as_str()),
                None => None,
            };
            let entry = manifest_entry(paper, file_name);
            content.append(entry.as_str());
        }
        i = i + 1;
    }
    assert(ps.take(papers@.len() as int) =~= ps);
}

/// The manifest after adding `papers` to `existing` (to a new manifest that
/// holds only the header `# ArXiv Papers` when there is none): a section for
/// each paper whose title it does not hold yet, appended in order.
pub fn updated_manifest(existing: Option<String>, papers: &Vec<Paper>) -> (content: String)
    ensures
        content@ == spec_updated_manifest(existing.deep_view(), papers_view(papers@)),
{
    let mut content = match existing {
        Some(c) => c,
        None => String::from_str("# ArXiv Papers\n\n"),
    };
    add_papers_to_manifest(&mut content, papers);
    content
}

/// A paper's section holds its title.
pub proof fn lemma_entry_holds_title(p: PaperView)
    ensures
        contains_seq(entry_of(p), p.title),
{
    let f = match p.file_path {
        Some(fp) => path_file_name(fp),
        None => None,
    };
    let e = entry_of(p);
    lemma_entry_starts_with_title(p, f);
    assert(e =~= e.subrange(0, 3 + p.title.len() as int) + e.subrange(
        3 + p.title.len() as int,
        e.len() as int,
    ));
    lemma_contains_piece("## "@, p.title, e.subrange(3 + p.title.len() as int, e.len() as int));
}

/// The manifest only grows: what it held before stays, unchanged, at its
/// start.
pub proof fn lemma_manifest_keeps_content(content: Seq<char>, papers: Seq<PaperView>)
    ensures
        content.len() <= add_papers(content, papers).len(),
        add_papers(content, papers).subrange(0, content.len() as int) == content,
    decreases papers.len(),
{
    if papers.len() > 0 {
        lemma_manifest_keeps_content(content, papers.drop_last());
        let before = add_papers(content, papers.drop_last());
        let after = add_papers(content, papers);
        if !contains_seq(before, papers.last().title) {
            assert(after.subrange(0, content.len() as int) =~= before.subrange(
                0,
                content.len() as int,
            ));
        }
    }
}

/// After an update the manifest holds the title of every paper added.
pub proof fn lemma_manifest_holds_titles(content: Seq<char>, papers: Seq<PaperView>)
    ensures
        forall|i: int|
            0 <= i < papers.len() ==> contains_seq(add_papers(content, papers), #[trigger] papers[i].title),
    decreases papers.len(),
{
    if papers.len() > 0 {
        let rest = papers.drop_last();
        let last = papers.last();
        lemma_manifest_holds_titles(content, rest);
        let before = add_papers(content, rest);
        assert forall|i: int| 0 <= i < papers.len() implies contains_seq(
            add_papers(content, papers),
            #[trigger] papers[i].title,
        ) by {
            if contains_seq(before, last.title) {
                if i < papers.len() - 1 {
                    assert(papers[i] == rest[i]);
                }
            } else {
                if i < papers.len() - 1 {
                    assert(papers[i] == rest[i]);
                    lemma_contains_extend(before, rest[i].title, entry_of(last));
                } else {
                    lemma_entry_holds_title(last);
                    let e = entry_of(last);
                    let k = choose|k: int| crate::text::occurs_at(e, last.title, k);
                    assert((before + e).subrange(
                        before.len() + k,
                        before.len() + k + last.title.len(),
                    ) =~= e.subrange(k, k + last.title.len()));
                    assert(crate::text::occurs_at(before + e, last.title, before.len() + k));
                }
            }
        }
    }
}

/// Papers whose titles the manifest holds already add nothing to it.
pub proof fn lemma_manifest_known_titles(content: Seq<char>, papers: Seq<PaperView>)
    requires
        forall|i: int| 0 <= i < papers.len() ==> contains_seq(content, #[trigger] papers[i].title),
    ensures
        add_papers(content, papers) == content,
    decreases papers.len(),
{
    if papers.len() > 0 {
        let rest = papers.drop_last();
        assert forall|i: int| 0 <= i < rest.len() implies contains_seq(
            content,
            #[trigger] rest[i].title,
        ) by {
            assert(rest[i] == papers[i]);
        }
        lemma_manifest_known_titles(content, rest);
        assert(contains_seq(content, papers[papers.len() - 1].title));
    }
}

/// Updating the manifest twice with the same papers gives what updating it
/// once gives: no paper is listed twice.
pub proof fn lemma_manifest_update_idempotent(existing: Option<Seq<char>>, papers: Seq<PaperView>)
    ensures
        spec_updated_manifest(Some(spec_updated_manifest(existing, papers)), papers)
            == spec_updated_manifest(existing, papers),
{
    let once = spec_updated_manifest(existing, papers);
    let start = match existing {
        Some(c) => c,
        None => manifest_header(),
    };
    lemma_manifest_holds_titles(start, papers);
    lemma_manifest_known_titles(once, papers);
}

/// A PDF is saved inside the output directory: its path is the directory,
/// `/`, the whole paper id and `.pdf`.
pub proof fn lemma_pdf_file_path_layout(output_dir: Seq<char>, paper_id: Seq<char>)
    ensures
        ({
            let p = spec_pdf_file_path(output_dir, paper_id);
            let d = output_dir.len() as int;
            let n = paper_id.len() as int;
            &&& p.len() == d + n + 5
            &&& p.subrange(0, d) == output_dir
            &&& p[d] == '/'
            &&& p.subrange(d + 1, d + 1 + n) == paper_id
            &&& p.subrange(d + 1 + n, d + n + 5) == ".pdf"@
        }),
{
    reveal_strlit("/");
    reveal_strlit(".pdf");
    let p = spec_pdf_file_path(output_dir, paper_id);
    let d = output_dir.len() as int;
    let n = paper_id.len() as int;
    assert(p.subrange(0, d) =~= output_dir);
    assert(p.subrange(d + 1, d + 1 + n) =~= paper_id);
    assert(p.subrange(d + 1 + n, d + n + 5) =~= ".pdf"@);
}

/// The manifest is kept inside the output directory: its path is the
/// directory, `/` and `README.md`.
pub proof fn lemma_manifest_path_layout(output_dir: Seq<char>)
    ensures
        ({
            let p = spec_manifest_path(output_dir);
            let d = output_dir.len() as int;
            &&& p.len() == d + 10
            &&& p.subrange(0, d) == output_dir
            &&& p[d] == '/'
            &&& p.subrange(d + 1, d + 10) == "README.md"@
        }),
{
    reveal_strlit("/README.md");
    reveal_strlit("README.md");
    let p = spec_manifest_path(output_dir);
    let d = output_dir.len() as int;
    assert(p.subrange(0, d) =~= output_dir);
    assert(p.subrange(d + 1, d + 10) =~= "README.md"@);
}

/// What a piece of a six-piece concatenation holds, the whole holds.
proof fn lemma_within_six(
    x0: Seq<char>,
    x1: Seq<char>,
    x2: Seq<char>,
    x3: Seq<char>,
    x4: Seq<char>,
    x5: Seq<char>,
    k: int,
    needle: Seq<char>,
)
    requires
        0 <= k < 6,
        contains_seq(seq![x0, x1, x2, x3, x4, x5][k], needle),
    ensures
        contains_seq(x0 + x1 + x2 + x3 + x4 + x5, needle),
{
    let whole = x0 + x1 + x2 + x3 + x4 + x5;
    if k == 0 {
        lemma_contains_within(Seq::empty(), x0, x1 + x2 + x3 + x4 + x5, needle);
        assert(Seq::<char>::empty() + x0 + (x1 + x2 + x3 + x4 + x5) =~= whole);
    } else if k == 1 {
        lemma_contains_within(x0, x1, x2 + x3 + x4 + x5, needle);
        assert(x0 + x1 + (x2 + x3 + x4 + x5) =~= whole);
    } else if k == 2 {
        lemma_contains_within(x0 + x1, x2, x3 + x4 + x5, needle);
        assert(x0 + x1 + x2 + (x3 + x4 + x5) =~= whole);
    } else if k == 3 {
        lemma_contains_within(x0 + x1 + x2, x3, x4 + x5, needle);
        assert(x0 + x1 + x2 + x3 + (x4 + x5) =~= whole);
    } else if k == 4 {
        lemma_contains_within(x0 + x1 + x2 + x3, x4, x5, needle);
    } else {
        lemma_contains_within(x0 + x1 + x2 + x3 + x4, x5, Seq::empty(), needle);
        assert(x0 + x1 + x2 + x3 + x4 + x5 + Seq::<char>::empty() =~= whole);
    }
}

/// A text holds itself.
proof fn lemma_contains_self(x: Seq<char>)
    ensures
        contains_seq(x, x),
{
    lemma_contains_piece(Seq::empty(), x, Seq::empty());
    assert(Seq::<char>::empty() + x + Seq::<char>::empty() =~= x);
}

/// The lines of a paper's manifest section.
pub open spec fn entry_lines(p: PaperView, file_name: Option<Seq<char>>) -> Seq<Seq<char>> {
    seq![
        "## "@ + p.title + "\n\n"@,
        "- **ID**: "@ + p.id + "\n"@,
        "- **Authors**: "@ + joined(p.authors, ", "@) + "\n"@,
        "- **Categories**: "@ + joined(p.categories, ", "@) + "\n"@,
        match p.file_path {
            Some(fp) => "- **File**: ["@ + (match file_name {
                Some(n) => n,
                None => "unknown"@,
            }) + "]("@ + fp + ")\n"@,
            None => Seq::empty(),
        },
        "- **Abstract**: "@ + p.abstract_text + "\n\n"@,
    ]
}

/// A manifest section is its lines in order.
proof fn lemma_entry_is_lines(p: PaperView, file_name: Option<Seq<char>>)
    ensures
        ({
            let l = entry_lines(p, file_name);
            spec_manifest_entry(p, file_name) == l[0] + l[1] + l[2] + l[3] + l[4] + l[5]
        }),
{
    let l = entry_lines(p, file_name);
    reveal(spec_manifest_entry);
    assert(spec_manifest_entry(p, file_name) =~= l[0] + l[1] + l[2] + l[3] + l[4] + l[5]);
}

/// A paper's manifest section holds each of its lines.
proof fn lemma_entry_holds_line(p: PaperView, file_name: Option<Seq<char>>, k: int, needle: Seq<char>)
    requires
        0 <= k < 6,
        contains_seq(entry_lines(p, file_name)[k], needle),
    ensures
        contains_seq(spec_manifest_entry(p, file_name), needle),
{
    let l = entry_lines(p, file_name);
    lemma_entry_is_lines(p, file_name);
    assert(seq![l[0], l[1], l[2], l[3], l[4], l[5]][k] == l[k]);
    lemma_within_six(l[0], l[1], l[2], l[3], l[4], l[5], k, needle);
}

/// A paper's manifest section starts with its title as a heading.
pub proof fn lemma_entry_starts_with_title(p: PaperView, file_name: Option<Seq<char>>)
    ensures
        spec_manifest_entry(p, file_name).len() >= 3 + p.title.len(),
        spec_manifest_entry(p, file_name).subrange(0, 3 + p.title.len() as int) == "## "@ + p.title,
{
    reveal_strlit("## ");
    let l = entry_lines(p, file_name);
    lemma_entry_is_lines(p, file_name);
    let e = spec_manifest_entry(p, file_name);
    assert(e.subrange(0, 3 + p.title.len() as int) =~= "## "@ + p.title);
}

/// A paper's manifest section holds its id line, its authors line and its
/// categories line (each joining them with `, `), and its abstract line.
pub proof fn lemma_entry_lists_lines(p: PaperView, file_name: Option<Seq<char>>)
    ensures
        contains_seq(spec_manifest_entry(p, file_name), "- **ID**: "@ + p.id + "\n"@),
        contains_seq(
            spec_manifest_entry(p, file_name),
            "- **Authors**: "@ + joined(p.authors, ", "@) + "\n"@,
        ),
        contains_seq(
            spec_manifest_entry(p, file_name),
            "- **Categories**: "@ + joined(p.categories, ", "@) + "\n"@,
        ),
        contains_seq(
            spec_manifest_entry(p, file_name),
            "- **Abstract**: "@ + p.abstract_text + "\n\n"@,
        ),
{
    let l = entry_lines(p, file_name);
    lemma_contains_self(l[1]);
    lemma_entry_holds_line(p, file_name, 1, l[1]);
    lemma_contains_self(l[2]);
    lemma_entry_holds_line(p, file_name, 2, l[2]);
    lemma_contains_self(l[3]);
    lemma_entry_holds_line(p, file_name, 3, l[3]);
    lemma_contains_self(l[5]);
    lemma_entry_holds_line(p, file_name, 5, l[5]);
}

/// A paper's manifest section names every one of its authors.
pub proof fn lemma_entry_lists_authors(p: PaperView, file_name: Option<Seq<char>>)
    ensures
        forall|i: int|
            0 <= i < p.authors.len() ==> contains_seq(
                spec_manifest_entry(p, file_name),
                #[trigger] p.authors[i],
            ),
{
    lemma_joined_holds_parts(p.authors, ", "@);
    assert forall|i: int| 0 <= i < p.authors.len() implies contains_seq(
        spec_manifest_entry(p, file_name),
        #[trigger] p.authors[i],
    ) by {
        lemma_contains_within("- **Authors**: "@, joined(p.authors, ", "@), "\n"@, p.authors[i]);
        lemma_entry_holds_line(p, file_name, 2, p.authors[i]);
    }
}

/// A paper's manifest section names every one of its categories.
pub proof fn lemma_entry_lists_categories(p: PaperView, file_name: Option<Seq<char>>)
    ensures
        forall|i: int|
            0 <= i < p.categories.len() ==> contains_seq(
                spec_manifest_entry(p, file_name),
                #[trigger] p.categories[i],
            ),
{
    lemma_joined_holds_parts(p.categories, ", "@);
    assert forall|i: int| 0 <= i < p.categories.len() implies contains_seq(
        spec_manifest_entry(p, file_name),
        #[trigger] p.categories[i],
    ) by {
        lemma_contains_within(
            "- **Categories**: "@,
            joined(p.categories, ", "@),
            "\n"@,
            p.categories[i],
        );
        lemma_entry_holds_line(p, file_name, 3, p.categories[i]);
    }
}

/// A file line holds the link to the path.
proof fn lemma_file_line_links(name: Seq<char>, fp: Seq<char>)
    ensures
        contains_seq("- **File**: ["@ + name + "]("@ + fp + ")\n"@, "]("@ + fp + ")\n"@),
{
    let a = "- **File**: ["@;
    let b = "]("@;
    let c = ")\n"@;
    let link_start = a + name;
    let link_end = b + fp + c;
    lemma_concat_associative(a + name, b + fp, c);
    lemma_concat_associative(a + name, b, fp);
    lemma_contains_piece(link_start, link_end, Seq::empty());
    assert(link_start + link_end + Seq::<char>::empty() =~= link_start + link_end);
}

/// The manifest section of a paper with a file links to the file's path.
pub proof fn lemma_entry_links_file(p: PaperView, file_name: Option<Seq<char>>)
    ensures
        p.file_path matches Some(fp) ==> contains_seq(
            spec_manifest_entry(p, file_name),
            "]("@ + fp + ")\n"@,
        ),
{
    if let Some(fp) = p.file_path {
        let name = match file_name {
            Some(n) => n,
            None => "unknown"@,
        };
        lemma_file_line_links(name, fp);
        assert(entry_lines(p, file_name)[4] == "- **File**: ["@ + name + "]("@ + fp + ")\n"@);
        lemma_entry_holds_line(p, file_name, 4, "]("@ + fp + ")\n"@);
    }
}

/// Splitting leaves no separator in any piece, and a text without the
/// separator is its own only piece.
pub proof fn lemma_split_pieces(s: Seq<char>, sep: char)
    ensures
        split_pieces(s, sep).len() >= 1,
        forall|i: int|
            0 <= i < split_pieces(s, sep).len() ==> !(#[trigger] split_pieces(s, sep)[i]).contains(
                sep,
            ),
        !s.contains(sep) ==> split_pieces(s, sep) == seq![s],
    decreases s.len(),
{
    if s.len() > 0 {
        let rest = s.drop_last();
        lemma_split_pieces(rest, sep);
        let earlier = split_pieces(rest, sep);
        let ps = split_pieces(s, sep);
        if s.last() == sep {
            assert forall|i: int| 0 <= i < ps.len() implies !(#[trigger] ps[i]).contains(sep) by {
                if i < earlier.len() {
                    assert(ps[i] == earlier[i]);
                } else {
                    assert(ps[i] == Seq::<char>::empty());
                }
            }
            assert(s.contains(sep)) by {
                assert(s[s.len() - 1] == sep);
            }
        } else {
            let grown = earlier.last().push(s.last());
            assert forall|i: int| 0 <= i < ps.len() implies !(#[trigger] ps[i]).contains(sep) by {
                if i < earlier.len() - 1 {
                    assert(ps[i] == earlier[i]);
                } else {
                    assert(ps[i] == grown);
                    assert(!earlier[earlier.len() - 1].contains(sep));
                    assert forall|m: int| 0 <= m < grown.len() implies grown[m] != sep by {
                        if m < grown.len() - 1 {
                            assert(grown[m] == earlier.last()[m]);
                        }
                    }
                }
            }
            if !s.contains(sep) {
                assert(!rest.contains(sep)) by {
                    assert forall|m: int| 0 <= m < rest.len() implies rest[m] != sep by {
                        assert(rest[m] == s[m]);
                    }
                }
                assert(earlier == seq![rest]);
                assert(rest.push(s.last()) =~= s);
                assert(ps =~= seq![s]);
            }
        }
    } else {
        assert(s =~= Seq::<char>::empty());
        assert(split_pieces(s, sep) == seq![Seq::<char>::empty()]);
        assert(seq![Seq::<char>::empty()] =~= seq![s]);
    }
}

/// The name that the pieces give is one of them, neither empty nor `.` nor
/// `..`.
proof fn lemma_last_named_piece_is_piece(pieces: Seq<Seq<char>>)
    ensures
        last_named_piece(pieces) matches Some(n) ==> {
            &&& !is_skipped_piece(n)
            &&& n != seq!['.', '.']
            &&& exists|i: int| 0 <= i < pieces.len() && #[trigger] pieces[i] == n
        },
    decreases pieces.len(),
{
    if pieces.len() > 0 {
        lemma_last_named_piece_is_piece(pieces.drop_last());
        if let Some(n) = last_named_piece(pieces) {
            if is_skipped_piece(pieces.last()) {
                let i = choose|i: int| 0 <= i < pieces.drop_last().len() && #[trigger] pieces.drop_last()[i] == n;
                assert(pieces[i] == n);
            } else {
                assert(pieces[pieces.len() - 1] == n);
            }
        }
    }
}

/// The file name of a path is one of its `/`-separated components: it is
/// not empty, `.` or `..`, and holds no `/`. A path without `/` that is not
/// empty, `.` or `..` is its own file name.
pub proof fn lemma_file_name_is_component(path: Seq<char>)
    ensures
        path_file_name(path) matches Some(n) ==> {
            &&& n.len() > 0
            &&& !n.contains('/')
            &&& n != seq!['.']
            &&& n != seq!['.', '.']
        },
        !path.contains('/') && !is_skipped_piece(path) && path != seq!['.', '.'] ==> path_file_name(
            path,
        ) == Some(path),
{
    let ps = split_pieces(path, '/');
    lemma_split_pieces(path, '/');
    lemma_last_named_piece_is_piece(ps);
    if let Some(n) = path_file_name(path) {
        let i = choose|i: int| 0 <= i < ps.len() && #[trigger] ps[i] == n;
        assert(!ps[i].contains('/'));
    }
    if !path.contains('/') && !is_skipped_piece(path) && path != seq!['.', '.'] {
        assert(ps == seq![path]);
        assert(ps.last() == path);
    }
}

} // verus!
