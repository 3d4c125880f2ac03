//! Reading search results out of an arXiv search page, and the outcome of a
//! PDF download.
use vstd::prelude::*;
use crate::error::ArxivError;
use crate::models::{Paper, PaperView};
use crate::text::{after_last, last_piece, lemma_after_last_bounds, trim, trimmed};
use crate::url::{pdf_url, spec_pdf_url};

verus! {

/// An element found inside a result block: its text and the value of the
/// attribute that was asked for, if it has one.
#[derive(Debug, Clone)]
pub struct FoundElement {
    pub text: String,
    pub attr: Option<String>,
}

impl DeepView for FoundElement {
    type V = (Seq<char>, Option<Seq<char>>);

    open spec fn deep_view(&self) -> (Seq<char>, Option<Seq<char>>) {
        (self.text@, self.attr.deep_view())
    }
}

/// What an element found inside a block holds: its text and attribute.
pub type FoundView = (Seq<char>, Option<Seq<char>>);

/// One result block: for each item selector, the elements it matched.
pub type BlockView = Seq<Seq<FoundView>>;

/// What `select_blocks` returns for a document, a block selector, the item
/// selectors and an attribute name.
pub uninterp spec fn selected_blocks(
    html: Seq<char>,
    block_css: Seq<char>,
    item_css: Seq<Seq<char>>,
    attr: Seq<char>,
) -> Option<Seq<BlockView>>;

/// Parses `html` with `scraper::Html::parse_document`, and the selectors with
/// `scraper::Selector::parse`; `None` when a selector does not parse. Else,
/// for each element that `Html::select` finds for `block_css`, in document
/// order, and for each selector of `item_css`, the elements that
/// `ElementRef::select` finds under it, each with its text
/// (`ElementRef::text`, joined) and its attribute `attr`
/// (`ElementRef::attr`). The contract claims only that the result is a
/// function of the arguments, named `selected_blocks`.
#[verifier::external_body]
fn select_blocks(html: &str, block_css: &str, item_css: &Vec<String>, attr: &str) -> (r: Option<
    Vec<Vec<Vec<FoundElement>>>,
>)
    ensures
        r.deep_view() == selected_blocks(html@, block_css@, item_css.deep_view(), attr@),
{
    let doc = scraper::Html::parse_document(html);
    let block = scraper::Selector::parse(block_css).ok()?;
    let items: Vec<scraper::Selector> = item_css.iter().map(|c| scraper::Selector::parse(c).ok()).collect::<Option<Vec<_>>>()?;
    Some(doc.select(&block).map(|b| items.iter().map(|s| b.select(s).map(|e| FoundElement {
        text: e.text().collect(),
        attr: e.attr(attr).map(|a| a.to_string()),
    }).collect()).collect()).collect())
}

/// The selector of a result block on the search page.
pub open spec fn result_block_css() -> Seq<char> {
    "li.arxiv-result"@
}

/// The selectors of the parts of a result block, in this order: the link
/// to the paper, the title, the authors, the abstract, the categories.
pub open spec fn result_item_css() -> Seq<Seq<char>> {
    seq![".list-title a"@, "p.title.is-5"@, "p.authors a"@, "span.abstract-short"@, "span.tag"@]
}

/// The elements of part `k` of a block; none when the block has no such part.
pub open spec fn part(block: BlockView, k: int) -> Seq<FoundView> {
    if 0 <= k < block.len() {
        block[k]
    } else {
        Seq::empty()
    }
}

/// The text of the first element, or the empty text when there is none.
pub open spec fn first_text(found: Seq<FoundView>) -> Seq<char> {
    if found.len() > 0 {
        found[0].0
    } else {
        Seq::empty()
    }
}

/// The texts of the elements, in order.
pub open spec fn texts(found: Seq<FoundView>) -> Seq<Seq<char>> {
    found.map_values(|f: FoundView| f.0)
}

/// The paper id of a block: the last `/`-separated piece of the link of its
/// first paper link, or the empty text when there is no such link.
pub open spec fn block_id(block: BlockView) -> Seq<char> {
    let links = part(block, 0);
    if links.len() > 0 {
        match links[0].1 {
            Some(href) => after_last(href, '/'),
            None => Seq::empty(),
        }
    } else {
        Seq::empty()
    }
}

/// The paper that a block describes.
pub open spec fn block_paper(block: BlockView) -> PaperView {
    PaperView {
        id: block_id(block),
        title: trimmed(first_text(part(block, 1))),
        authors: texts(part(block, 2)),
        abstract_text: trimmed(first_text(part(block, 3))),
        categories: texts(part(block, 4)),
        pdf_url: spec_pdf_url(block_id(block)),
        file_path: None,
    }
}

/// The papers of the blocks, in order, leaving out the blocks without an id.
pub open spec fn block_papers(blocks: Seq<BlockView>) -> Seq<PaperView>
    decreases blocks.len(),
{
    if blocks.len() == 0 {
        Seq::empty()
    } else {
        let earlier = block_papers(blocks.drop_last());
        if block_id(blocks.last()).len() == 0 {
            earlier
        } else {
            earlier.push(block_paper(blocks.last()))
        }
    }
}

/// How many result blocks are read at most: `limit`, or 10 when it is
/// absent (the default number of results that the search tools document).
pub open spec fn effective_limit(limit: Option<usize>) -> nat {
    match limit {
        Some(n) => n as nat,
        None => 10,
    }
}

/// The papers of the first `limit` blocks (10 when absent).
pub open spec fn spec_papers(blocks: Seq<BlockView>, limit: Option<usize>) -> Seq<PaperView> {
    let n = if blocks.len() < effective_limit(limit) {
        blocks.len()
    } else {
        effective_limit(limit)
    };
    block_papers(blocks.take(n as int))
}

/// The views of a sequence of papers.
pub open spec fn papers_view(papers: Seq<Paper>) -> Seq<PaperView> {
    papers.map_values(|p: Paper| p@)
}

/// The texts of the elements, in order.
fn texts_of(found: &Vec<FoundElement>) -> (r: Vec<String>)
    ensures
        r.deep_view() == texts(found.deep_view()),
{
    let mut r: Vec<String> = Vec::new();
    let mut i: usize = 0;
    while i < found.len()
        invariant
            i <= found@.len(),
            r.deep_view() =~= texts(found.deep_view()).take(i as int),
        decreases found@.len() - i,
    {
        let t = found[i].text.clone();
        assert(found.deep_view()[i as int] == found@[i as int].deep_view());
        assert(texts(found.deep_view())[i as int] == t@);
        let ghost before = r.deep_view();
        r.push(t);
        assert(r.deep_view() =~= before.push(t@));
        i = i + 1;
    }
    r
}

/// The text of the first element, trimmed; the empty text when there is none.
fn first_text_trimmed(found: &Vec<FoundElement>) -> (r: String)
    ensures
        r@ == trimmed(first_text(found.deep_view())),
{
    if found.len() > 0 {
        trim(found[0].text.as_str())
    } else {
        assert(trimmed(Seq::<char>::empty()) =~= Seq::<char>::empty());
        String::new()
    }
}

/// The paper that a result block describes, or `None` when it has no id.
pub fn paper_from_block(block: &Vec<Vec<FoundElement>>) -> (r: Option<Paper>)
    ensures
        match r {
            Some(p) => block_id(block.deep_view()).len() > 0 && p@ == block_paper(
                block.deep_view(),
            ),
            None => block_id(block.deep_view()).len() == 0,
        },
{
    let ghost b = block.deep_view();
    let empty: Vec<FoundElement> = Vec::new();
    let links = if block.len() > 0 { &block[0] } else { &empty };
    assert(links.deep_view() == part(b, 0));
    let id = if links.len() > 0 {
        match &links[0].attr {
            Some(href) => last_piece(href.as_str(), '/'),
            None => String::new(),
        }
    } else {
        String::new()
    };
    if id.as_str().is_empty() {
        return None;
    }
    let titles = if block.len() > 1 { &block[1] } else { &empty };
    let authors = if block.len() > 2 { &block[2] } else { &empty };
    let abstracts = if block.len() > 3 { &block[3] } else { &empty };
    let tags = if block.len() > 4 { &block[4] } else { &empty };
    assert(titles.deep_view() == part(b, 1));
    assert(authors.deep_view() == part(b, 2));
    assert(abstracts.deep_view() == part(b, 3));
    assert(tags.deep_view() == part(b, 4));
    let url = pdf_url(id.as_str());
    let p = Paper {
        id,
        title: first_text_trimmed(titles),
        authors: texts_of(authors),
        abstract_text: first_text_trimmed(abstracts),
        categories: texts_of(tags),
        pdf_url: url,
        file_path: None,
    };
    Some(p)
}

/// The papers that the first `limit` result blocks describe (10 blocks when
/// `limit` is absent), in order, leaving out blocks without a paper id.
pub fn papers_from_blocks(blocks: &Vec<Vec<Vec<FoundElement>>>, limit: Option<usize>) -> (r: Vec<
    Paper,
>)
    ensures
        papers_view(r@) == spec_papers(blocks.deep_view(), limit),
{
    let ghost bs = blocks.deep_view();
    let cap: usize = match limit {
        Some(n) => n,
        None => 10,
    };
    let n = if blocks.len() < cap {
        blocks.len()
    } else {
        cap
    };
    let mut r: Vec<Paper> = Vec::new();
    let mut i: usize = 0;
    assert(bs.take(0) =~= Seq::<BlockView>::empty());
    while i < n
        invariant
            i <= n <= blocks@.len(),
            bs == blocks.deep_view(),
            papers_view(r@) =~= block_papers(bs.take(i as int)),
        decreases n - i,
    {
        assert(bs.take((i + 1) as int).drop_last() =~= bs.take(i as int));
        assert(bs.take((i + 1) as int).last() == blocks@[i as int].deep_view());
        match paper_from_block(&blocks[i]) {
            Some(p) => {
                r.push(p);
            },
            None => {},
        }
        i = i + 1;
    }
    r
}

/// The papers on an arXiv search results page: those of its first `limit`
/// result blocks (10 when absent). `Err(Parse)` only when a selector of the
/// page layout does not parse.
pub fn parse_papers(html: &str, limit: Option<usize>) -> (r: Result<Vec<Paper>, ArxivError>)
    ensures
        match selected_blocks(html@, result_block_css(), result_item_css(), "href"@) {
            Some(blocks) => r matches Ok(papers) && papers_view(papers@) == spec_papers(
                blocks,
                limit,
            ),
            None => r matches Err(ArxivError::Parse(_)),
        },
{
    let items: Vec<String> = vec![
        String::from_str(".list-title a"),
        String::from_str("p.title.is-5"),
        String::from_str("p.authors a"),
        String::from_str("span.abstract-short"),
        String::from_str("span.tag"),
    ];
    assert(items.deep_view() =~= result_item_css());
    match select_blocks(html, "li.arxiv-result", &items, "href") {
        Some(blocks) => Ok(papers_from_blocks(&blocks, limit)),
        None => Err(ArxivError::Parse(String::from_str("invalid result selector"))),
    }
}

/// The outcome of a PDF download by its HTTP status: the paper is missing
/// exactly when the status is 404.
pub fn download_status(status: u16, paper_id: &str) -> (r: Result<(), ArxivError>)
    ensures
        status == 404 ==> (r matches Err(ArxivError::PaperNotFound(id)) && id@ == paper_id@),
        status != 404 ==> r is Ok,
{
    if status == 404 {
        Err(ArxivError::PaperNotFound(String::from_str(paper_id)))
    } else {
        Ok(())
    }
}

/// The last piece of a text split at `sep` holds no `sep`.
pub proof fn lemma_after_last_has_no_sep(s: Seq<char>, sep: char)
    ensures
        !after_last(s, sep).contains(sep),
    decreases s.len(),
{
    if s.len() > 0 && s.last() != sep {
        let pre = after_last(s.drop_last(), sep);
        lemma_after_last_has_no_sep(s.drop_last(), sep);
        assert forall|i: int| 0 <= i < pre.push(s.last()).len() implies pre.push(s.last())[i]
            != sep by {
            if i < pre.len() {
                assert(pre.push(s.last())[i] == pre[i]);
            }
        }
    }
}

/// A paper of a results page is well formed: a non-empty id without `/`,
/// the PDF URL of that id, and no saved file.
pub open spec fn well_formed_result(p: PaperView) -> bool {
    &&& p.id.len() > 0
    &&& !p.id.contains('/')
    &&& p.pdf_url == spec_pdf_url(p.id)
    &&& p.file_path is None
}

/// The papers of the blocks are no more than the blocks, and well formed.
pub proof fn lemma_block_papers_well_formed(blocks: Seq<BlockView>)
    ensures
        block_papers(blocks).len() <= blocks.len(),
        forall|i: int|
            0 <= i < block_papers(blocks).len() ==> well_formed_result(
                #[trigger] block_papers(blocks)[i],
            ),
    decreases blocks.len(),
{
    if blocks.len() > 0 {
        lemma_block_papers_well_formed(blocks.drop_last());
        lemma_after_last_has_no_sep(
            match part(blocks.last(), 0)[0].1 {
                Some(h) => h,
                None => Seq::empty(),
            },
            '/',
        );
        let earlier = block_papers(blocks.drop_last());
        if block_id(blocks.last()).len() > 0 {
            assert forall|i: int| 0 <= i < earlier.len() + 1 implies well_formed_result(
                #[trigger] earlier.push(block_paper(blocks.last()))[i],
            ) by {
                if i < earlier.len() {
                    assert(earlier.push(block_paper(blocks.last()))[i] == earlier[i]);
                }
            }
        }
    }
}

/// A results page never yields more papers than the limit (10 when absent)
/// or than it has result blocks, and every paper it yields is well formed.
pub proof fn lemma_search_results_well_formed(blocks: Seq<BlockView>, limit: Option<usize>)
    ensures
        spec_papers(blocks, limit).len() <= effective_limit(limit),
        spec_papers(blocks, limit).len() <= blocks.len(),
        forall|i: int|
            0 <= i < spec_papers(blocks, limit).len() ==> well_formed_result(
                #[trigger] spec_papers(blocks, limit)[i],
            ),
{
    let n = if blocks.len() < effective_limit(limit) {
        blocks.len()
    } else {
        effective_limit(limit)
    };
    lemma_block_papers_well_formed(blocks.take(n as int));
}

/// A paper read from a block lists one author per author link of the
/// block and one category per tag, in the block's order, each with its
/// element's text; its title and abstract are the trimmed texts of the
/// first title and abstract elements (empty when there are none); it has no
/// file.
pub proof fn lemma_block_paper_fields(b: BlockView)
    ensures
        block_paper(b).authors.len() == part(b, 2).len(),
        forall|i: int|
            0 <= i < part(b, 2).len() ==> block_paper(b).authors[i] == (#[trigger] part(b, 2)[i]).0,
        block_paper(b).categories.len() == part(b, 4).len(),
        forall|i: int|
            0 <= i < part(b, 4).len() ==> block_paper(b).categories[i] == (#[trigger] part(
                b,
                4,
            )[i]).0,
        part(b, 1).len() > 0 ==> block_paper(b).title == trimmed(part(b, 1)[0].0),
        part(b, 1).len() == 0 ==> block_paper(b).title.len() == 0,
        part(b, 3).len() > 0 ==> block_paper(b).abstract_text == trimmed(part(b, 3)[0].0),
        part(b, 3).len() == 0 ==> block_paper(b).abstract_text.len() == 0,
        block_paper(b).file_path is None,
{
}

/// The id of a block is the end of the href of its first paper link after
/// the link's last `/`: a suffix `h[k..]` of the href `h` that holds no `/`,
/// with a `/` just before it unless it is all of `h`. A block whose first
/// link has no href, or that has no link, has no id.
pub proof fn lemma_block_id_from_link(b: BlockView)
    ensures
        part(b, 0).len() > 0 && part(b, 0)[0].1 is Some ==> ({
            let h = part(b, 0)[0].1->0;
            exists|k: int|
                0 <= k <= h.len() && block_id(b) == h.subrange(k, h.len() as int) && (k > 0
                    ==> h[k - 1] == '/') && forall|m: int| k <= m < h.len() ==> #[trigger] h[m]
                    != '/'
        }),
        !(part(b, 0).len() > 0 && part(b, 0)[0].1 is Some) ==> block_id(b).len() == 0,
        block_paper(b).id == block_id(b),
        block_paper(b).pdf_url == spec_pdf_url(block_id(b)),
{
    if part(b, 0).len() > 0 && part(b, 0)[0].1 is Some {
        let h = part(b, 0)[0].1->0;
        let k = lemma_after_last_bounds(h, '/');
        assert(block_id(b) == h.subrange(k, h.len() as int));
    }
}

/// The papers of the blocks are exactly the papers of the blocks that have
/// an id, in the blocks' order: none is dropped, duplicated or reordered.
pub proof fn lemma_block_papers_are_filtered(blocks: Seq<BlockView>)
    ensures
        block_papers(blocks) == blocks.filter(|b: BlockView| block_id(b).len() > 0).map_values(
            |b: BlockView| block_paper(b),
        ),
    decreases blocks.len(),
{
    reveal_with_fuel(Seq::<BlockView>::filter, 1);
    let pred = |b: BlockView| block_id(b).len() > 0;
    if blocks.len() == 0 {
        assert(blocks.filter(pred) =~= Seq::<BlockView>::empty());
        assert(blocks.filter(pred).map_values(|b: BlockView| block_paper(b)) =~= Seq::<
            PaperView,
        >::empty());
    } else {
        lemma_block_papers_are_filtered(blocks.drop_last());
        let sub = blocks.drop_last().filter(pred);
        if pred(blocks.last()) {
            assert(blocks.filter(pred) == sub.push(blocks.last()));
            assert(sub.push(blocks.last()).map_values(|b: BlockView| block_paper(b)) =~= sub.map_values(
                |b: BlockView| block_paper(b),
            ).push(block_paper(blocks.last())));
        } else {
            assert(blocks.filter(pred) == sub);
        }
    }
}

} // verus!
