//! Request URLs: the search page and the PDF of a paper.
use vstd::prelude::*;
use vstd::utf8::encode_utf8;
use crate::text::{decimal, push_decimal};

verus! {

/// Bytes that percent-encoding leaves as they are: ASCII letters and
/// digits, `-`, `.`, `_` and `~`.
pub open spec fn is_unreserved(b: u8) -> bool {
    ||| 48 <= b <= 57
    ||| 65 <= b <= 90
    ||| 97 <= b <= 122
    ||| b == 45
    ||| b == 46
    ||| b == 95
    ||| b == 126
}

/// The upper-case hexadecimal digit of `d < 16`.
pub open spec fn hex_digit(d: u8) -> char {
    if d < 10 {
        ((d + 48) as u32) as char
    } else {
        ((d + 55) as u32) as char
    }
}

/// One byte, percent-encoded.
pub open spec fn percent_encode_byte(b: u8) -> Seq<char> {
    if is_unreserved(b) {
        seq![(b as u32) as char]
    } else {
        seq!['%', hex_digit(b / 16), hex_digit(b % 16)]
    }
}

/// Every byte of `bytes` percent-encoded, in order.
pub open spec fn percent_encode(bytes: Seq<u8>) -> Seq<char>
    decreases bytes.len(),
{
    if bytes.len() == 0 {
        Seq::empty()
    } else {
        percent_encode(bytes.drop_last()) + percent_encode_byte(bytes.last())
    }
}

/// The URL encoding of the text `s`: its UTF-8 bytes, percent-encoded.
pub open spec fn url_encoded(s: Seq<char>) -> Seq<char> {
    percent_encode(encode_utf8(s))
}

/// Calls `urlencoding::encode`, which percent-encodes every byte of the
/// UTF-8 form of `s` but ASCII letters, digits and `-`, `_`, `.`, `~`, with
/// upper-case hexadecimal digits. The contract claims exactly that.
#[verifier::external_body]
fn url_encode(s: &str) -> (r: String)
    ensures
        r@ == url_encoded(s@),
{
    urlencoding::encode(s).into_owned()
}

/// The characters that a URL-encoded text is made of: ASCII letters and
/// digits, `-`, `.`, `_`, `~` and `%`.
pub open spec fn is_url_safe(c: char) -> bool {
    let u = c as u32;
    ||| 48 <= u <= 57
    ||| 65 <= u <= 90
    ||| 97 <= u <= 122
    ||| u == 45
    ||| u == 46
    ||| u == 95
    ||| u == 126
    ||| u == 37
}

/// Percent-encoded bytes are made of URL-safe characters only.
pub proof fn lemma_percent_encode_safe(bytes: Seq<u8>)
    ensures
        forall|i: int|
            0 <= i < percent_encode(bytes).len() ==> is_url_safe(#[trigger] percent_encode(bytes)[i]),
    decreases bytes.len(),
{
    if bytes.len() > 0 {
        lemma_percent_encode_safe(bytes.drop_last());
        let b = bytes.last();
        let pre = percent_encode(bytes.drop_last());
        let e = percent_encode_byte(b);
        if is_unreserved(b) {
            assert(((b as u32) as char) as u32 == b as u32);
        } else {
            let hi = b / 16;
            let lo = b % 16;
            assert(hi < 16 && lo < 16);
            assert(is_url_safe(hex_digit(hi)));
            assert(is_url_safe(hex_digit(lo)));
            assert(is_url_safe('%'));
        }
        assert forall|i: int| 0 <= i < (pre + e).len() implies is_url_safe(#[trigger] (pre + e)[i]) by {
            if i < pre.len() {
                assert((pre + e)[i] == pre[i]);
            } else {
                assert((pre + e)[i] == e[i - pre.len()]);
            }
        }
    }
}

/// A URL-encoded text holds only URL-safe characters: no space, `&`, `=`,
/// `?` or `#`, so a query cannot add parameters to the search URL.
pub proof fn lemma_url_encoded_safe(s: Seq<char>)
    ensures
        forall|i: int| 0 <= i < url_encoded(s).len() ==> is_url_safe(#[trigger] url_encoded(s)[i]),
{
    lemma_percent_encode_safe(encode_utf8(s));
}

/// The search page URL for a query, a search type and a first result.
pub open spec fn spec_search_url(query: Seq<char>, searchtype: Seq<char>, start: Option<usize>) -> Seq<char> {
    let base = "https://arxiv.org/search/?query="@ + url_encoded(query) + "&searchtype="@
        + url_encoded(searchtype) + "&source=header"@;
    match start {
        Some(n) => base + "&start="@ + decimal(n as nat),
        None => base,
    }
}

/// The URL of the arXiv search page for `query` and `searchtype`, starting at
/// result `start` when it is given.
pub fn search_url(query: &str, searchtype: &str, start: Option<usize>) -> (url: String)
    ensures
        url@ == spec_search_url(query@, searchtype@, start),
{
    let mut url = String::from_str("https://arxiv.org/search/?query=");
    let q = url_encode(query);
    url.append(q.as_str());
    url.append("&searchtype=");
    let t = url_encode(searchtype);
    url.append(t.as_str());
    url.append("&source=header");
    let ghost base = url@;
    if let Some(n) = start {
        url.append("&start=");
        push_decimal(&mut url, n);
        assert(url@ =~= base + "&start="@ + decimal(n as nat));
    }
    url
}

/// The URL of the PDF of paper `id`.
pub open spec fn spec_pdf_url(id: Seq<char>) -> Seq<char> {
    "https://arxiv.org/pdf/"@ + id + ".pdf"@
}

/// The URL of the PDF of paper `id`.
pub fn pdf_url(id: &str) -> (url: String)
    ensures
        url@ == spec_pdf_url(id@),
{
    let mut url = String::from_str("https://arxiv.org/pdf/");
    url.append(id);
    url.append(".pdf");
    url
}

/// The PDF URL of an id is `https://arxiv.org/pdf/`, then the whole id,
/// then `.pdf`.
pub proof fn lemma_pdf_url_layout(id: Seq<char>)
    ensures
        spec_pdf_url(id).len() == id.len() as int + 26,
        spec_pdf_url(id).subrange(0, 22) == "https://arxiv.org/pdf/"@,
        spec_pdf_url(id).subrange(22, 22 + id.len() as int) == id,
        spec_pdf_url(id).subrange(22 + id.len() as int, 26 + id.len() as int) == ".pdf"@,
{
    reveal_strlit("https://arxiv.org/pdf/");
    reveal_strlit(".pdf");
    let u = spec_pdf_url(id);
    assert(u.subrange(0, 22) =~= "https://arxiv.org/pdf/"@);
    assert(u.subrange(22, 22 + id.len() as int) =~= id);
    assert(u.subrange(22 + id.len() as int, 26 + id.len() as int) =~= ".pdf"@);
}

/// The search URL is, in order: `https://arxiv.org/search/?query=`, the
/// URL-encoded query, `&searchtype=`, the URL-encoded search type and
/// `&source=header`; a start only appends `&start=` and its decimal numeral.
/// Every character of the query's value is URL-safe, whatever the start.
pub proof fn lemma_search_url_layout(q: Seq<char>, t: Seq<char>, start: Option<usize>)
    ensures
        ({
            let base = spec_search_url(q, t, None);
            let e = url_encoded(q);
            let f = url_encoded(t);
            &&& base.len() as int == 58 + e.len() as int + f.len() as int
            &&& base.subrange(0, 32) == "https://arxiv.org/search/?query="@
            &&& base.subrange(32, 32 + e.len() as int) == e
            &&& base.subrange(32 + e.len() as int, 44 + e.len() as int) == "&searchtype="@
            &&& base.subrange(44 + e.len() as int, 44 + e.len() as int + f.len() as int) == f
            &&& base.subrange(44 + e.len() as int + f.len() as int, 58 + e.len() as int + f.len() as int) == "&source=header"@
            &&& spec_search_url(q, t, start) == match start {
                Some(n) => base + "&start="@ + decimal(n as nat),
                None => base,
            }
            &&& forall|i: int|
                32 <= i < 32 + e.len() as int ==> is_url_safe(#[trigger] spec_search_url(q, t, start)[i])
        }),
{
    reveal_strlit("https://arxiv.org/search/?query=");
    reveal_strlit("&searchtype=");
    reveal_strlit("&source=header");
    let base = spec_search_url(q, t, None);
    let e = url_encoded(q);
    let f = url_encoded(t);
    assert(base.subrange(0, 32) =~= "https://arxiv.org/search/?query="@);
    assert(base.subrange(32, 32 + e.len() as int) =~= e);
    assert(base.subrange(32 + e.len() as int, 44 + e.len() as int) =~= "&searchtype="@);
    assert(base.subrange(44 + e.len() as int, 44 + e.len() as int + f.len() as int) =~= f);
    assert(base.subrange(44 + e.len() as int + f.len() as int, 58 + e.len() as int + f.len() as int) =~= "&source=header"@);
    lemma_url_encoded_safe(q);
    let u = spec_search_url(q, t, start);
    assert forall|i: int| 32 <= i < 32 + e.len() as int implies is_url_safe(#[trigger] u[i]) by {
        assert(u[i] == base[i]);
        assert(base[i] == e[i - 32]);
    }
}

} // verus!
