//! Links: extraction of anchor targets from a page, their resolution
//! against the page's URL, the scheme filter, and the normalized form under
//! which a URL is remembered as visited.
use vstd::prelude::*;
use crate::text::{ascii_lower, lower_char, starts_with_ignore_ascii_case, starts_with_ignore_case};

verus! {

/// The URL that `url::Url::join` gives for `href` against `base`, or `None`
/// where `base` does not parse as an absolute URL or `href` cannot be joined.
pub uninterp spec fn url_join(base: Seq<char>, href: Seq<char>) -> Option<Seq<char>>;

/// The `href` values of the anchor elements of an HTML document, in
/// document order, as `scraper` finds them.
pub uninterp spec fn anchor_hrefs(body: Seq<char>) -> Seq<Seq<char>>;

/// Relies on `url::Url::parse` of the base and `url::Url::join` of the href,
/// serialized by `Url`'s `Display`: the result depends on the two strings
/// alone.
#[verifier::external_body]
fn join_url(base: &str, href: &str) -> (r: Option<String>)
    ensures
        r is Some <==> url_join(base@, href@) is Some,
        r matches Some(u) ==> url_join(base@, href@) == Some(u@),
{
    url::Url::parse(base).and_then(|b| b.join(href)).ok().map(|u| u.to_string())
}

/// Relies on `scraper::Html::parse_document` and a `select` with the
/// selector `a[href]`, reading each element's `href` attribute (present on
/// every element that the selector picks): a function of the body alone
/// that never fails (malformed HTML is parsed best-effort).
#[verifier::external_body]
pub(crate) fn extract_links(body: &str) -> (r: Vec<String>)
    ensures
        r@.map_values(|s: String| s@) == anchor_hrefs(body@),
{
    let document = scraper::Html::parse_document(body);
    let selector = scraper::Selector::parse("a[href]").unwrap();
    document.select(&selector).map(|e| e.value().attr("href").unwrap_or_default().to_string()).collect()
}

/// What a link resolves to: the joined URL, or the href itself where the
/// join fails (the failure then surfaces when the URL is fetched).
pub open spec fn resolved(base: Seq<char>, href: Seq<char>) -> Seq<char> {
    match url_join(base, href) {
        Some(u) => u,
        None => href,
    }
}

/// Resolves `href` against the URL of the page it was found on.
pub fn resolve(base: &str, href: &str) -> (r: String)
    ensures
        r@ == resolved(base@, href@),
{
    match join_url(base, href) {
        Some(u) => u,
        None => String::from_str(href),
    }
}

/// A URL is followed unless its scheme is `mailto:`, `javascript:` or
/// `tel:` (compared without regard to ASCII case).
pub open spec fn followable(u: Seq<char>) -> bool {
    !starts_with_ignore_case(u, "mailto:"@) && !starts_with_ignore_case(u, "javascript:"@)
        && !starts_with_ignore_case(u, "tel:"@)
}

pub fn is_followable(u: &str) -> (r: bool)
    ensures
        r == followable(u@),
{
    !starts_with_ignore_ascii_case(u, "mailto:") && !starts_with_ignore_ascii_case(u, "javascript:")
        && !starts_with_ignore_ascii_case(u, "tel:")
}

/// `k` is where the scheme, host and path of `s` end: the first `?` or `#`,
/// else the end of `s`.
pub open spec fn path_end(s: Seq<char>, k: int) -> bool {
    &&& 0 <= k <= s.len()
    &&& k == s.len() || s[k] == '?' || s[k] == '#'
    &&& forall|j: int| 0 <= j < k ==> s[j] != '?' && s[j] != '#'
}

/// The number of `/` among the first `i` characters of `s`.
pub open spec fn slashes_before(s: Seq<char>, i: int) -> nat
    decreases i,
{
    if i <= 0 {
        0
    } else {
        slashes_before(s, i - 1) + if s[i - 1] == '/' {
            1nat
        } else {
            0nat
        }
    }
}

/// The length of the normalized form: query and fragment are dropped, and
/// so is one trailing `/`.
pub open spec fn key_len(s: Seq<char>) -> int {
    let e = choose|k: int| path_end(s, k);
    if e > 0 && s[e - 1] == '/' {
        e - 1
    } else {
        e
    }
}

/// The normalized form of a URL, under which it is remembered as visited:
/// scheme, host and path; the scheme and host (everything before the third
/// `/`) in ASCII lower case, the path as it is; no query, no fragment, no
/// trailing `/`. So `HTTPS://Example.com/a/` and `https://example.com/a#top`
/// are one page.
pub open spec fn normalized(s: Seq<char>) -> Seq<char> {
    Seq::new(
        key_len(s) as nat,
        |i: int|
            if slashes_before(s, i) < 3 {
                ascii_lower(s[i])
            } else {
                s[i]
            },
    )
}

proof fn lemma_path_end_unique(s: Seq<char>, a: int, b: int)
    requires
        path_end(s, a),
        path_end(s, b),
    ensures
        a == b,
{
}

fn ends_path(c: char) -> (r: bool)
    ensures
        r == (c == '?' || c == '#'),
{
    c == '?' || c == '#'
}

/// The normalized form of `url`.
pub fn normalize_url(url: &str) -> (r: Vec<char>)
    ensures
        r@ == normalized(url@),
{
    let n = url.unicode_len();
    let mut e: usize = 0;
    while e < n && !ends_path(url.get_char(e))
        invariant
            n == url@.len(),
            e <= n,
            forall|j: int| 0 <= j < e ==> url@[j] != '?' && url@[j] != '#',
        decreases n - e,
    {
        e = e + 1;
    }
    proof {
        assert(path_end(url@, e as int));
        let k = choose|k: int| path_end(url@, k);
        lemma_path_end_unique(url@, e as int, k);
    }
    let len = if e > 0 && url.get_char(e - 1) == '/' {
        e - 1
    } else {
        e
    };
    assert(len == key_len(url@));
    let mut out: Vec<char> = Vec::new();
    let mut slashes: usize = 0;
    let mut i: usize = 0;
    while i < len
        invariant
            n == url@.len(),
            len <= n,
            len == key_len(url@),
            i <= len,
            slashes == slashes_before(url@, i as int),
            slashes <= i,
            out@.len() == i,
            forall|j: int| 0 <= j < i ==> #[trigger] out@[j] == normalized(url@)[j],
        decreases len - i,
    {
        let c = url.get_char(i);
        if slashes < 3 {
            out.push(lower_char(c));
        } else {
            out.push(c);
        }
        if c == '/' {
            slashes = slashes + 1;
        }
        i = i + 1;
    }
    assert(out@ =~= normalized(url@));
    out
}

} // verus!
