//! Canonical URL derivation for well-known scholarly repositories.
use crate::text::{
    ascii_digit, chars_of, concat, contains, contains_char, content, contents, ends_with,
    eq_ignore_ascii_case, lowered, lowered_char, occurs, occurs_at, pieces, same_ignoring_case,
    lemma_trimmed_again, split, to_ascii_lowercase, trim, trim_end_of, trimmed, trimmed_end,
    trimmed_end_of, trimmed_start, white_space,
};
use vstd::prelude::*;

verus! {

/// Canonical arXiv preview URLs for a bare arXiv id.
pub struct ArxivUrls {
    pub pdf: String,
    pub html: String,
    pub abs: String,
}

/// Build canonical `https://arxiv.org/{pdf,html,abs}` URLs for a bare id.
/// The caller is responsible for stripping any `arXiv:` prefix and version
/// suffix beforehand.
pub fn arxiv_canonical_urls(bare_id: &str) -> (r: ArxivUrls)
    ensures
        r.pdf@ == "https://arxiv.org/pdf/"@ + trimmed(bare_id@),
        r.html@ == "https://arxiv.org/html/"@ + trimmed(bare_id@),
        r.abs@ == "https://arxiv.org/abs/"@ + trimmed(bare_id@),
{
    let bare = trim(bare_id);
    ArxivUrls {
        pdf: concat("https://arxiv.org/pdf/", bare),
        html: concat("https://arxiv.org/html/", bare),
        abs: concat("https://arxiv.org/abs/", bare),
    }
}

/// DOI resolver landing page.
pub fn doi_landing_url(doi: &str) -> (r: String)
    ensures
        r@ == "https://doi.org/"@ + doi@,
{
    concat("https://doi.org/", doi)
}

/// Every character is an ASCII digit.
pub open spec fn digits(s: Seq<char>) -> bool {
    forall|i: int| 0 <= i < s.len() ==> ascii_digit(#[trigger] s[i])
}

/// The slug of an ACL Anthology paper: `YYYY.venue-type.number`.
pub open spec fn acl_slug(slug: Seq<char>) -> bool {
    let parts = pieces(slug, '.');
    &&& parts.len() == 3
    &&& parts[0].len() == 4
    &&& digits(parts[0])
    &&& parts[1].contains('-')
    &&& digits(parts[2])
}

/// The PDF of an ACL Anthology page: the page itself where it is a PDF already, and the page's
/// URL with `.pdf` in place of its trailing slashes where its last segment is a paper's slug.
pub open spec fn acl_pdf(url: Seq<char>) -> Option<Seq<char>> {
    let page = trimmed_end_of(url, '/');
    if !occurs(lowered(url), "aclanthology.org/"@) {
        None
    } else if ".pdf"@.is_suffix_of(lowered(url)) {
        Some(trimmed(url))
    } else if acl_slug(pieces(page, '/').last()) {
        Some(page + ".pdf"@)
    } else {
        None
    }
}

/// Whether every character of `s` is an ASCII digit.
fn all_digits(s: &str) -> (r: bool)
    ensures
        r == digits(s@),
{
    let v = chars_of(s);
    let mut i: usize = 0;
    while i < v.len()
        invariant
            v@ == s@,
            i <= v.len(),
            forall|j: int| 0 <= j < i ==> ascii_digit(#[trigger] s@[j]),
        decreases v.len() - i,
    {
        if !('0' <= v[i] && v[i] <= '9') {
            assert(!ascii_digit(s@[i as int]));
            return false;
        }
        i = i + 1;
    }
    true
}

/// Whether `slug` is the slug of an ACL Anthology paper.
fn is_acl_slug(slug: &str) -> (r: bool)
    ensures
        r == acl_slug(slug@),
{
    let parts = split(slug, '.');
    let ghost views = contents(parts@);
    if parts.len() != 3 {
        return false;
    }
    assert(views[0] == parts@[0]@ && views[1] == parts@[1]@ && views[2] == parts@[2]@);
    let year = chars_of(parts[0].as_str());
    year.len() == 4 && all_digits(parts[0].as_str()) && contains_char(parts[1].as_str(), '-')
        && all_digits(parts[2].as_str())
}

/// Derive the canonical ACL Anthology PDF URL from a paper landing page.
/// ACL Anthology paper URLs look like:
///   https://aclanthology.org/2026.acl-long.1248/
/// and the PDF is always:
///   https://aclanthology.org/2026.acl-long.1248.pdf
pub fn acl_anthology_pdf_url(url: &str) -> (r: Option<String>)
    ensures
        content(r) == acl_pdf(url@),
{
    let lower = to_ascii_lowercase(url);
    if !contains(lower.as_str(), "aclanthology.org/") {
        return None;
    }
    // Already a PDF.
    if ends_with(lower.as_str(), ".pdf") {
        return Some(trim(url).to_owned());
    }
    let page = trim_end_of(url, '/');
    let segments = split(page, '/');
    let last: usize = segments.len() - 1;
    assert(contents(segments@)[last as int] == segments@[last as int]@);
    if is_acl_slug(segments[last].as_str()) {
        Some(concat(page, ".pdf"))
    } else {
        None
    }
}

/// The position of the first segment that reads `name`, whatever the case of its letters.
pub open spec fn segment_index(segments: Seq<Seq<char>>, name: Seq<char>) -> Option<int>
    decreases segments.len(),
{
    if segments.len() == 0 {
        None
    } else {
        match segment_index(segments.drop_last(), name) {
            Some(i) => Some(i),
            None => if same_ignoring_case(segments.last(), name) {
                Some(segments.len() - 1)
            } else {
                None
            },
        }
    }
}

/// The segment that follows the first segment reading `name`.
pub open spec fn segment_after(segments: Seq<Seq<char>>, name: Seq<char>) -> Option<Seq<char>> {
    match segment_index(segments, name) {
        Some(i) => if i + 1 < segments.len() {
            Some(segments[i + 1])
        } else {
            None
        },
        None => None,
    }
}

/// The PDF of a USENIX presentation page: the page itself where it is a PDF already, and else
/// the file named after the segments that follow `conference` and `presentation`.
pub open spec fn usenix_pdf(url: Seq<char>) -> Option<Seq<char>> {
    let segments = pieces(trimmed_end_of(trimmed(url), '/'), '/');
    if !occurs(lowered(url), "usenix.org/conference/"@) || !occurs(
        lowered(url),
        "/presentation/"@,
    ) {
        None
    } else if ".pdf"@.is_suffix_of(lowered(url)) {
        Some(trimmed(url))
    } else {
        match (
            segment_after(segments, "conference"@),
            segment_after(segments, "presentation"@),
        ) {
            (Some(conf), Some(slug)) => if conf.len() > 0 && slug.len() > 0 {
                Some(
                    "https://www.usenix.org/system/files/"@ + conf + "-"@ + slug + ".pdf"@,
                )
            } else {
                None
            },
            _ => None,
        }
    }
}

/// The segment that follows the first segment reading `name`.
fn find_segment_after(segments: &Vec<String>, name: &str) -> (r: Option<String>)
    ensures
        content(r) == segment_after(contents(segments@), name@),
{
    let ghost all = contents(segments@);
    let mut i: usize = 0;
    while i < segments.len()
        invariant
            all == contents(segments@),
            i <= segments.len(),
            segment_index(all.take(i as int), name@) is None,
        decreases segments.len() - i,
    {
        assert(all.take(i + 1).drop_last() =~= all.take(i as int));
        assert(all[i as int] == segments@[i as int]@);
        if eq_ignore_ascii_case(segments[i].as_str(), name) {
            proof {
                lemma_segment_index_stable(all, name@, i + 1);
            }
            if i + 1 < segments.len() {
                assert(all[i + 1] == segments@[i + 1]@);
                return Some(segments[i + 1].clone());
            } else {
                return None;
            }
        }
        i = i + 1;
    }
    assert(all.take(i as int) =~= all);
    None
}

/// Segments behind the first match do not change its position.
proof fn lemma_segment_index_stable(segments: Seq<Seq<char>>, name: Seq<char>, n: int)
    requires
        0 <= n <= segments.len(),
        segment_index(segments.take(n), name) is Some,
    ensures
        segment_index(segments, name) == segment_index(segments.take(n), name),
    decreases segments.len(),
{
    if n < segments.len() {
        assert(segments.drop_last().take(n) =~= segments.take(n));
        lemma_segment_index_stable(segments.drop_last(), name, n);
    } else {
        assert(segments.take(n) =~= segments);
    }
}

/// Derive the canonical USENIX presentation PDF URL from a paper presentation page.
/// USENIX presentation URLs look like:
///   https://www.usenix.org/conference/atc24/presentation/liu-qingyuan
/// and the PDF is always:
///   https://www.usenix.org/system/files/atc24-liu-qingyuan.pdf
pub fn usenix_presentation_pdf_url(url: &str) -> (r: Option<String>)
    ensures
        content(r) == usenix_pdf(url@),
{
    let lower = to_ascii_lowercase(url);
    if !contains(lower.as_str(), "usenix.org/conference/") || !contains(
        lower.as_str(),
        "/presentation/",
    ) {
        return None;
    }
    if ends_with(lower.as_str(), ".pdf") {
        return Some(trim(url).to_owned());
    }
    let segments = split(trim_end_of(trim(url), '/'), '/');
    match (
        find_segment_after(&segments, "conference"),
        find_segment_after(&segments, "presentation"),
    ) {
        (Some(conf), Some(slug)) => {
            if conf.as_str().is_empty() || slug.as_str().is_empty() {
                return None;
            }
            let mut out = concat("https://www.usenix.org/system/files/", conf.as_str());
            out.append("-");
            out.append(slug.as_str());
            out.append(".pdf");
            Some(out)
        },
        _ => None,
    }
}

proof fn lemma_trimmed_start_is_suffix(s: Seq<char>)
    ensures
        trimmed_start(s).len() <= s.len(),
        trimmed_start(s) == s.skip(s.len() - trimmed_start(s).len()),
        s.len() > 0 && !white_space(s.last()) ==> trimmed_start(s).len() > 0,
    decreases s.len(),
{
    if s.len() > 0 && white_space(s[0]) {
        let rest = s.skip(1);
        lemma_trimmed_start_is_suffix(rest);
        if s.len() > 1 {
            assert(rest.last() == s.last());
        }
        assert(trimmed_start(s) =~= s.skip(s.len() - trimmed_start(s).len()));
    } else {
        assert(trimmed_start(s) =~= s.skip(0));
    }
}

/// Trimming keeps the end of a text that ends in a PDF extension.
proof fn lemma_trimmed_keeps_extension(s: Seq<char>)
    requires
        ".pdf"@.is_suffix_of(lowered(s)),
    ensures
        ".pdf"@.is_suffix_of(lowered(trimmed(s))),
        trimmed(s) == trimmed_start(s),
{
    reveal_strlit(".pdf");
    let n = s.len();
    assert(lowered(s)[n - 1] == 'f' && lowered(s)[n - 2] == 'd' && lowered(s)[n - 3] == 'p'
        && lowered(s)[n - 4] == '.') by {
        let tail = lowered(s).subrange(n - 4, n as int);
        assert(tail == ".pdf"@);
        assert(tail[0] == '.' && tail[1] == 'p' && tail[2] == 'd' && tail[3] == 'f');
    }
    assert forall|i: int| n - 4 <= i < n implies !white_space(#[trigger] s[i]) by {
        assert(lowered(s)[i] == lowered_char(s[i]));
    }
    lemma_trimmed_start_stops(s, n - 4);
    lemma_trimmed_start_is_suffix(s);
    let rest = trimmed_start(s);
    assert(rest.last() == s[n - 1]);
    assert(trimmed_end(rest) == rest);
    assert(lowered(rest).subrange(rest.len() - 4, rest.len() as int) =~= ".pdf"@);
}

/// Trimming the start stops at a character that is no white space.
proof fn lemma_trimmed_start_stops(s: Seq<char>, at: int)
    requires
        0 <= at < s.len(),
        !white_space(s[at]),
    ensures
        trimmed_start(s).len() >= s.len() - at,
    decreases s.len(),
{
    if white_space(s[0]) {
        assert(s.skip(1)[at - 1] == s[at]);
        lemma_trimmed_start_stops(s.skip(1), at - 1);
    }
}

/// What is derived from the URL of a page is always the URL of a PDF.
pub proof fn law_derived_urls_are_pdfs(url: Seq<char>)
    ensures
        acl_pdf(url) matches Some(pdf) ==> ".pdf"@.is_suffix_of(lowered(pdf)),
        usenix_pdf(url) matches Some(pdf) ==> ".pdf"@.is_suffix_of(lowered(pdf)),
{
    reveal_strlit(".pdf");
    if ".pdf"@.is_suffix_of(lowered(url)) {
        lemma_trimmed_keeps_extension(url);
    }
    if let Some(pdf) = acl_pdf(url) {
        if !".pdf"@.is_suffix_of(lowered(url)) {
            lemma_lowered_extension(trimmed_end_of(url, '/'));
        }
    }
    if let Some(pdf) = usenix_pdf(url) {
        if !".pdf"@.is_suffix_of(lowered(url)) {
            lemma_lowered_extension(pdf.take(pdf.len() - 4));
            assert(pdf =~= pdf.take(pdf.len() - 4) + ".pdf"@);
        }
    }
}

proof fn lemma_lowered_extension(s: Seq<char>)
    ensures
        ".pdf"@.is_suffix_of(lowered(s + ".pdf"@)),
{
    reveal_strlit(".pdf");
    let whole = s + ".pdf"@;
    assert(lowered(whole).subrange(whole.len() - 4, whole.len() as int) =~= ".pdf"@);
}

proof fn lemma_trimmed_end_of_slashes(s: Seq<char>)
    ensures
        trimmed_end_of(s, '/').is_prefix_of(s),
        forall|i: int| trimmed_end_of(s, '/').len() <= i < s.len() ==> #[trigger] s[i] == '/',
    decreases s.len(),
{
    if s.len() > 0 && s.last() == '/' {
        lemma_trimmed_end_of_slashes(s.drop_last());
        assert forall|i: int| trimmed_end_of(s, '/').len() <= i < s.len() implies #[trigger] s[i]
            == '/' by {
            if i < s.len() - 1 {
                assert(s[i] == s.drop_last()[i]);
            }
        }
    }
}

/// The name of the site stands in front of the slashes at the end of a paper's page.
proof fn lemma_site_is_in_page(url: Seq<char>)
    requires
        occurs(lowered(url), "aclanthology.org/"@),
        acl_slug(pieces(trimmed_end_of(url, '/'), '/').last()),
    ensures
        occurs(lowered(trimmed_end_of(url, '/') + ".pdf"@), "aclanthology.org/"@),
{
    reveal_strlit("aclanthology.org/");
    let site = "aclanthology.org/"@;
    let page = trimmed_end_of(url, '/');
    let pdf = page + ".pdf"@;
    let at = choose|at: int| occurs_at(lowered(url), site, at);
    lemma_trimmed_end_of_slashes(url);
    assert(lowered(url).subrange(at, at + 17) == site);
    if at + 17 > page.len() {
        let g = lowered(url)[at + 15];
        assert(g == site[15]) by {
            assert(lowered(url).subrange(at, at + 17)[15] == g);
        }
        assert(g == lowered_char(url[at + 15]));
        assert(at + 15 < page.len()) by {
            if at + 15 >= page.len() {
                assert(url[at + 15] == '/');
            }
        }
        assert(page.last() == url[at + 15]);
        let slug = pieces(page, '/').last();
        assert(slug.last() == page.last());
        let parts = pieces(slug, '.');
        assert(parts[2].last() == slug.last());
        assert(ascii_digit(parts[2][parts[2].len() - 1]));
    }
    assert(lowered(pdf).subrange(at, at + 17) =~= lowered(url).subrange(at, at + 17)) by {
        assert forall|i: int| at <= i < at + 17 implies #[trigger] lowered(pdf)[i] == lowered(
            url,
        )[i] by {
            assert(pdf[i] == url[i]);
        }
    }
    assert(occurs_at(lowered(pdf), site, at));
}

/// Trimming keeps the name of the site.
proof fn lemma_site_is_in_trimmed(url: Seq<char>)
    requires
        occurs(lowered(url), "aclanthology.org/"@),
    ensures
        occurs(lowered(trimmed_start(url)), "aclanthology.org/"@),
{
    reveal_strlit("aclanthology.org/");
    let site = "aclanthology.org/"@;
    let rest = trimmed_start(url);
    let k = url.len() - rest.len();
    let at = choose|at: int| occurs_at(lowered(url), site, at);
    assert(lowered(url).subrange(at, at + 17)[0] == site[0]);
    assert(lowered(url)[at] == lowered_char(url[at]));
    lemma_trimmed_start_stops(url, at);
    lemma_trimmed_start_is_suffix(url);
    assert(lowered(rest).subrange(at - k, at - k + 17) =~= lowered(url).subrange(at, at + 17));
    assert(occurs_at(lowered(rest), site, at - k));
}

/// The PDF of an ACL Anthology page is its own PDF, unless it is derived from a URL that starts
/// with white space.
pub proof fn law_acl_pdf_is_its_own_pdf(url: Seq<char>)
    requires
        url.len() > 0 && white_space(url[0]) ==> ".pdf"@.is_suffix_of(lowered(url)),
    ensures
        acl_pdf(url) matches Some(pdf) ==> acl_pdf(pdf) == Some(pdf),
{
    if let Some(pdf) = acl_pdf(url) {
        let page = trimmed_end_of(url, '/');
        if ".pdf"@.is_suffix_of(lowered(url)) {
            lemma_trimmed_keeps_extension(url);
            lemma_site_is_in_trimmed(url);
            lemma_trimmed_again(url);
        } else {
            lemma_trimmed_end_of_slashes(url);
            lemma_site_is_in_page(url);
            lemma_lowered_extension(page);
            lemma_trimmed_keeps_extension(pdf);
            if page.len() == 0 {
                assert(pieces(page, '/').last() =~= Seq::<char>::empty());
                assert(pieces(pieces(page, '/').last(), '.').len() == 1);
            }
            assert(pdf[0] == url[0]);
        }
    }
}

} // verus!
