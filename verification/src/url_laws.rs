//! The URLs that are derived from ids and pages, said of the segments of a page's URL.
use crate::text::{
    contents, lemma_pieces_nonempty, same_ignoring_case, split, to_ascii_lowercase, trim,
    trim_end_of,
};
use crate::text_laws::{holds_text, lemma_holds_text};
use crate::urls::{
    acl_anthology_pdf_url, arxiv_canonical_urls, digits, doi_landing_url, segment_index,
    usenix_presentation_pdf_url, ArxivUrls,
};
use vstd::prelude::*;

verus! {

/// The three pages of a preprint end with its id, without the white space around it.
pub proof fn law_arxiv_urls(id: &str, t: &str, r: ArxivUrls)
    requires
        call_ensures(arxiv_canonical_urls, (id,), r),
        call_ensures(trim, (id,), t),
    ensures
        r.pdf@ == "https://arxiv.org/pdf/"@ + t@,
        r.html@ == "https://arxiv.org/html/"@ + t@,
        r.abs@ == "https://arxiv.org/abs/"@ + t@,
{
}

/// The landing page of a DOI ends with the DOI as it stands.
pub proof fn law_doi_url(doi: &str, r: String)
    requires
        call_ensures(doi_landing_url, (doi,), r),
    ensures
        r@ == "https://doi.org/"@ + doi@,
{
}

/// The last four characters are `.pdf`.
pub open spec fn ends_in_pdf(s: Seq<char>) -> bool {
    s.len() >= 4 && s.skip(s.len() - 4) == seq!['.', 'p', 'd', 'f']
}

proof fn lemma_ends_in_pdf(s: Seq<char>)
    ensures
        ".pdf"@.is_suffix_of(s) == ends_in_pdf(s),
{
    reveal_strlit(".pdf");
    assert(".pdf"@ =~= seq!['.', 'p', 'd', 'f']);
    if s.len() >= 4 {
        assert(s.skip(s.len() - 4) =~= s.subrange(s.len() - 4, s.len() as int));
    }
}

/// Characters from `0` to `9` and no others.
pub open spec fn numeral(s: Seq<char>) -> bool {
    forall|i: int| 0 <= i < s.len() ==> 48 <= (#[trigger] s[i]) as int <= 57
}

proof fn lemma_numeral(s: Seq<char>)
    ensures
        digits(s) == numeral(s),
{
    if digits(s) {
        assert forall|i: int| 0 <= i < s.len() implies 48 <= (#[trigger] s[i]) as int <= 57 by {
            assert(crate::text::ascii_digit(s[i]));
        }
    }
    if numeral(s) {
        assert forall|i: int| 0 <= i < s.len() implies crate::text::ascii_digit(
            #[trigger] s[i],
        ) by {
            assert(48 <= s[i] as int <= 57);
        }
    }
}

/// A page of the ACL Anthology, and none of another site, has a PDF. A PDF is its own. The page of a
/// paper gets the extension behind its last segment, which has three parts: a year of four digits, a
/// venue and a volume with a hyphen between them, and a number. Any other page has none.
pub proof fn law_acl_pdf(
    url: &str,
    lower: String,
    t: &str,
    page: &str,
    segments: Vec<String>,
    slug: &str,
    parts: Vec<String>,
    r: Option<String>,
)
    requires
        call_ensures(acl_anthology_pdf_url, (url,), r),
        call_ensures(to_ascii_lowercase, (url,), lower),
        call_ensures(trim, (url,), t),
        call_ensures(trim_end_of, (url, '/'), page),
        call_ensures(split, (page, '/'), segments),
        slug@ == segments@[segments@.len() - 1]@,
        call_ensures(split, (slug, '.'), parts),
    ensures
        ({
            let at_site = holds_text(lower@, "aclanthology.org/"@);
            let paper = parts@.len() == 3 && parts@[0]@.len() == 4 && numeral(parts@[0]@)
                && parts@[1]@.contains('-') && numeral(parts@[2]@);
            &&& !at_site ==> r is None
            &&& at_site && ends_in_pdf(lower@) ==> r is Some && r->Some_0@ == t@
            &&& at_site && !ends_in_pdf(lower@) && paper ==> r is Some && r->Some_0@ == page@ + seq![
                '.',
                'p',
                'd',
                'f',
            ]
            &&& at_site && !ends_in_pdf(lower@) && !paper ==> r is None
        }),
{
    lemma_holds_text(lower@, "aclanthology.org/"@);
    lemma_ends_in_pdf(lower@);
    lemma_pieces_nonempty(page@, '/');
    assert(contents(segments@).last() == slug@);
    let views = contents(parts@);
    if parts@.len() == 3 {
        assert(views[0] == parts@[0]@ && views[1] == parts@[1]@ && views[2] == parts@[2]@);
        lemma_numeral(views[0]);
        lemma_numeral(views[2]);
    }
    reveal_strlit(".pdf");
    assert(".pdf"@ =~= seq!['.', 'p', 'd', 'f']);
}

/// The first segment that reads `name`, in whatever case, is the one at `k`, or there is none and `k`
/// is the number of segments.
pub open spec fn segment_stands_at(segments: Seq<Seq<char>>, name: Seq<char>, k: int) -> bool {
    &&& 0 <= k <= segments.len()
    &&& forall|i: int| 0 <= i < k ==> !same_ignoring_case(#[trigger] segments[i], name)
    &&& k < segments.len() ==> same_ignoring_case(segments[k], name)
}

proof fn lemma_segment_stands_at(segments: Seq<Seq<char>>, name: Seq<char>, k: int)
    requires
        segment_stands_at(segments, name, k),
    ensures
        k < segments.len() ==> segment_index(segments, name) == Some(k),
        k == segments.len() ==> segment_index(segments, name) is None,
    decreases segments.len(),
{
    if segments.len() > 0 {
        let shorter = segments.drop_last();
        if k < segments.len() {
            assert(k < shorter.len() ==> shorter[k] == segments[k]);
            assert(segment_stands_at(shorter, name, k)) by {
                assert forall|i: int| 0 <= i < k implies !same_ignoring_case(
                    #[trigger] shorter[i],
                    name,
                ) by {
                    assert(shorter[i] == segments[i]);
                }
            }
            lemma_segment_stands_at(shorter, name, k);
        } else {
            assert forall|i: int| 0 <= i < shorter.len() implies !same_ignoring_case(
                #[trigger] shorter[i],
                name,
            ) by {
                assert(shorter[i] == segments[i]);
            }
            lemma_segment_stands_at(shorter, name, k - 1);
            assert(segments[segments.len() - 1] == segments.last());
        }
    }
}

/// A presentation page of USENIX, and none of another site, has a PDF. A PDF is its own. Any other
/// page has the file that is named after the segment behind `conference` and the one behind
/// `presentation`, if there are both and neither is empty.
pub proof fn law_usenix_pdf(
    url: &str,
    lower: String,
    t: &str,
    page: &str,
    segments: Vec<String>,
    c: int,
    p: int,
    r: Option<String>,
)
    requires
        call_ensures(usenix_presentation_pdf_url, (url,), r),
        call_ensures(to_ascii_lowercase, (url,), lower),
        call_ensures(trim, (url,), t),
        call_ensures(trim_end_of, (t, '/'), page),
        call_ensures(split, (page, '/'), segments),
        segment_stands_at(contents(segments@), "conference"@, c),
        segment_stands_at(contents(segments@), "presentation"@, p),
    ensures
        ({
            let at_site = holds_text(lower@, "usenix.org/conference/"@) && holds_text(
                lower@,
                "/presentation/"@,
            );
            let named = c + 1 < segments@.len() && p + 1 < segments@.len() && segments@[c
                + 1]@.len() > 0 && segments@[p + 1]@.len() > 0;
            &&& !at_site ==> r is None
            &&& at_site && ends_in_pdf(lower@) ==> r is Some && r->Some_0@ == t@
            &&& at_site && !ends_in_pdf(lower@) && named ==> r is Some && r->Some_0@
                == "https://www.usenix.org/system/files/"@ + segments@[c + 1]@ + "-"@ + segments@[p
                + 1]@ + ".pdf"@
            &&& at_site && !ends_in_pdf(lower@) && !named ==> r is None
        }),
{
    let all = contents(segments@);
    lemma_holds_text(lower@, "usenix.org/conference/"@);
    lemma_holds_text(lower@, "/presentation/"@);
    lemma_ends_in_pdf(lower@);
    lemma_segment_stands_at(all, "conference"@, c);
    lemma_segment_stands_at(all, "presentation"@, p);
    if c + 1 < all.len() {
        assert(all[c + 1] == segments@[c + 1]@);
    }
    if p + 1 < all.len() {
        assert(all[p + 1] == segments@[p + 1]@);
    }
}

} // verus!
