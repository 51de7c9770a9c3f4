use agentero::urls::{
    acl_anthology_pdf_url, arxiv_canonical_urls, doi_landing_url, usenix_presentation_pdf_url,
};

#[test]
fn arxiv_canonical_urls_use_bare_id() {
    let urls = arxiv_canonical_urls("1706.03762");
    assert_eq!(urls.pdf, "https://arxiv.org/pdf/1706.03762");
    assert_eq!(urls.html, "https://arxiv.org/html/1706.03762");
    assert_eq!(urls.abs, "https://arxiv.org/abs/1706.03762");
}

#[test]
fn doi_landing_url_is_https_doi_org() {
    assert_eq!(doi_landing_url("10.1/abc"), "https://doi.org/10.1/abc");
}

#[test]
fn acl_anthology_pdf_url_derivation() {
    assert_eq!(
        acl_anthology_pdf_url("https://aclanthology.org/2026.acl-long.1248/"),
        Some("https://aclanthology.org/2026.acl-long.1248.pdf".to_string())
    );
    assert_eq!(
        acl_anthology_pdf_url("https://aclanthology.org/2026.acl-long.1248.pdf"),
        Some("https://aclanthology.org/2026.acl-long.1248.pdf".to_string())
    );
    assert_eq!(
        acl_anthology_pdf_url("https://www.aclanthology.org/2025.emnlp-main.42/"),
        Some("https://www.aclanthology.org/2025.emnlp-main.42.pdf".to_string())
    );
    assert!(acl_anthology_pdf_url("https://aclanthology.org/venues/acl/").is_none());
    assert!(acl_anthology_pdf_url("https://example.com/2026.acl-long.1248/").is_none());
}

#[test]
fn usenix_presentation_pdf_url_derivation() {
    assert_eq!(
        usenix_presentation_pdf_url(
            "https://www.usenix.org/conference/atc24/presentation/liu-qingyuan"
        ),
        Some("https://www.usenix.org/system/files/atc24-liu-qingyuan.pdf".to_string())
    );
    assert_eq!(
        usenix_presentation_pdf_url(
            "https://www.usenix.org/conference/osdi24/presentation/chen"
        ),
        Some("https://www.usenix.org/system/files/osdi24-chen.pdf".to_string())
    );
    assert_eq!(
        usenix_presentation_pdf_url(
            "https://www.usenix.org/system/files/atc24-liu-qingyuan.pdf"
        ),
        None
    );
    assert_eq!(
        usenix_presentation_pdf_url("https://www.usenix.org/conference/atc24"),
        None
    );
}

#[test]
fn acl_pdf_is_its_own_pdf() {
    for url in [
        "https://aclanthology.org/2026.acl-long.1248/",
        "https://aclanthology.org/2026.acl-long.1248///",
        "https://ACLanthology.org/2026.acl-long.1248.PDF",
        "https://aclanthology.org/x/2026.a-b.",
    ] {
        let pdf = acl_anthology_pdf_url(url).unwrap();
        assert!(pdf.to_ascii_lowercase().ends_with(".pdf"));
        assert_eq!(acl_anthology_pdf_url(&pdf).as_deref(), Some(pdf.as_str()));
    }
    assert_eq!(acl_anthology_pdf_url("https://aclanthology.org/26.acl-long.1/"), None);
    assert_eq!(acl_anthology_pdf_url("https://aclanthology.org/2026.acl.1/"), None);
    assert_eq!(acl_anthology_pdf_url("https://aclanthology.org/2026.acl-long.x/"), None);
}

#[test]
fn usenix_pages_need_both_segments() {
    assert_eq!(
        usenix_presentation_pdf_url(" https://www.USENIX.org/Conference/atc24/Presentation/liu/ ")
            .as_deref(),
        Some("https://www.usenix.org/system/files/atc24-liu.pdf")
    );
    assert_eq!(
        usenix_presentation_pdf_url("https://usenix.org/conference//presentation/liu"),
        None
    );
    assert_eq!(
        usenix_presentation_pdf_url(" https://usenix.org/conference/a/presentation/b.pdf")
            .as_deref(),
        Some("https://usenix.org/conference/a/presentation/b.pdf")
    );
}
