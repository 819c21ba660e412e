use pdf2clipboard::viewer::{
    base_name, display_name, download_plan, is_pdf, is_pdf_extension, is_proxied_pdf,
    language_from_locale,
    navigate, next_render_target, normalize_thumb_cache_size, normalize_thumb_size,
    parse_url_input, render_candidate, thumb_cache_size_for_memory, thumbnail_parallelism,
    url_file_name, DownloadPlan, Language, NavKey,
};

const GIB: u64 = 1024 * 1024 * 1024;

#[test]
fn thumb_sizes_are_clamped_and_rounded() {
    assert_eq!(normalize_thumb_size(0), 80);
    assert_eq!(normalize_thumb_size(200), 200);
    assert_eq!(normalize_thumb_size(207), 200);
    assert_eq!(normalize_thumb_size(5000), 1024);
    assert_eq!(normalize_thumb_cache_size(85), 80);
    assert_eq!(normalize_thumb_cache_size(1023), 1016);
    for s in [0u32, 79, 80, 81, 300, 1024, 1025, u32::MAX] {
        let n = normalize_thumb_size(s);
        assert_eq!(normalize_thumb_size(n), n);
        assert_eq!(n % 8, 0);
    }
}

#[test]
fn cache_size_follows_memory() {
    assert_eq!(thumb_cache_size_for_memory(None), 200);
    assert_eq!(thumb_cache_size_for_memory(Some((16 * GIB, 8 * GIB))), 320);
    assert_eq!(thumb_cache_size_for_memory(Some((16 * GIB, 3 * GIB))), 200);
    assert_eq!(thumb_cache_size_for_memory(Some((8 * GIB, 8 * GIB))), 200);
    assert_eq!(thumb_cache_size_for_memory(Some((4 * GIB, 4 * GIB))), 120);
    assert_eq!(thumb_cache_size_for_memory(Some((16 * GIB, GIB / 2))), 80);
    assert_eq!(thumb_cache_size_for_memory(Some((16 * GIB, GIB + 1))), 120);
}

#[test]
fn browser_render_parallelism() {
    assert_eq!(thumbnail_parallelism(None), 1);
    assert_eq!(thumbnail_parallelism(Some(1)), 1);
    assert_eq!(thumbnail_parallelism(Some(4)), 2);
    assert_eq!(thumbnail_parallelism(Some(16)), 3);
}

#[test]
fn locale_selects_language() {
    assert_eq!(language_from_locale(None), Language::English);
    assert_eq!(language_from_locale(Some("ja-JP".to_string())), Language::Japanese);
    assert_eq!(language_from_locale(Some("JA".to_string())), Language::Japanese);
    assert_eq!(language_from_locale(Some("jA_jp".to_string())), Language::Japanese);
    assert_eq!(language_from_locale(Some("en-US".to_string())), Language::English);
    assert_eq!(language_from_locale(Some("j".to_string())), Language::English);
}

#[test]
fn render_order_starts_at_the_selection() {
    let has = vec![false; 5];
    // The page before the center wins over the center itself.
    assert_eq!(next_render_target(&has, &vec![], Some(2)), Some(1));
    assert_eq!(next_render_target(&has, &vec![1], Some(2)), Some(2));
    assert_eq!(next_render_target(&has, &vec![], None), Some(0));
    let has = vec![true, true, false, true, false];
    assert_eq!(next_render_target(&has, &vec![], Some(3)), Some(2));
    assert_eq!(next_render_target(&has, &vec![2], Some(3)), Some(4));
    assert_eq!(next_render_target(&has, &vec![2, 4], Some(3)), None);
    assert_eq!(next_render_target(&vec![], &vec![], Some(3)), None);
    // A selection past the end counts as the last page.
    assert_eq!(next_render_target(&vec![false, false], &vec![], Some(9)), Some(0));
    assert!(render_candidate(&vec![false], &vec![], 0));
    assert!(!render_candidate(&vec![true], &vec![], 0));
    assert!(!render_candidate(&vec![false], &vec![0], 0));
}

#[test]
fn keyboard_navigation_stays_in_the_grid() {
    assert_eq!(navigate(NavKey::Right, 3, 10, 4, 2), 4);
    assert_eq!(navigate(NavKey::Right, 9, 10, 4, 2), 9);
    assert_eq!(navigate(NavKey::Left, 0, 10, 4, 2), 0);
    assert_eq!(navigate(NavKey::Down, 3, 10, 4, 2), 7);
    assert_eq!(navigate(NavKey::Down, 8, 10, 4, 2), 9);
    assert_eq!(navigate(NavKey::Up, 3, 10, 4, 2), 0);
    assert_eq!(navigate(NavKey::Up, 7, 10, 4, 2), 3);
    assert_eq!(navigate(NavKey::PageDown, 0, 10, 4, 2), 8);
    assert_eq!(navigate(NavKey::PageUp, 9, 10, 4, 2), 1);
    assert_eq!(navigate(NavKey::Home, 5, 10, 4, 2), 0);
    assert_eq!(navigate(NavKey::End, 5, 10, 4, 2), 9);
}

#[test]
fn pdf_signature_checks() {
    assert!(is_pdf(b"%PDF-1.7 ..."));
    assert!(is_pdf(b"%PDF"));
    assert!(!is_proxied_pdf(b"%PDF"));
    assert!(is_proxied_pdf(b"%PDF-"));
    assert!(!is_pdf(b"%PD"));
    assert!(!is_pdf(b"<html>not a pdf</html>"));
    let mut junk = vec![b' '; 1020];
    junk.extend_from_slice(b"%PDF");
    assert!(is_pdf(&junk));
    let mut late = vec![b' '; 1021];
    late.extend_from_slice(b"%PDF");
    assert!(!is_pdf(&late));
}

#[test]
fn names_of_documents() {
    assert_eq!(base_name("C:\\docs\\a.pdf"), "a.pdf");
    assert_eq!(base_name("/home/u/b.pdf"), "b.pdf");
    assert_eq!(base_name("dir/"), "");
    assert_eq!(display_name(Some("x/y/z.pdf")), "z.pdf");
    assert_eq!(display_name(None), "PDF");
    assert_eq!(url_file_name("https://example.com/files/report.pdf?download=1"), "download=1");
    assert_eq!(url_file_name("https://example.com/files/report.pdf"), "report.pdf");
    assert_eq!(url_file_name("https://example.com/files/"), "files");
    assert_eq!(url_file_name("///"), "URL_PDF");
    assert_eq!(url_file_name(""), "URL_PDF");
}

#[test]
fn typed_urls_are_trimmed() {
    assert_eq!(parse_url_input("  https://a.b/c.pdf \n"), Some("https://a.b/c.pdf".to_string()));
    assert_eq!(parse_url_input(" \t "), None);
    assert_eq!(parse_url_input(""), None);
}

#[test]
fn download_sources() {
    assert_eq!(
        download_plan("https://a.b/c d.pdf", false),
        DownloadPlan::Direct("https://a.b/c d.pdf".to_string())
    );
    assert_eq!(
        download_plan("http://localhost:8080/x.pdf", true),
        DownloadPlan::Direct("http://localhost:8080/x.pdf".to_string())
    );
    assert_eq!(
        download_plan("http://127.0.0.1/x.pdf", true),
        DownloadPlan::Direct("http://127.0.0.1/x.pdf".to_string())
    );
    assert_eq!(
        download_plan("https://a.b/c d.pdf", true),
        DownloadPlan::Proxies(vec![
            "https://api.codetabs.com/v1/proxy/?quest=https://a.b/c d.pdf".to_string(),
            "https://corsproxy.io/?https%3A%2F%2Fa.b%2Fc%20d.pdf".to_string(),
            "https://api.allorigins.win/raw?url=https%3A%2F%2Fa.b%2Fc%20d.pdf".to_string(),
        ])
    );
    // Non-ASCII characters are encoded byte by byte.
    match download_plan("é~", true) {
        DownloadPlan::Proxies(p) => assert_eq!(p[1], "https://corsproxy.io/?%C3%A9~"),
        other => panic!("unexpected plan {other:?}"),
    }
}

#[test]
fn pdf_extensions() {
    assert!(is_pdf_extension(Some("pdf")));
    assert!(is_pdf_extension(Some("PDF")));
    assert!(is_pdf_extension(Some("Pdf")));
    assert!(!is_pdf_extension(Some("pdfx")));
    assert!(!is_pdf_extension(Some("txt")));
    assert!(!is_pdf_extension(Some("")));
    assert!(!is_pdf_extension(None));
}
