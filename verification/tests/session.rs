use pdf2clipboard::session::{CopyState, DownloadOutcome, LoadOutcome, Session};

fn opened(n: u32) -> Session {
    let mut s = Session::new();
    let gen = s.open_bytes(b"%PDF-1.4").unwrap();
    assert_eq!(s.finish_load(gen, Some(n)), LoadOutcome::Opened(n));
    s
}

#[test]
fn refused_bytes_change_nothing_but_the_download() {
    let mut s = Session::new();
    let (g, _) = s.start_download(false);
    assert_eq!(s.finish_download(g, true), DownloadOutcome::Open);
    assert!(s.url_doc_loading);
    assert_eq!(s.open_bytes(b"<html>"), None);
    assert!(!s.is_downloading && !s.url_doc_loading);
    assert_eq!(s.doc_gen, 0);
}

#[test]
fn stale_load_is_dropped() {
    let mut s = Session::new();
    let first = s.open_bytes(b"%PDF").unwrap();
    let second = s.open_bytes(b"%PDF").unwrap();
    assert_ne!(first, second);
    assert_eq!(s.finish_load(first, Some(3)), LoadOutcome::Ignored);
    assert!(!s.has_document);
    assert_eq!(s.finish_load(second, Some(3)), LoadOutcome::Opened(3));
    assert_eq!(s.pages.len(), 3);
    assert_eq!(s.selected_page, Some(0));
    let mut t = Session::new();
    let g = t.start_file_load();
    assert_eq!(t.finish_load(g, None), LoadOutcome::Failed);
    assert!(!t.has_document);
}

#[test]
fn stale_download_is_dropped() {
    let mut s = Session::new();
    let (old, _) = s.start_download(false);
    let (new, _) = s.start_download(false);
    assert_eq!(s.finish_download(old, true), DownloadOutcome::Ignored);
    assert_eq!(s.finish_download(new, false), DownloadOutcome::Failed);
    assert!(!s.is_downloading);
    // After a cancel nothing is taken.
    let (g, _) = s.start_download(false);
    assert_eq!(s.cancel_download(), None);
    assert_eq!(s.finish_download(g, true), DownloadOutcome::Ignored);
}

#[test]
fn cancel_drops_a_document_being_opened() {
    let mut s = Session::new();
    let (g, _) = s.start_download(false);
    assert_eq!(s.finish_download(g, true), DownloadOutcome::Open);
    let doc = s.open_bytes(b"%PDF").unwrap();
    let cancelled = s.cancel_download();
    assert!(cancelled.is_some());
    assert_eq!(s.finish_load(doc, Some(2)), LoadOutcome::Ignored);
}

#[test]
fn browser_download_closes_the_document() {
    let mut s = opened(2);
    let (_, cancel) = s.start_download(true);
    assert_eq!(cancel, Some(s.doc_gen));
    assert!(!s.has_document);
    assert!(s.pages.is_empty());
}

#[test]
fn copy_marks_one_page_at_a_time() {
    let mut s = opened(3);
    let (d, c) = s.start_copy(1).unwrap();
    assert_eq!(s.pages[1].copy_state, CopyState::Copying);
    assert!(s.finish_copy(d, c, 1, true));
    assert_eq!(s.pages[1].copy_state, CopyState::Done);
    assert_eq!(s.copied_page, Some(1));
    let (d2, c2) = s.start_copy(2).unwrap();
    assert_eq!(s.pages[1].copy_state, CopyState::Idle);
    assert_eq!(s.pages[2].copy_state, CopyState::Copying);
    // The earlier copy's result is stale now.
    assert!(!s.finish_copy(d, c, 1, true));
    assert!(s.finish_copy(d2, c2, 2, false));
    assert_eq!(s.pages[2].copy_state, CopyState::Idle);
    assert_eq!(s.start_copy(7), None);
}

#[test]
fn renders_are_taken_for_the_current_generation_only() {
    let mut s = opened(2);
    assert!(s.has_pending_render());
    let g = s.start_render();
    assert!(!s.finish_render(g.wrapping_sub(1), 0, false, false));
    assert!(s.finish_render(g, 0, false, false));
    assert!(s.pages[0].has_texture && !s.pages[0].has_image);
    assert!(s.finish_render(g, 0, true, false));
    assert!(s.pages[0].has_image && s.pages[0].is_full_res);
    assert!(!s.finish_render(g, 5, false, false));
    assert!(s.fail_render(g, 1));
    assert!(s.pages[1].render_failed && !s.pages[1].has_texture);
    assert!(!s.has_pending_render());
    assert!(s.reset_thumbnails(false));
    assert!(!s.pages[0].has_texture && s.pages[0].has_image && !s.pages[1].render_failed);
    assert!(s.reset_thumbnails(true));
    assert!(!s.pages[0].has_image);
    assert!(!Session::new().reset_thumbnails(false));
}

#[test]
fn generations_wrap_around() {
    let mut s = Session::new();
    s.copy_gen = u32::MAX;
    s.pages = vec![];
    let mut t = opened(1);
    t.copy_gen = u32::MAX;
    let (_, c) = t.start_copy(0).unwrap();
    assert_eq!(c, 0);
    t.mark_render_requested(0);
    assert!(t.pages[0].has_image);
    t.abort_copy(0);
    assert_eq!(t.pages[0].copy_state, CopyState::Idle);
}

#[test]
fn copy_from_held_full_image_selects_the_page() {
    let mut s = opened(3);
    let gen = s.start_render();
    assert!(s.finish_render(gen, 2, true, false));
    assert_eq!(s.selected_page, Some(0));
    assert!(s.start_copy(2).is_some());
    // No image at hand: the copy renders anew and the selection stays.
    assert!(!s.take_held_copy(2, false));
    assert_eq!(s.selected_page, Some(0));
    // A thumbnail-only page cannot be copied from what is held.
    assert!(!s.take_held_copy(1, true));
    assert_eq!(s.selected_page, Some(0));
    // The full-resolution image is held: it is copied and the page selected.
    assert!(s.take_held_copy(2, true));
    assert_eq!(s.selected_page, Some(2));
    assert_eq!(s.pages[2].copy_state, CopyState::Copying);
}
