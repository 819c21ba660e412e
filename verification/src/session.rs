//! The state of a viewing session and how each user action and each finished
//! background job changes it.
//!
//! Background work (loading, downloading, rendering, copying) runs outside the
//! library; every job is tagged with the generation counter that was current
//! when it started, and a result is taken only while that counter has not
//! moved on. Starting new work moves the counters on, so results of
//! superseded work are dropped.
use vstd::prelude::*;

use crate::viewer::is_pdf_data;

verus! {

/// The counter after `g`, wrapping around at `u32::MAX`.
pub open spec fn next_gen(g: u32) -> u32 {
    if g == u32::MAX {
        0
    } else {
        (g + 1) as u32
    }
}

fn bump(g: u32) -> (r: u32)
    ensures
        r == next_gen(g),
{
    g.wrapping_add(1)
}

/// Where a page stands in copying to the clipboard.
#[derive(Clone, Copy, Debug, PartialEq, Eq, Structural)]
pub enum CopyState {
    Idle,
    Copying,
    Done,
}

/// What the session knows of one page.
#[derive(Clone, Copy, Debug, PartialEq, Eq)]
pub struct PageState {
    /// A thumbnail is shown for the page.
    pub has_texture: bool,
    /// An image of the page is held (on a desktop: a full-resolution render
    /// ready to copy; in a browser: a render was requested).
    pub has_image: bool,
    /// The last render of the page was at full resolution.
    pub is_full_res: bool,
    pub copy_state: CopyState,
    /// The last render of the page failed.
    pub render_failed: bool,
}

/// A page that nothing has been done with yet.
pub open spec fn fresh_page() -> PageState {
    PageState {
        has_texture: false,
        has_image: false,
        is_full_res: false,
        copy_state: CopyState::Idle,
        render_failed: false,
    }
}

/// The state of a viewing session.
#[derive(Debug)]
pub struct Session {
    /// Generation of the open document.
    pub doc_gen: u32,
    /// Generation of the thumbnail renders.
    pub render_gen: u32,
    /// Generation of the copy to the clipboard.
    pub copy_gen: u32,
    /// Generation of the download.
    pub download_gen: u32,
    /// A download is under way.
    pub is_downloading: bool,
    /// A downloaded document is being opened.
    pub url_doc_loading: bool,
    /// A document is open.
    pub has_document: bool,
    pub page_count: u32,
    pub pages: Vec<PageState>,
    pub selected_page: Option<usize>,
    pub copied_page: Option<usize>,
}

/// The download and document status of two sessions agree: whether a
/// download is under way or being opened, whether a document is open, and its
/// page count.
pub open spec fn same_status(a: Session, b: Session) -> bool {
    &&& a.is_downloading == b.is_downloading
    &&& a.url_doc_loading == b.url_doc_loading
    &&& a.has_document == b.has_document
    &&& a.page_count == b.page_count
}

/// What became of a finished download.
#[derive(Clone, Copy, Debug, PartialEq, Eq)]
pub enum DownloadOutcome {
    /// It belongs to a superseded or cancelled download.
    Ignored,
    /// Its bytes are to be opened.
    Open,
    /// It failed.
    Failed,
}

/// What became of a finished document load.
#[derive(Clone, Copy, Debug, PartialEq, Eq)]
pub enum LoadOutcome {
    /// It belongs to a superseded document.
    Ignored,
    /// The document is open with this many pages; thumbnails are to be rendered.
    Opened(u32),
    /// It failed.
    Failed,
}

/// The pages after a copy of page `page` starts: that page is being copied,
/// and a page whose copy had finished is idle again.
pub open spec fn pages_copy_started(pages: Seq<PageState>, page: int) -> Seq<PageState> {
    Seq::new(
        pages.len(),
        |i: int|
            if i == page {
                PageState { copy_state: CopyState::Copying, ..pages[i] }
            } else if pages[i].copy_state == CopyState::Done {
                PageState { copy_state: CopyState::Idle, ..pages[i] }
            } else {
                pages[i]
            },
    )
}

/// The state of a page after a thumbnail or full render of it arrives. A
/// desktop keeps a full-resolution image to copy from; a browser only records
/// that the render was done.
pub open spec fn page_rendered(p: PageState, is_full: bool, in_browser: bool) -> PageState {
    PageState {
        has_texture: if !is_full || !p.has_texture {
            true
        } else {
            p.has_texture
        },
        has_image: if in_browser || is_full {
            true
        } else {
            p.has_image
        },
        is_full_res: is_full,
        render_failed: false,
        copy_state: p.copy_state,
    }
}

/// The state of a page after its render fails.
pub open spec fn page_render_failed(p: PageState) -> PageState {
    PageState { has_texture: false, render_failed: true, ..p }
}

/// The state of a page when its thumbnails are to be rendered again.
pub open spec fn page_reset_for_rerender(p: PageState, in_browser: bool) -> PageState {
    PageState {
        has_texture: false,
        render_failed: false,
        has_image: if in_browser {
            false
        } else {
            p.has_image
        },
        ..p
    }
}

/// `n` fresh pages.
pub open spec fn fresh_pages(n: nat) -> Seq<PageState> {
    Seq::new(n, |i: int| fresh_page())
}

fn make_fresh_pages(n: u32) -> (r: Vec<PageState>)
    ensures
        r@ == fresh_pages(n as nat),
{
    let mut v: Vec<PageState> = Vec::new();
    let mut i: u32 = 0;
    while i < n
        invariant
            i <= n,
            v@ == fresh_pages(i as nat),
        decreases n - i,
    {
        v.push(
            PageState {
                has_texture: false,
                has_image: false,
                is_full_res: false,
                copy_state: CopyState::Idle,
                render_failed: false,
            },
        );
        i = i + 1;
        assert(v@ =~= fresh_pages(i as nat));
    }
    v
}

fn reset_pages(pages: &mut Vec<PageState>, in_browser: bool)
    ensures
        final(pages)@ == Seq::new(
            old(pages)@.len(),
            |i: int| page_reset_for_rerender(old(pages)@[i], in_browser),
        ),
{
    let ghost old_pages = pages@;
    let n = pages.len();
    let mut i: usize = 0;
    while i < n
        invariant
            n == old_pages.len() == pages@.len(),
            i <= n,
            forall|k: int|
                0 <= k < n ==> #[trigger] pages@[k] == if k < i {
                    page_reset_for_rerender(old_pages[k], in_browser)
                } else {
                    old_pages[k]
                },
        decreases n - i,
    {
        let p = pages[i];
        let q = PageState {
            has_texture: false,
            render_failed: false,
            has_image: if in_browser {
                false
            } else {
                p.has_image
            },
            ..p
        };
        pages.set(i, q);
        i = i + 1;
    }
    assert(pages@ =~= Seq::new(
        old_pages.len(),
        |k: int| page_reset_for_rerender(old_pages[k], in_browser),
    ));
}

fn mark_copy_started(pages: &mut Vec<PageState>, page: usize)
    requires
        page < old(pages)@.len(),
    ensures
        final(pages)@ == pages_copy_started(old(pages)@, page as int),
{
    let ghost old_pages = pages@;
    let n = pages.len();
    let mut i: usize = 0;
    while i < n
        invariant
            n == old_pages.len() == pages@.len(),
            i <= n,
            page < n,
            forall|k: int|
                0 <= k < n ==> #[trigger] pages@[k] == if k < i && old_pages[k].copy_state
                    == CopyState::Done {
                    PageState { copy_state: CopyState::Idle, ..old_pages[k] }
                } else {
                    old_pages[k]
                },
        decreases n - i,
    {
        let p = pages[i];
        if p.copy_state == CopyState::Done {
            pages.set(i, PageState { copy_state: CopyState::Idle, ..p });
        }
        i = i + 1;
    }
    let p = pages[page];
    pages.set(page, PageState { copy_state: CopyState::Copying, ..p });
    assert(pages@ =~= pages_copy_started(old_pages, page as int));
}

impl Session {
    /// A session with no document, as the viewer starts.
    pub fn new() -> (s: Self)
        ensures
            s.doc_gen == 0 && s.render_gen == 0 && s.copy_gen == 0 && s.download_gen == 0,
            !s.is_downloading && !s.url_doc_loading && !s.has_document,
            s.page_count == 0,
            s.pages@.len() == 0,
            s.selected_page is None && s.copied_page is None,
    {
        Session {
            doc_gen: 0,
            render_gen: 0,
            copy_gen: 0,
            download_gen: 0,
            is_downloading: false,
            url_doc_loading: false,
            has_document: false,
            page_count: 0,
            pages: Vec::new(),
            selected_page: None,
            copied_page: None,
        }
    }

    /// Opening a file from disk starts (on a desktop): any download is
    /// dropped and the document, render and copy generations move on. Returns
    /// the generation the file is loaded under.
    pub fn start_file_load(&mut self) -> (doc_gen: u32)
        ensures
            final(self).download_gen == next_gen(old(self).download_gen),
            !final(self).is_downloading && !final(self).url_doc_loading,
            final(self).doc_gen == next_gen(old(self).doc_gen),
            doc_gen == final(self).doc_gen,
            final(self).render_gen == next_gen(old(self).render_gen),
            final(self).copy_gen == next_gen(old(self).copy_gen),
            final(self).has_document == old(self).has_document,
            final(self).page_count == old(self).page_count,
            final(self).pages@ == old(self).pages@,
            final(self).selected_page == old(self).selected_page,
            final(self).copied_page == old(self).copied_page,
    {
        self.download_gen = bump(self.download_gen);
        self.is_downloading = false;
        self.url_doc_loading = false;
        self.doc_gen = bump(self.doc_gen);
        self.render_gen = bump(self.render_gen);
        self.copy_gen = bump(self.copy_gen);
        self.doc_gen
    }

    /// Dropped bytes are about to be opened: any download is dropped.
    pub fn start_bytes_load(&mut self)
        ensures
            final(self).download_gen == next_gen(old(self).download_gen),
            !final(self).is_downloading && !final(self).url_doc_loading,
            final(self).doc_gen == old(self).doc_gen,
            final(self).render_gen == old(self).render_gen,
            final(self).copy_gen == old(self).copy_gen,
            final(self).has_document == old(self).has_document,
            final(self).page_count == old(self).page_count,
            final(self).pages@ == old(self).pages@,
            final(self).selected_page == old(self).selected_page,
            final(self).copied_page == old(self).copied_page,
    {
        self.download_gen = bump(self.download_gen);
        self.is_downloading = false;
        self.url_doc_loading = false;
    }

    /// Opens loaded bytes. Bytes that are not a PDF are refused: the
    /// download state is cleared and nothing else changes. Otherwise the open
    /// document is closed, the generations move on and the new document's
    /// generation is returned, to load it under.
    pub fn open_bytes(&mut self, bytes: &[u8]) -> (r: Option<u32>)
        ensures
            !is_pdf_data(bytes@) ==> r is None && !final(self).is_downloading
                && !final(self).url_doc_loading && final(self).doc_gen == old(self).doc_gen
                && final(self).render_gen == old(self).render_gen && final(self).copy_gen == old(self).copy_gen && final(self).download_gen == old(self).download_gen
                && final(self).has_document == old(self).has_document && final(self).page_count
                == old(self).page_count && final(self).pages@ == old(self).pages@
                && final(self).selected_page == old(self).selected_page && final(self).copied_page == old(self).copied_page,
            is_pdf_data(bytes@) ==> r == Some(final(self).doc_gen) && final(self).doc_gen
                == next_gen(old(self).doc_gen) && final(self).render_gen == next_gen(
                old(self).render_gen,
            ) && final(self).copy_gen == next_gen(old(self).copy_gen) && final(self).download_gen
                == old(self).download_gen && final(self).is_downloading == old(self).is_downloading
                && final(self).url_doc_loading == old(self).url_doc_loading && !final(self).has_document && final(self).page_count == 0 && final(self).pages@.len() == 0
                && final(self).selected_page is None && final(self).copied_page is None,
    {
        if !crate::viewer::is_pdf(bytes) {
            self.is_downloading = false;
            self.url_doc_loading = false;
            return None;
        }
        self.pages = Vec::new();
        self.has_document = false;
        self.copied_page = None;
        self.selected_page = None;
        self.page_count = 0;
        self.doc_gen = bump(self.doc_gen);
        self.render_gen = bump(self.render_gen);
        self.copy_gen = bump(self.copy_gen);
        Some(self.doc_gen)
    }

    /// A download starts; returns its generation. In a browser the open
    /// document is closed at once, and the generation it was cancelled under
    /// is returned too.
    pub fn start_download(&mut self, in_browser: bool) -> (r: (u32, Option<u32>))
        ensures
            final(self).download_gen == next_gen(old(self).download_gen),
            r.0 == final(self).download_gen,
            final(self).is_downloading && !final(self).url_doc_loading,
            !in_browser ==> r.1 is None && final(self).doc_gen == old(self).doc_gen
                && final(self).render_gen == old(self).render_gen && final(self).copy_gen == old(self).copy_gen && final(self).has_document == old(self).has_document && final(self).page_count == old(self).page_count && final(self).pages@ == old(self).pages@
                && final(self).selected_page == old(self).selected_page && final(self).copied_page == old(self).copied_page,
            in_browser ==> r.1 == Some(final(self).doc_gen) && final(self).doc_gen == next_gen(
                old(self).doc_gen,
            ) && final(self).render_gen == next_gen(old(self).render_gen) && final(self).copy_gen
                == next_gen(old(self).copy_gen) && !final(self).has_document && final(self).page_count == 0 && final(self).pages@.len() == 0 && final(self).selected_page is None
                && final(self).copied_page is None,
    {
        self.download_gen = bump(self.download_gen);
        self.is_downloading = true;
        self.url_doc_loading = false;
        if !in_browser {
            return (self.download_gen, None);
        }
        self.doc_gen = bump(self.doc_gen);
        self.render_gen = bump(self.render_gen);
        self.copy_gen = bump(self.copy_gen);
        self.pages = Vec::new();
        self.has_document = false;
        self.copied_page = None;
        self.selected_page = None;
        self.page_count = 0;
        (self.download_gen, Some(self.doc_gen))
    }

    /// The user cancels loading from a URL: the download is dropped and, when
    /// the downloaded document was being opened, so is that document, whose
    /// cancelled generation is returned.
    pub fn cancel_download(&mut self) -> (r: Option<u32>)
        ensures
            final(self).download_gen == next_gen(old(self).download_gen),
            !final(self).is_downloading && !final(self).url_doc_loading,
            old(self).url_doc_loading ==> r == Some(final(self).doc_gen) && final(self).doc_gen
                == next_gen(old(self).doc_gen) && final(self).render_gen == next_gen(
                old(self).render_gen,
            ),
            !old(self).url_doc_loading ==> r is None && final(self).doc_gen == old(self).doc_gen
                && final(self).render_gen == old(self).render_gen,
            final(self).copy_gen == old(self).copy_gen,
            final(self).has_document == old(self).has_document,
            final(self).page_count == old(self).page_count,
            final(self).pages@ == old(self).pages@,
            final(self).selected_page == old(self).selected_page,
            final(self).copied_page == old(self).copied_page,
    {
        self.download_gen = bump(self.download_gen);
        self.is_downloading = false;
        let cancel_document_load = self.url_doc_loading;
        self.url_doc_loading = false;
        if cancel_document_load {
            self.doc_gen = bump(self.doc_gen);
            self.render_gen = bump(self.render_gen);
            Some(self.doc_gen)
        } else {
            None
        }
    }

    /// A download finished. It is taken only while it is the current download
    /// and downloading is still under way; its bytes are then to be opened,
    /// or its failure ends the download.
    pub fn finish_download(&mut self, download_gen: u32, ok: bool) -> (r: DownloadOutcome)
        ensures
            !(download_gen == old(self).download_gen && old(self).is_downloading) ==> r
                == DownloadOutcome::Ignored && *final(self) == *old(self),
            download_gen == old(self).download_gen && old(self).is_downloading && ok ==> r
                == DownloadOutcome::Open && final(self).url_doc_loading && final(self).is_downloading && final(self).pages@ == old(self).pages@,
            download_gen == old(self).download_gen && old(self).is_downloading && !ok ==> r
                == DownloadOutcome::Failed && !final(self).url_doc_loading && !final(self).is_downloading && final(self).pages@ == old(self).pages@,
            final(self).doc_gen == old(self).doc_gen,
            final(self).render_gen == old(self).render_gen,
            final(self).copy_gen == old(self).copy_gen,
            final(self).download_gen == old(self).download_gen,
            final(self).has_document == old(self).has_document,
            final(self).page_count == old(self).page_count,
            final(self).selected_page == old(self).selected_page,
            final(self).copied_page == old(self).copied_page,
    {
        if !(download_gen == self.download_gen && self.is_downloading) {
            return DownloadOutcome::Ignored;
        }
        if ok {
            self.url_doc_loading = true;
            DownloadOutcome::Open
        } else {
            self.is_downloading = false;
            self.url_doc_loading = false;
            DownloadOutcome::Failed
        }
    }

    /// Loading a document finished, with its page count or a failure. It is
    /// taken only while its generation is the open document's; a loaded
    /// document then replaces the pages with fresh ones and selects the first.
    pub fn finish_load(&mut self, doc_gen: u32, page_count: Option<u32>) -> (r: LoadOutcome)
        ensures
            doc_gen != old(self).doc_gen ==> r == LoadOutcome::Ignored && *final(self) == *old(self),
            doc_gen == old(self).doc_gen ==> !final(self).is_downloading && !final(self).url_doc_loading,
            doc_gen == old(self).doc_gen && page_count is Some ==> r == LoadOutcome::Opened(
                page_count->0,
            ) && final(self).has_document && final(self).page_count == page_count->0 && final(self).pages@ == fresh_pages(page_count->0 as nat) && final(self).selected_page == Some(
                0usize,
            ) && final(self).copied_page is None,
            doc_gen == old(self).doc_gen && page_count is None ==> r == LoadOutcome::Failed
                && final(self).has_document == old(self).has_document && final(self).page_count
                == old(self).page_count && final(self).pages@ == old(self).pages@ && final(self).selected_page == old(self).selected_page && final(self).copied_page == old(self).copied_page,
            final(self).doc_gen == old(self).doc_gen,
            final(self).render_gen == old(self).render_gen,
            final(self).copy_gen == old(self).copy_gen,
            final(self).download_gen == old(self).download_gen,
    {
        if doc_gen != self.doc_gen {
            return LoadOutcome::Ignored;
        }
        self.is_downloading = false;
        self.url_doc_loading = false;
        match page_count {
            Some(n) => {
                self.page_count = n;
                self.copied_page = None;
                self.selected_page = Some(0);
                self.pages = make_fresh_pages(n);
                self.has_document = true;
                LoadOutcome::Opened(n)
            },
            None => LoadOutcome::Failed,
        }
    }

    /// Thumbnails of the open document are to be rendered: the render
    /// generation moves on and is returned, to render under.
    pub fn start_render(&mut self) -> (render_gen: u32)
        ensures
            same_status(*old(self), *final(self)),
            final(self).selected_page == old(self).selected_page,
            final(self).copied_page == old(self).copied_page,
            final(self).render_gen == next_gen(old(self).render_gen),
            render_gen == final(self).render_gen,
            final(self).doc_gen == old(self).doc_gen,
            final(self).copy_gen == old(self).copy_gen,
            final(self).download_gen == old(self).download_gen,
            final(self).pages@ == old(self).pages@,
    {
        self.render_gen = bump(self.render_gen);
        self.render_gen
    }

    /// The thumbnails are to be rendered again at another size: every
    /// thumbnail is dropped (in a browser also the record of renders, and the
    /// render generation moves on). Nothing happens without an open document
    /// of at least one page; returns whether the thumbnails were dropped.
    pub fn reset_thumbnails(&mut self, in_browser: bool) -> (r: bool)
        ensures
            same_status(*old(self), *final(self)),
            final(self).selected_page == old(self).selected_page,
            final(self).copied_page == old(self).copied_page,
            r == (old(self).has_document && old(self).page_count != 0),
            !r ==> *final(self) == *old(self),
            r ==> final(self).pages@ == Seq::new(
                old(self).pages@.len(),
                |i: int| page_reset_for_rerender(old(self).pages@[i], in_browser),
            ),
            r && in_browser ==> final(self).render_gen == next_gen(old(self).render_gen),
            !(r && in_browser) ==> final(self).render_gen == old(self).render_gen,
            final(self).doc_gen == old(self).doc_gen,
            final(self).copy_gen == old(self).copy_gen,
            final(self).download_gen == old(self).download_gen,
            final(self).page_count == old(self).page_count,
            final(self).has_document == old(self).has_document,
    {
        if !self.has_document || self.page_count == 0 {
            return false;
        }
        if in_browser {
            self.render_gen = bump(self.render_gen);
        }
        reset_pages(&mut self.pages, in_browser);
        true
    }

    /// A browser starts rendering the thumbnail of `page`.
    pub fn mark_render_requested(&mut self, page: usize)
        requires
            page < old(self).pages@.len(),
        ensures
            same_status(*old(self), *final(self)),
            final(self).selected_page == old(self).selected_page,
            final(self).copied_page == old(self).copied_page,
            final(self).pages@ == old(self).pages@.update(
                page as int,
                PageState { has_image: true, ..old(self).pages@[page as int] },
            ),
            final(self).doc_gen == old(self).doc_gen,
            final(self).render_gen == old(self).render_gen,
            final(self).copy_gen == old(self).copy_gen,
            final(self).download_gen == old(self).download_gen,
    {
        let p = self.pages[page];
        self.pages.set(page, PageState { has_image: true, ..p });
    }

    /// A render of `page` arrived. It is taken only while its generation is
    /// current and the page exists; returns whether it was taken.
    pub fn finish_render(&mut self, render_gen: u32, page: usize, is_full: bool, in_browser: bool) -> (r: bool)
        ensures
            same_status(*old(self), *final(self)),
            r == (render_gen == old(self).render_gen && page < old(self).pages@.len()),
            !r ==> *final(self) == *old(self),
            r ==> final(self).pages@ == old(self).pages@.update(
                page as int,
                page_rendered(old(self).pages@[page as int], is_full, in_browser),
            ),
            final(self).doc_gen == old(self).doc_gen,
            final(self).render_gen == old(self).render_gen,
            final(self).copy_gen == old(self).copy_gen,
            final(self).download_gen == old(self).download_gen,
            final(self).selected_page == old(self).selected_page,
            final(self).copied_page == old(self).copied_page,
    {
        if !(render_gen == self.render_gen && page < self.pages.len()) {
            return false;
        }
        let p = self.pages[page];
        let q = PageState {
            has_texture: if !is_full || !p.has_texture {
                true
            } else {
                p.has_texture
            },
            has_image: if in_browser || is_full {
                true
            } else {
                p.has_image
            },
            is_full_res: is_full,
            render_failed: false,
            copy_state: p.copy_state,
        };
        self.pages.set(page, q);
        true
    }

    /// A render of `page` failed. It is taken only while its generation is
    /// current and the page exists; returns whether it was taken.
    pub fn fail_render(&mut self, render_gen: u32, page: usize) -> (r: bool)
        ensures
            same_status(*old(self), *final(self)),
            r == (render_gen == old(self).render_gen && page < old(self).pages@.len()),
            !r ==> *final(self) == *old(self),
            r ==> final(self).pages@ == old(self).pages@.update(
                page as int,
                page_render_failed(old(self).pages@[page as int]),
            ),
            final(self).doc_gen == old(self).doc_gen,
            final(self).render_gen == old(self).render_gen,
            final(self).copy_gen == old(self).copy_gen,
            final(self).download_gen == old(self).download_gen,
            final(self).selected_page == old(self).selected_page,
            final(self).copied_page == old(self).copied_page,
    {
        if !(render_gen == self.render_gen && page < self.pages.len()) {
            return false;
        }
        let p = self.pages[page];
        self.pages.set(page, PageState { has_texture: false, render_failed: true, ..p });
        true
    }

    /// Copying `page` to the clipboard starts. Nothing happens for a page
    /// that does not exist; otherwise the copy generation moves on, the page is
    /// marked as being copied and any page whose copy had finished is idle
    /// again. Returns the document and copy generations the copy runs under.
    pub fn start_copy(&mut self, page: usize) -> (r: Option<(u32, u32)>)
        ensures
            same_status(*old(self), *final(self)),
            page >= old(self).pages@.len() ==> r is None && *final(self) == *old(self),
            page < old(self).pages@.len() ==> r == Some((final(self).doc_gen, final(self).copy_gen))
                && final(self).copy_gen == next_gen(old(self).copy_gen) && final(self).pages@
                == pages_copy_started(old(self).pages@, page as int),
            final(self).doc_gen == old(self).doc_gen,
            final(self).render_gen == old(self).render_gen,
            final(self).download_gen == old(self).download_gen,
            final(self).selected_page == old(self).selected_page,
            final(self).copied_page == old(self).copied_page,
    {
        if page >= self.pages.len() {
            return None;
        }
        self.copy_gen = bump(self.copy_gen);
        mark_copy_started(&mut self.pages, page);
        Some((self.doc_gen, self.copy_gen))
    }

    /// Whether a copy of `page` can use the image already at hand
    /// (`image_held`): it can when the last render of the page was at full
    /// resolution and its image is held. Such a copy makes the page the
    /// selected one; otherwise nothing changes.
    pub fn take_held_copy(&mut self, page: usize, image_held: bool) -> (r: bool)
        requires
            page < old(self).pages@.len(),
        ensures
            r == (old(self).pages@[page as int].is_full_res && image_held),
            r ==> *final(self) == (Session { selected_page: Some(page), ..*old(self) }),
            !r ==> *final(self) == *old(self),
    {
        if self.pages[page].is_full_res && image_held {
            self.selected_page = Some(page);
            true
        } else {
            false
        }
    }

    /// A copy could not even be started: the page is idle again.
    pub fn abort_copy(&mut self, page: usize)
        requires
            page < old(self).pages@.len(),
        ensures
            same_status(*old(self), *final(self)),
            final(self).selected_page == old(self).selected_page,
            final(self).copied_page == old(self).copied_page,
            final(self).pages@ == old(self).pages@.update(
                page as int,
                PageState { copy_state: CopyState::Idle, ..old(self).pages@[page as int] },
            ),
            final(self).doc_gen == old(self).doc_gen,
            final(self).render_gen == old(self).render_gen,
            final(self).copy_gen == old(self).copy_gen,
            final(self).download_gen == old(self).download_gen,
    {
        let p = self.pages[page];
        self.pages.set(page, PageState { copy_state: CopyState::Idle, ..p });
    }

    /// A copy finished, successfully or not. It is taken only while its
    /// document and copy generations are current and the page exists: the
    /// page is then done and recorded as copied, or idle again after a
    /// failure. Returns whether it was taken.
    pub fn finish_copy(&mut self, doc_gen: u32, copy_gen: u32, page: usize, ok: bool) -> (r: bool)
        ensures
            same_status(*old(self), *final(self)),
            r == (doc_gen == old(self).doc_gen && copy_gen == old(self).copy_gen && page < old(self).pages@.len()),
            !r ==> *final(self) == *old(self),
            r && ok ==> final(self).pages@ == old(self).pages@.update(
                page as int,
                PageState { copy_state: CopyState::Done, ..old(self).pages@[page as int] },
            ) && final(self).copied_page == Some(page),
            r && !ok ==> final(self).pages@ == old(self).pages@.update(
                page as int,
                PageState { copy_state: CopyState::Idle, ..old(self).pages@[page as int] },
            ) && final(self).copied_page == old(self).copied_page,
            final(self).doc_gen == old(self).doc_gen,
            final(self).render_gen == old(self).render_gen,
            final(self).copy_gen == old(self).copy_gen,
            final(self).download_gen == old(self).download_gen,
            final(self).selected_page == old(self).selected_page,
    {
        if !(doc_gen == self.doc_gen && copy_gen == self.copy_gen && page < self.pages.len()) {
            return false;
        }
        let p = self.pages[page];
        if ok {
            self.pages.set(page, PageState { copy_state: CopyState::Done, ..p });
            self.copied_page = Some(page);
        } else {
            self.pages.set(page, PageState { copy_state: CopyState::Idle, ..p });
        }
        true
    }

    /// Some page of the open document still waits for its first thumbnail:
    /// it has none and its render has not failed.
    pub fn has_pending_render(&self) -> (r: bool)
        ensures
            r == (self.page_count > 0 && exists|i: int|
                0 <= i < self.pages@.len() && !(#[trigger] self.pages@[i]).has_texture
                    && !self.pages@[i].render_failed),
    {
        if self.page_count == 0 {
            return false;
        }
        let mut i: usize = 0;
        while i < self.pages.len()
            invariant
                self.page_count > 0,
                i <= self.pages@.len(),
                forall|k: int|
                    0 <= k < i ==> (#[trigger] self.pages@[k]).has_texture
                        || self.pages@[k].render_failed,
            decreases self.pages@.len() - i,
        {
            let p = self.pages[i];
            if !p.has_texture && !p.render_failed {
                assert(!self.pages@[i as int].has_texture && !self.pages@[i as int].render_failed);
                return true;
            }
            i = i + 1;
        }
        false
    }
}

/// Once a copy starts, no page is done copying and exactly the chosen page is
/// being copied; pages that were being copied stay so.
pub proof fn law_copy_start_marks_one_page(pages: Seq<PageState>, page: int)
    requires
        0 <= page < pages.len(),
    ensures
        pages_copy_started(pages, page)[page].copy_state == CopyState::Copying,
        forall|i: int|
            0 <= i < pages.len() ==> (#[trigger] pages_copy_started(pages, page)[i]).copy_state
                != CopyState::Done,
        forall|i: int|
            0 <= i < pages.len() && i != page ==> ((#[trigger] pages_copy_started(
                pages,
                page,
            )[i]).copy_state == CopyState::Copying <==> pages[i].copy_state == CopyState::Copying),
{
}

/// Once any render of a page is taken, thumbnail or full resolution, the page
/// shows a thumbnail and no longer waits for one; its render has not failed,
/// it is marked as full resolution exactly when this render was, a full
/// render on a desktop leaves its image at hand, and its copy state is
/// untouched.
pub proof fn law_rendered_page_has_thumbnail(
    pages: Seq<PageState>,
    page: int,
    is_full: bool,
    in_browser: bool,
)
    requires
        0 <= page < pages.len(),
    ensures
        ({
            let after = pages.update(page, page_rendered(pages[page], is_full, in_browser));
            &&& after[page].has_texture
            &&& !after[page].render_failed
            &&& after[page].is_full_res == is_full
            &&& is_full ==> after[page].has_image
            &&& after[page].copy_state == pages[page].copy_state
            &&& forall|i: int| 0 <= i < pages.len() && i != page ==> #[trigger] after[i] == pages[i]
            &&& forall|i: int|
                0 <= i < after.len() && !(#[trigger] after[i]).has_texture ==> i != page
        }),
{
}

/// A generation counter never stays the same when it moves on: once new work
/// starts, a result tagged with the generation before it is told apart from
/// the new work's and dropped.
pub proof fn law_generation_moves_on(g: u32)
    ensures
        next_gen(g) != g,
{
}

} // verus!
