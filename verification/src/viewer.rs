//! Decisions of the page viewer: thumbnail sizes, language, render order,
//! keyboard navigation, download sources and the checks on what was loaded.
use vstd::prelude::*;
use vstd::string::StringSliceAdditionalSpecFns;

use crate::text::{chars_of, trim, trim_indices};

verus! {

// ---------------------------------------------------------------------------
// Thumbnail sizes
// ---------------------------------------------------------------------------
/// `v` clamped to `lo..=hi`.
pub open spec fn clamp(v: int, lo: int, hi: int) -> int {
    if v < lo {
        lo
    } else if v > hi {
        hi
    } else {
        v
    }
}

/// A thumbnail size in pixels, clamped to 80..=1024 and rounded down to a
/// multiple of 8.
pub open spec fn normalized_thumb_size(size: int) -> int {
    (clamp(size, 80, 1024) / 8) * 8
}

/// Normalizes the displayed thumbnail size.
pub fn normalize_thumb_size(size: u32) -> (r: u32)
    ensures
        r == normalized_thumb_size(size as int),
{
    let c = if size < 80 {
        80
    } else if size > 1024 {
        1024
    } else {
        size
    };
    (c / 8) * 8
}

/// Normalizes the size thumbnails are rendered at.
pub fn normalize_thumb_cache_size(size: u32) -> (r: u32)
    ensures
        r == normalized_thumb_size(size as int),
{
    let c = if size < 80 {
        80
    } else if size > 1024 {
        1024
    } else {
        size
    };
    (c / 8) * 8
}

/// A normalized size is a multiple of 8 in 80..=1024, and normalizing it again
/// leaves it as it is.
pub proof fn law_thumb_size_normal_form(size: int)
    ensures
        80 <= normalized_thumb_size(size) <= 1024,
        normalized_thumb_size(size) % 8 == 0,
        normalized_thumb_size(normalized_thumb_size(size)) == normalized_thumb_size(size),
{
}

/// The render size of thumbnails on a desktop with `total_gb` GiB of memory
/// of which `avail_gb` GiB are free: the smaller of the sizes each allows.
pub open spec fn cache_size_for_memory_gb(total_gb: int, avail_gb: int) -> int {
    let by_total: int = if total_gb <= 4 {
        120
    } else if total_gb <= 8 {
        200
    } else {
        320
    };
    let by_avail: int = if avail_gb < 1 {
        80
    } else if avail_gb < 2 {
        120
    } else if avail_gb < 4 {
        200
    } else {
        320
    };
    clamp(if by_total < by_avail {
        by_total
    } else {
        by_avail
    }, 80, 320)
}

/// The render size of thumbnails for the memory the system reports, in
/// bytes (total, available), or 200 when it reported nothing.
pub open spec fn thumb_cache_size_for(memory: Option<(u64, u64)>) -> int {
    match memory {
        None => 200,
        Some((total, avail)) => cache_size_for_memory_gb(
            total as int / 1073741824,
            avail as int / 1073741824,
        ),
    }
}

/// Chooses the render size of thumbnails from the physical memory the system
/// reports, in bytes (total, available).
pub fn thumb_cache_size_for_memory(memory: Option<(u64, u64)>) -> (r: u32)
    ensures
        r == thumb_cache_size_for(memory),
{
    let (total, avail) = match memory {
        None => return 200,
        Some(m) => m,
    };
    let gb: u64 = 1024 * 1024 * 1024;
    let total_gb = total / gb;
    let avail_gb = avail / gb;
    let by_total: u32 = if total_gb <= 4 {
        120
    } else if total_gb <= 8 {
        200
    } else {
        320
    };
    let by_avail: u32 = if avail_gb < 1 {
        80
    } else if avail_gb < 2 {
        120
    } else if avail_gb < 4 {
        200
    } else {
        320
    };
    let m = if by_total < by_avail {
        by_total
    } else {
        by_avail
    };
    if m < 80 {
        80
    } else if m > 320 {
        320
    } else {
        m
    }
}

/// How many thumbnails to render at once in a browser: half the hardware
/// threads (2 when unknown), at least 1 and at most 3.
pub open spec fn thumbnail_parallelism_for(hardware_threads: Option<usize>) -> int {
    let threads = match hardware_threads {
        Some(t) => t as int,
        None => 2,
    };
    clamp(threads / 2, 1, 3)
}

/// Chooses how many thumbnails to render at once in a browser.
pub fn thumbnail_parallelism(hardware_threads: Option<usize>) -> (r: usize)
    ensures
        r == thumbnail_parallelism_for(hardware_threads),
{
    let threads = match hardware_threads {
        Some(t) => t,
        None => 2,
    };
    let half = threads / 2;
    if half < 1 {
        1
    } else if half > 3 {
        3
    } else {
        half
    }
}

// ---------------------------------------------------------------------------
// Language
// ---------------------------------------------------------------------------
/// The languages of the user interface.
#[derive(Clone, Copy, Debug, PartialEq, Eq)]
pub enum Language {
    English,
    Japanese,
}

/// A locale tag names Japanese when it starts with `ja`, in any letter case.
pub open spec fn is_japanese_locale(locale: Seq<char>) -> bool {
    locale.len() >= 2 && (locale[0] == 'j' || locale[0] == 'J') && (locale[1] == 'a' || locale[1]
        == 'A')
}

/// The language for the system locale: Japanese for a Japanese locale,
/// English otherwise and when the locale is unknown.
pub open spec fn language_for(locale: Option<Seq<char>>) -> Language {
    match locale {
        Some(l) => if is_japanese_locale(l) {
            Language::Japanese
        } else {
            Language::English
        },
        None => Language::English,
    }
}

/// Chooses the interface language from the system locale.
pub fn language_from_locale(locale: Option<String>) -> (r: Language)
    ensures
        r == language_for(
            match locale {
                Some(l) => Some(l@),
                None => None,
            },
        ),
{
    match locale {
        None => Language::English,
        Some(l) => {
            let c = chars_of(l.as_str());
            if c.len() >= 2 && (c[0] == 'j' || c[0] == 'J') && (c[1] == 'a' || c[1] == 'A') {
                Language::Japanese
            } else {
                Language::English
            }
        },
    }
}

// ---------------------------------------------------------------------------
// Render order
// ---------------------------------------------------------------------------
/// Page `i` still needs a thumbnail: it has none and none is being rendered.
pub open spec fn is_render_candidate(has_image: Seq<bool>, in_flight: Seq<usize>, i: int) -> bool {
    0 <= i < has_image.len() && !has_image[i] && (forall|k: int| 0 <= k < in_flight.len() ==> in_flight[k] != i)
}

/// The page the search around `center` settles on after looking at the
/// distances `offset..n`, when it has found `found` so far: at each distance
/// the page before the center wins, and the page after it is looked at only
/// when nothing has been found.
pub open spec fn render_search(
    has_image: Seq<bool>,
    in_flight: Seq<usize>,
    center: int,
    offset: int,
    found: Option<int>,
) -> Option<int>
    decreases has_image.len() - offset,
{
    if offset >= has_image.len() || offset < 1 {
        found
    } else {
        let before = if center >= offset && is_render_candidate(
            has_image,
            in_flight,
            center - offset,
        ) {
            Some(center - offset)
        } else {
            found
        };
        let after = if before is None && center + offset < has_image.len() && is_render_candidate(
            has_image,
            in_flight,
            center + offset,
        ) {
            Some(center + offset)
        } else {
            before
        };
        if after is Some {
            after
        } else {
            render_search(has_image, in_flight, center, offset + 1, after)
        }
    }
}

/// The center of the render search: the selected page (the first when none
/// is selected), at most the last page.
pub open spec fn render_center(n: int, selected: Option<usize>) -> int {
    let s = match selected {
        Some(s) => s as int,
        None => 0,
    };
    if s < n - 1 {
        s
    } else {
        n - 1
    }
}

/// The next page whose thumbnail to render, searching outwards from the
/// selected page.
pub open spec fn next_render_target_for(
    has_image: Seq<bool>,
    in_flight: Seq<usize>,
    selected: Option<usize>,
) -> Option<int> {
    if has_image.len() == 0 {
        None
    } else {
        let center = render_center(has_image.len() as int, selected);
        let first = if is_render_candidate(has_image, in_flight, center) {
            Some(center)
        } else {
            None
        };
        render_search(has_image, in_flight, center, 1, first)
    }
}

/// Whether `v` holds `x`.
fn vec_contains(v: &Vec<usize>, x: usize) -> (r: bool)
    ensures
        r == v@.contains(x),
{
    let mut i: usize = 0;
    while i < v.len()
        invariant
            i <= v@.len(),
            forall|k: int| 0 <= k < i ==> v@[k] != x,
        decreases v@.len() - i,
    {
        if v[i] == x {
            return true;
        }
        i = i + 1;
    }
    false
}

/// Whether page `i` still needs a thumbnail.
pub fn render_candidate(has_image: &Vec<bool>, in_flight: &Vec<usize>, i: usize) -> (r: bool)
    requires
        i < has_image@.len(),
    ensures
        r == is_render_candidate(has_image@, in_flight@, i as int),
{
    !has_image[i] && !vec_contains(in_flight, i)
}

/// An optional index seen as an optional mathematical integer.
pub open spec fn opt_usize_as_int(o: Option<usize>) -> Option<int> {
    match o {
        Some(v) => Some(v as int),
        None => None,
    }
}

/// Chooses the next page whose thumbnail to render: the selected page or the
/// pages around it, or `None` when no page needs one.
pub fn next_render_target(
    has_image: &Vec<bool>,
    in_flight: &Vec<usize>,
    selected: Option<usize>,
) -> (r: Option<usize>)
    ensures
        opt_usize_as_int(r) == next_render_target_for(has_image@, in_flight@, selected),
{
    let n = has_image.len();
    if n == 0 {
        return None;
    }
    let sel = match selected {
        Some(s) => s,
        None => 0,
    };
    let center = if sel < n - 1 {
        sel
    } else {
        n - 1
    };
    let mut target: Option<usize> = None;
    if render_candidate(has_image, in_flight, center) {
        target = Some(center);
    }
    let ghost first = opt_usize_as_int(target);
    let mut offset: usize = 1;
    while offset < n
        invariant
            n == has_image@.len(),
            center < n,
            center == render_center(n as int, selected),
            first == (if is_render_candidate(has_image@, in_flight@, center as int) {
                Some(center as int)
            } else {
                None
            }),
            1 <= offset,
            render_search(has_image@, in_flight@, center as int, 1, first) == render_search(
                has_image@,
                in_flight@,
                center as int,
                offset as int,
                opt_usize_as_int(target),
            ),
        decreases n - offset,
    {
        let ghost before_step = opt_usize_as_int(target);
        if center >= offset {
            let i = center - offset;
            if render_candidate(has_image, in_flight, i) {
                target = Some(i);
            }
        }
        if target.is_none() && n - center > offset {
            let i = center + offset;
            if render_candidate(has_image, in_flight, i) {
                target = Some(i);
            }
        }
        assert(render_search(has_image@, in_flight@, center as int, offset as int, before_step)
            == if target is Some {
            opt_usize_as_int(target)
        } else {
            render_search(
                has_image@,
                in_flight@,
                center as int,
                offset + 1,
                opt_usize_as_int(target),
            )
        });
        if target.is_some() {
            assert(opt_usize_as_int(target) == render_search(
                has_image@,
                in_flight@,
                center as int,
                1,
                first,
            ));
            assert(next_render_target_for(has_image@, in_flight@, selected) == render_search(
                has_image@,
                in_flight@,
                center as int,
                1,
                first,
            ));
            return target;
        }
        offset = offset + 1;
    }
    target
}

proof fn lemma_render_search_sound(
    has_image: Seq<bool>,
    in_flight: Seq<usize>,
    center: int,
    offset: int,
    found: Option<int>,
)
    requires
        0 <= center < has_image.len(),
        found matches Some(f) ==> is_render_candidate(has_image, in_flight, f),
    ensures
        render_search(has_image, in_flight, center, offset, found) matches Some(f)
            ==> is_render_candidate(has_image, in_flight, f),
    decreases has_image.len() - offset,
{
    if !(offset >= has_image.len() || offset < 1) {
        let before = if center >= offset && is_render_candidate(
            has_image,
            in_flight,
            center - offset,
        ) {
            Some(center - offset)
        } else {
            found
        };
        let after = if before is None && center + offset < has_image.len() && is_render_candidate(
            has_image,
            in_flight,
            center + offset,
        ) {
            Some(center + offset)
        } else {
            before
        };
        lemma_render_search_sound(has_image, in_flight, center, offset + 1, after);
    }
}

proof fn lemma_render_search_complete(
    has_image: Seq<bool>,
    in_flight: Seq<usize>,
    center: int,
    offset: int,
    j: int,
)
    requires
        0 <= center < has_image.len(),
        1 <= offset,
        is_render_candidate(has_image, in_flight, j),
        j != center,
        j >= center + offset || j <= center - offset,
    ensures
        render_search(has_image, in_flight, center, offset, None) is Some,
    decreases has_image.len() - offset,
{
    let n = has_image.len() as int;
    if offset < n {
        let before = if center >= offset && is_render_candidate(
            has_image,
            in_flight,
            center - offset,
        ) {
            Some(center - offset)
        } else {
            None
        };
        let after = if before is None && center + offset < n && is_render_candidate(
            has_image,
            in_flight,
            center + offset,
        ) {
            Some(center + offset)
        } else {
            before
        };
        if after is None {
            lemma_render_search_complete(has_image, in_flight, center, offset + 1, j);
        }
    }
}

/// The render search settles on a page that needs a thumbnail, and on one
/// whenever some page needs a thumbnail.
pub proof fn law_render_target_needed_and_found(
    has_image: Seq<bool>,
    in_flight: Seq<usize>,
    selected: Option<usize>,
)
    ensures
        next_render_target_for(has_image, in_flight, selected) matches Some(t)
            ==> is_render_candidate(has_image, in_flight, t),
        (exists|j: int| is_render_candidate(has_image, in_flight, j)) ==> next_render_target_for(
            has_image,
            in_flight,
            selected,
        ) is Some,
{
    if has_image.len() > 0 {
        let center = render_center(has_image.len() as int, selected);
        let first = if is_render_candidate(has_image, in_flight, center) {
            Some(center)
        } else {
            None
        };
        lemma_render_search_sound(has_image, in_flight, center, 1, first);
        if exists|j: int| is_render_candidate(has_image, in_flight, j) {
            let j = choose|j: int| is_render_candidate(has_image, in_flight, j);
            if first is None {
                lemma_render_search_complete(has_image, in_flight, center, 1, j);
            } else {
                lemma_render_search_keeps_found(has_image, in_flight, center, 1, first);
            }
        }
    }
}

proof fn lemma_render_search_keeps_found(
    has_image: Seq<bool>,
    in_flight: Seq<usize>,
    center: int,
    offset: int,
    found: Option<int>,
)
    requires
        found is Some,
    ensures
        render_search(has_image, in_flight, center, offset, found) is Some,
    decreases has_image.len() - offset,
{
    if !(offset >= has_image.len() || offset < 1) {
        let before = if center >= offset && is_render_candidate(
            has_image,
            in_flight,
            center - offset,
        ) {
            Some(center - offset)
        } else {
            found
        };
        assert(before is Some);
    }
}

// ---------------------------------------------------------------------------
// Keyboard navigation
// ---------------------------------------------------------------------------
/// The keys that move the selection through the thumbnail grid.
#[derive(Clone, Copy, Debug, PartialEq, Eq)]
pub enum NavKey {
    Right,
    Left,
    Down,
    Up,
    PageUp,
    PageDown,
    Home,
    End,
}

/// The page a key moves the selection to from page `cur` of `n`, in a grid of
/// `cols` columns of which `rows` rows are visible.
pub open spec fn navigate_to(key: NavKey, cur: int, n: int, cols: int, rows: int) -> int {
    match key {
        NavKey::Right => if cur + 1 < n - 1 {
            cur + 1
        } else {
            n - 1
        },
        NavKey::Left => if cur >= 1 {
            cur - 1
        } else {
            0
        },
        NavKey::Down => if cur + cols < n - 1 {
            cur + cols
        } else {
            n - 1
        },
        NavKey::Up => if cur >= cols {
            cur - cols
        } else {
            0
        },
        NavKey::PageUp => if cur >= cols * rows {
            cur - cols * rows
        } else {
            0
        },
        NavKey::PageDown => if cur + cols * rows < n - 1 {
            cur + cols * rows
        } else {
            n - 1
        },
        NavKey::Home => 0,
        NavKey::End => n - 1,
    }
}

/// Moves the selection with a key.
pub fn navigate(key: NavKey, cur: usize, n: usize, cols: usize, rows: usize) -> (r: usize)
    requires
        n >= 1,
        cur + cols * rows <= usize::MAX,
        cur + cols <= usize::MAX,
        cur + 1 <= usize::MAX,
    ensures
        r == navigate_to(key, cur as int, n as int, cols as int, rows as int),
{
    match key {
        NavKey::Right => {
            let v = cur + 1;
            if v < n - 1 {
                v
            } else {
                n - 1
            }
        },
        NavKey::Left => {
            if cur >= 1 {
                cur - 1
            } else {
                0
            }
        },
        NavKey::Down => {
            let v = cur + cols;
            if v < n - 1 {
                v
            } else {
                n - 1
            }
        },
        NavKey::Up => {
            if cur >= cols {
                cur - cols
            } else {
                0
            }
        },
        NavKey::PageUp => {
            let step = cols * rows;
            if cur >= step {
                cur - step
            } else {
                0
            }
        },
        NavKey::PageDown => {
            let v = cur + cols * rows;
            if v < n - 1 {
                v
            } else {
                n - 1
            }
        },
        NavKey::Home => 0,
        NavKey::End => n - 1,
    }
}

/// Navigation from a page of the grid always lands on a page of the grid.
pub proof fn law_navigation_stays_on_a_page(
    key: NavKey,
    cur: int,
    n: int,
    cols: int,
    rows: int,
)
    requires
        0 <= cur < n,
        cols >= 0,
        rows >= 0,
    ensures
        0 <= navigate_to(key, cur, n, cols, rows) < n,
{
    assert(cols * rows >= 0) by (nonlinear_arith)
        requires
            cols >= 0,
            rows >= 0,
    ;
}

// ---------------------------------------------------------------------------
// Loaded data
// ---------------------------------------------------------------------------
/// `%PDF`, the bytes a PDF file starts with.
pub open spec fn pdf_magic() -> Seq<u8> {
    seq![37u8, 80u8, 68u8, 70u8]
}

/// `%PDF` stands somewhere in the first 1024 bytes of `b`.
pub open spec fn has_pdf_magic_near_start(b: Seq<u8>) -> bool {
    exists|i: int|
        0 <= i && i + 4 <= b.len() && i + 4 <= 1024 && #[trigger] b.subrange(i, i + 4)
            == pdf_magic()
}

/// Data that is accepted as a PDF document: at least 4 bytes, with `%PDF` at
/// the start or elsewhere in the first 1024 bytes.
pub open spec fn is_pdf_data(b: Seq<u8>) -> bool {
    b.len() >= 4 && has_pdf_magic_near_start(b)
}

/// A download through a proxy that is accepted as a PDF document: more than 4
/// bytes, with `%PDF` in the first 1024 bytes.
pub open spec fn is_proxied_pdf_data(b: Seq<u8>) -> bool {
    b.len() > 4 && has_pdf_magic_near_start(b)
}

/// Whether `%PDF` stands in the first 1024 bytes of `b`.
fn pdf_magic_near_start(b: &[u8]) -> (r: bool)
    ensures
        r == has_pdf_magic_near_start(b@),
{
    let limit = if b.len() < 1024 {
        b.len()
    } else {
        1024
    };
    if limit < 4 {
        return false;
    }
    let mut i: usize = 0;
    while i <= limit - 4
        invariant
            4 <= limit <= b@.len(),
            limit <= 1024,
            limit == b@.len() || limit == 1024,
            forall|k: int| 0 <= k < i ==> #[trigger] b@.subrange(k, k + 4) != pdf_magic(),
        decreases limit - i,
    {
        if b[i] == 37 && b[i + 1] == 80 && b[i + 2] == 68 && b[i + 3] == 70 {
            assert(b@.subrange(i as int, i + 4) =~= pdf_magic());
            return true;
        }
        assert(b@.subrange(i as int, i + 4) != pdf_magic()) by {
            if b@.subrange(i as int, i + 4) == pdf_magic() {
                assert(b@.subrange(i as int, i + 4)[0] == b@[i as int]);
                assert(b@.subrange(i as int, i + 4)[1] == b@[i + 1]);
                assert(b@.subrange(i as int, i + 4)[2] == b@[i + 2]);
                assert(b@.subrange(i as int, i + 4)[3] == b@[i + 3]);
            }
        }
        i = i + 1;
    }
    false
}

/// Whether loaded bytes are accepted as a PDF document.
pub fn is_pdf(bytes: &[u8]) -> (r: bool)
    ensures
        r == is_pdf_data(bytes@),
{
    bytes.len() >= 4 && pdf_magic_near_start(bytes)
}

/// Whether bytes downloaded through a proxy are accepted as a PDF document.
pub fn is_proxied_pdf(bytes: &[u8]) -> (r: bool)
    ensures
        r == is_proxied_pdf_data(bytes@),
{
    bytes.len() > 4 && pdf_magic_near_start(bytes)
}

/// Whether the answer of a proxy is taken: the request succeeded and the
/// body is PDF data. Otherwise the next proxy is tried.
pub fn proxy_response_accepted(ok: bool, body: &[u8]) -> (r: bool)
    ensures
        r == (ok && is_proxied_pdf_data(body@)),
{
    ok && is_proxied_pdf(body)
}

/// Each key moves the selection by its own step and stops at the ends of the
/// document: the arrow keys Left and Right by one page (so that inside the
/// document each undoes the other), Up and Down by one row of `cols` pages,
/// Page Up and Page Down by the `rows` visible rows, Home to the first page
/// and End to the last.
pub proof fn law_keys_move_by_their_step(cur: int, n: int, cols: int, rows: int)
    requires
        0 <= cur < n,
        cols >= 1,
        rows >= 1,
    ensures
        cur >= 1 ==> navigate_to(NavKey::Left, cur, n, cols, rows) == cur - 1,
        cur == 0 ==> navigate_to(NavKey::Left, cur, n, cols, rows) == 0,
        cur + 1 < n ==> navigate_to(NavKey::Right, cur, n, cols, rows) == cur + 1,
        cur + 1 >= n ==> navigate_to(NavKey::Right, cur, n, cols, rows) == n - 1,
        cur + 1 < n ==> navigate_to(
            NavKey::Left,
            navigate_to(NavKey::Right, cur, n, cols, rows),
            n,
            cols,
            rows,
        ) == cur,
        cur >= 1 ==> navigate_to(
            NavKey::Right,
            navigate_to(NavKey::Left, cur, n, cols, rows),
            n,
            cols,
            rows,
        ) == cur,
        cur >= cols ==> navigate_to(NavKey::Up, cur, n, cols, rows) == cur - cols,
        cur < cols ==> navigate_to(NavKey::Up, cur, n, cols, rows) == 0,
        cur + cols < n ==> navigate_to(NavKey::Down, cur, n, cols, rows) == cur + cols,
        cur + cols >= n ==> navigate_to(NavKey::Down, cur, n, cols, rows) == n - 1,
        cur >= cols * rows ==> navigate_to(NavKey::PageUp, cur, n, cols, rows) == cur - cols
            * rows,
        cur < cols * rows ==> navigate_to(NavKey::PageUp, cur, n, cols, rows) == 0,
        cur + cols * rows < n ==> navigate_to(NavKey::PageDown, cur, n, cols, rows) == cur + cols
            * rows,
        cur + cols * rows >= n ==> navigate_to(NavKey::PageDown, cur, n, cols, rows) == n - 1,
        navigate_to(NavKey::Home, cur, n, cols, rows) == 0,
        navigate_to(NavKey::End, cur, n, cols, rows) == n - 1,
{
}

/// Data a proxy download accepts is also accepted when it is loaded.
pub proof fn law_proxied_pdf_is_pdf(b: Seq<u8>)
    ensures
        is_proxied_pdf_data(b) ==> is_pdf_data(b),
{
}

// ---------------------------------------------------------------------------
// Names and addresses
// ---------------------------------------------------------------------------
/// The separators between the parts of a path, `/` and `\`, and, in a URL
/// that a file name is taken from, also `?`.
pub open spec fn is_separator(c: char, url: bool) -> bool {
    c == '/' || c == '\\' || (url && c == '?')
}

/// The index right after the last separator in `s`, or 0 when there is none.
pub open spec fn segment_start(s: Seq<char>, url: bool) -> int
    decreases s.len(),
{
    if s.len() == 0 {
        0
    } else if is_separator(s.last(), url) {
        s.len() as int
    } else {
        segment_start(s.drop_last(), url)
    }
}

/// The last part of a path: what follows its last `/` or `\`.
pub open spec fn base_name_of(s: Seq<char>) -> Seq<char> {
    s.subrange(segment_start(s, false), s.len() as int)
}

/// The last non-empty part of `s` between separators, if any.
pub open spec fn last_nonempty_segment(s: Seq<char>, url: bool) -> Option<Seq<char>>
    decreases s.len(),
{
    if s.len() == 0 {
        None
    } else if is_separator(s.last(), url) {
        last_nonempty_segment(s.drop_last(), url)
    } else {
        Some(s.subrange(segment_start(s, url), s.len() as int))
    }
}

/// The file name a download from `url` is shown under: its last non-empty
/// part between `/`, `\` and `?`, or `URL_PDF`.
pub open spec fn url_file_name_of(url: Seq<char>) -> Seq<char> {
    match last_nonempty_segment(url, true) {
        Some(s) => s,
        None => "URL_PDF"@,
    }
}

proof fn lemma_segment_start(s: Seq<char>, url: bool, k: int)
    requires
        0 <= k <= s.len(),
        forall|j: int| k <= j < s.len() ==> !is_separator(s[j], url),
        k == 0 || is_separator(s[k - 1], url),
    ensures
        segment_start(s, url) == k,
    decreases s.len(),
{
    if s.len() > k {
        lemma_segment_start(s.drop_last(), url, k);
    }
}

/// The start of the segment that ends at `end` in `s`.
fn segment_start_index(s: &Vec<char>, end: usize, url: bool) -> (r: usize)
    requires
        end <= s@.len(),
    ensures
        r <= end,
        r == segment_start(s@.take(end as int), url),
{
    let mut i = end;
    while i > 0 && !(s[i - 1] == '/' || s[i - 1] == '\\' || (url && s[i - 1] == '?'))
        invariant
            i <= end <= s@.len(),
            forall|j: int| i <= j < end ==> !is_separator(s@[j], url),
        decreases i,
    {
        i = i - 1;
    }
    proof {
        lemma_segment_start(s@.take(end as int), url, i as int);
    }
    i
}

/// The characters `v[lo..hi]` as a string.
fn string_of_range(v: &Vec<char>, lo: usize, hi: usize) -> (r: String)
    requires
        lo <= hi <= v@.len(),
    ensures
        r@ == v@.subrange(lo as int, hi as int),
{
    let mut r = String::new();
    let mut i = lo;
    while i < hi
        invariant
            lo <= i <= hi <= v@.len(),
            r@ == v@.subrange(lo as int, i as int),
        decreases hi - i,
    {
        crate::converters::push_char(&mut r, v[i]);
        proof {
            assert(v@.subrange(lo as int, i + 1) =~= v@.subrange(lo as int, i as int).push(
                v@[i as int],
            ));
        }
        i = i + 1;
    }
    r
}

/// The last part of a path: what follows its last `/` or `\`.
pub fn base_name(path: &str) -> (r: String)
    ensures
        r@ == base_name_of(path@),
{
    let c = chars_of(path);
    let start = segment_start_index(&c, c.len(), false);
    assert(c@.take(c@.len() as int) =~= c@);
    string_of_range(&c, start, c.len())
}

/// The name a dropped or downloaded document is shown under: the last part
/// of its name, or `PDF` when it has none.
pub fn display_name(name: Option<&str>) -> (r: String)
    ensures
        r@ == match name {
            Some(n) => base_name_of(n@),
            None => "PDF"@,
        },
{
    match name {
        Some(n) => base_name(n),
        None => "PDF".to_owned(),
    }
}

proof fn lemma_last_nonempty_segment_skip(s: Seq<char>, url: bool, k: int)
    requires
        0 <= k <= s.len(),
        forall|j: int| k <= j < s.len() ==> is_separator(s[j], url),
    ensures
        last_nonempty_segment(s, url) == last_nonempty_segment(s.take(k), url),
    decreases s.len() - k,
{
    if s.len() > k {
        assert(s.drop_last().take(k) =~= s.take(k));
        lemma_last_nonempty_segment_skip(s.drop_last(), url, k);
    } else {
        assert(s.take(k) =~= s);
    }
}

/// The file name a download from `url` is shown under.
pub fn url_file_name(url: &str) -> (r: String)
    ensures
        r@ == url_file_name_of(url@),
{
    let c = chars_of(url);
    let mut end = c.len();
    while end > 0 && (c[end - 1] == '/' || c[end - 1] == '\\' || c[end - 1] == '?')
        invariant
            end <= c@.len(),
            forall|j: int| end <= j < c@.len() ==> is_separator(c@[j], true),
        decreases end,
    {
        end = end - 1;
    }
    proof {
        lemma_last_nonempty_segment_skip(c@, true, end as int);
    }
    if end == 0 {
        proof {
            assert(c@.take(0) =~= Seq::<char>::empty());
        }
        return "URL_PDF".to_owned();
    }
    let start = segment_start_index(&c, end, true);
    proof {
        assert(c@.take(end as int).drop_last() =~= c@.take(end - 1));
        assert(c@.take(end as int).subrange(start as int, end as int) =~= c@.subrange(
            start as int,
            end as int,
        ));
    }
    string_of_range(&c, start, end)
}

/// A file name extension that marks a PDF file: `pdf` in any ASCII letter
/// case.
pub open spec fn is_pdf_extension_of(ext: Seq<char>) -> bool {
    &&& ext.len() == 3
    &&& (ext[0] == 'p' || ext[0] == 'P')
    &&& (ext[1] == 'd' || ext[1] == 'D')
    &&& (ext[2] == 'f' || ext[2] == 'F')
}

/// Whether a dropped file, by its extension (if it has one), is opened as a
/// PDF document.
pub fn is_pdf_extension(ext: Option<&str>) -> (r: bool)
    ensures
        r == match ext {
            Some(e) => is_pdf_extension_of(e@),
            None => false,
        },
{
    match ext {
        None => false,
        Some(e) => {
            let c = chars_of(e);
            c.len() == 3 && (c[0] == 'p' || c[0] == 'P') && (c[1] == 'd' || c[1] == 'D') && (c[2]
                == 'f' || c[2] == 'F')
        },
    }
}

/// The address typed into the URL field, without surrounding whitespace, or
/// `None` when nothing but whitespace was typed.
pub open spec fn typed_url(input: Seq<char>) -> Option<Seq<char>> {
    if trim(input).len() == 0 {
        None
    } else {
        Some(trim(input))
    }
}

/// Reads the address typed into the URL field.
pub fn parse_url_input(input: &str) -> (r: Option<String>)
    ensures
        match r {
            Some(s) => typed_url(input@) == Some(s@),
            None => typed_url(input@) is None,
        },
{
    let c = chars_of(input);
    let (a, b) = trim_indices(&c, 0, c.len());
    assert(c@.subrange(0, c@.len() as int) =~= c@);
    if a == b {
        return None;
    }
    Some(string_of_range(&c, a, b))
}

// ---------------------------------------------------------------------------
// Download sources
// ---------------------------------------------------------------------------
/// The bytes that `urlencoding` leaves as they are: ASCII letters and digits
/// and `-`, `.`, `_`, `~`.
pub open spec fn is_unreserved_byte(b: u8) -> bool {
    ||| 48 <= b <= 57
    ||| 65 <= b <= 90
    ||| 97 <= b <= 122
    ||| b == 45
    ||| b == 46
    ||| b == 95
    ||| b == 126
}

/// An upper-case hexadecimal digit for `d < 16`.
pub open spec fn hex_digit(d: int) -> char {
    if d < 10 {
        (48 + d) as char
    } else {
        (55 + d) as char
    }
}

/// The percent-encoding of the bytes `b`: an unreserved byte stands for
/// itself, any other byte is written `%` and two upper-case hex digits.
pub open spec fn percent_encoded(b: Seq<u8>) -> Seq<char>
    decreases b.len(),
{
    if b.len() == 0 {
        Seq::empty()
    } else {
        let first = if is_unreserved_byte(b[0]) {
            seq![b[0] as char]
        } else {
            seq!['%', hex_digit(b[0] as int / 16), hex_digit(b[0] as int % 16)]
        };
        first + percent_encoded(b.drop_first())
    }
}

/// `urlencoding::encode`, which percent-encodes the UTF-8 bytes of `s`: every
/// byte except ASCII letters, digits, `-`, `.`, `_` and `~` is written as `%`
/// and two upper-case hexadecimal digits.
#[verifier::external_body]
fn url_encode(s: &str) -> (r: String)
    ensures
        r@ == percent_encoded(s.spec_bytes()),
{
    urlencoding::encode(s).into_owned()
}

/// `a` followed by `b`.
fn concat(a: &str, b: &str) -> (r: String)
    ensures
        r@ == a@ + b@,
{
    let ca = chars_of(a);
    let cb = chars_of(b);
    let mut r = string_of_range(&ca, 0, ca.len());
    let mut i: usize = 0;
    assert(ca@.subrange(0, ca@.len() as int) =~= ca@);
    while i < cb.len()
        invariant
            i <= cb@.len(),
            r@ == ca@ + cb@.take(i as int),
        decreases cb@.len() - i,
    {
        crate::converters::push_char(&mut r, cb[i]);
        proof {
            assert(cb@.take(i + 1) =~= cb@.take(i as int).push(cb@[i as int]));
        }
        i = i + 1;
    }
    assert(cb@.take(cb@.len() as int) =~= cb@);
    r
}

/// Whether `s` starts with `prefix`.
fn starts_with(s: &str, prefix: &str) -> (r: bool)
    ensures
        r == (prefix@.len() <= s@.len() && s@.take(prefix@.len() as int) == prefix@),
{
    let cs = chars_of(s);
    let cp = chars_of(prefix);
    if cp.len() > cs.len() {
        return false;
    }
    let mut i: usize = 0;
    while i < cp.len()
        invariant
            cs@ == s@,
            cp@ == prefix@,
            cp@.len() <= cs@.len(),
            i <= cp@.len(),
            forall|k: int| 0 <= k < i ==> cs@[k] == cp@[k],
        decreases cp@.len() - i,
    {
        if cs[i] != cp[i] {
            assert(cs@.take(cp@.len() as int)[i as int] != cp@[i as int]);
            assert(cs@.take(cp@.len() as int) != cp@);
            return false;
        }
        i = i + 1;
    }
    assert(cs@.take(cp@.len() as int) =~= cp@);
    true
}

/// Where a document at a URL is downloaded from.
#[derive(Debug, PartialEq, Eq)]
pub enum DownloadPlan {
    /// Straight from the URL.
    Direct(String),
    /// Through these CORS proxies, tried in turn until one returns a PDF.
    Proxies(Vec<String>),
}

/// A URL on this machine, which a browser may fetch directly.
pub open spec fn is_local_url(url: Seq<char>) -> bool {
    ||| (url.len() >= 16 && url.take(16) == "http://localhost"@)
    ||| (url.len() >= 16 && url.take(16) == "http://127.0.0.1"@)
}

/// The proxy addresses a browser fetches `url` through, in the order they are
/// tried.
pub open spec fn proxy_urls(url: Seq<char>, encoded: Seq<char>) -> Seq<Seq<char>> {
    seq![
        "https://api.codetabs.com/v1/proxy/?quest="@ + url,
        "https://corsproxy.io/?"@ + encoded,
        "https://api.allorigins.win/raw?url="@ + encoded,
    ]
}

/// Chooses where to download `url` from. A desktop fetches it directly; so
/// does a browser for a local URL, and for any other URL it goes through the
/// proxies, which are handed the URL percent-encoded except for the first.
pub fn download_plan(url: &str, in_browser: bool) -> (r: DownloadPlan)
    ensures
        !in_browser ==> r == DownloadPlan::Direct(r->Direct_0) && r->Direct_0@ == url@,
        in_browser && is_local_url(url@) ==> r is Direct && r->Direct_0@ == url@,
        in_browser && !is_local_url(url@) ==> r is Proxies && r->Proxies_0@.len() == 3 && ({
            let ps = r->Proxies_0@;
            let expected = proxy_urls(url@, percent_encoded(url.spec_bytes()));
            forall|k: int| 0 <= k < 3 ==> #[trigger] ps[k]@ == expected[k]
        }),
{
    if !in_browser {
        return DownloadPlan::Direct(url.to_owned());
    }
    let local_name = starts_with(url, "http://localhost");
    let local_addr = starts_with(url, "http://127.0.0.1");
    proof {
        reveal_strlit("http://localhost");
        reveal_strlit("http://127.0.0.1");
    }
    if local_name || local_addr {
        return DownloadPlan::Direct(url.to_owned());
    }
    let encoded = url_encode(url);
    let p0 = concat("https://api.codetabs.com/v1/proxy/?quest=", url);
    let p1 = concat("https://corsproxy.io/?", encoded.as_str());
    let p2 = concat("https://api.allorigins.win/raw?url=", encoded.as_str());
    let mut v: Vec<String> = Vec::new();
    v.push(p0);
    v.push(p1);
    v.push(p2);
    DownloadPlan::Proxies(v)
}

} // verus!
