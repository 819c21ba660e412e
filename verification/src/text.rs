//! Character-level text operations: whitespace, trimming, lines.
use vstd::prelude::*;

verus! {

/// The Unicode `White_Space` property (PropList.txt), which is what
/// `char::is_whitespace` tests and what `str::trim` removes.
pub open spec fn is_white_space(c: char) -> bool {
    let v = c as u32;
    ||| 0x09 <= v <= 0x0D
    ||| v == 0x20
    ||| v == 0x85
    ||| v == 0xA0
    ||| v == 0x1680
    ||| 0x2000 <= v <= 0x200A
    ||| v == 0x2028
    ||| v == 0x2029
    ||| v == 0x202F
    ||| v == 0x205F
    ||| v == 0x3000
}

/// `s` without its leading whitespace.
pub open spec fn trim_start(s: Seq<char>) -> Seq<char>
    decreases s.len(),
{
    if s.len() > 0 && is_white_space(s[0]) {
        trim_start(s.drop_first())
    } else {
        s
    }
}

/// `s` without its trailing whitespace.
pub open spec fn trim_end(s: Seq<char>) -> Seq<char>
    decreases s.len(),
{
    if s.len() > 0 && is_white_space(s.last()) {
        trim_end(s.drop_last())
    } else {
        s
    }
}

/// `s` without leading and trailing whitespace.
pub open spec fn trim(s: Seq<char>) -> Seq<char> {
    trim_end(trim_start(s))
}

/// The index of the first `'\n'` in `s`, or `s.len()` when there is none.
pub open spec fn first_newline(s: Seq<char>) -> nat
    decreases s.len(),
{
    if s.len() == 0 {
        0
    } else if s[0] == '\n' {
        0
    } else {
        1 + first_newline(s.drop_first())
    }
}

/// A line that ended in `"\r\n"` without its `'\r'`.
pub open spec fn strip_cr(s: Seq<char>) -> Seq<char> {
    if s.len() > 0 && s.last() == '\r' {
        s.drop_last()
    } else {
        s
    }
}

/// The lines of `s` as `str::lines` yields them: pieces split at `'\n'`, a
/// `'\r'` right before a `'\n'` dropped, and no empty piece after a final
/// `'\n'`.
pub open spec fn lines_of(s: Seq<char>) -> Seq<Seq<char>>
    decreases s.len(),
{
    if s.len() == 0 {
        Seq::empty()
    } else {
        let i = first_newline(s);
        if i >= s.len() {
            seq![s]
        } else {
            seq![strip_cr(s.take(i as int))] + lines_of(s.skip(i as int + 1))
        }
    }
}

/// The number of `'\n'` characters that end `s`.
pub open spec fn trailing_newlines(s: Seq<char>) -> nat
    decreases s.len(),
{
    if s.len() > 0 && s.last() == '\n' {
        1 + trailing_newlines(s.drop_last())
    } else {
        0
    }
}

/// `s` without the `'\n'` characters that end it.
pub open spec fn strip_trailing_newlines(s: Seq<char>) -> Seq<char>
    decreases s.len(),
{
    if s.len() > 0 && s.last() == '\n' {
        strip_trailing_newlines(s.drop_last())
    } else {
        s
    }
}

/// `n` newline characters.
pub open spec fn newlines(n: nat) -> Seq<char> {
    Seq::new(n, |i: int| '\n')
}

proof fn lemma_first_newline_bound(s: Seq<char>)
    ensures
        first_newline(s) <= s.len(),
        first_newline(s) < s.len() ==> s[first_newline(s) as int] == '\n',
        forall|k: int| 0 <= k < first_newline(s) ==> s[k] != '\n',
    decreases s.len(),
{
    if s.len() > 0 && s[0] != '\n' {
        lemma_first_newline_bound(s.drop_first());
        assert forall|k: int| 0 <= k < first_newline(s) implies s[k] != '\n' by {
            if k > 0 {
                assert(s[k] == s.drop_first()[k - 1]);
            }
        }
    }
}

/// `first_newline` is the index of the first newline at or after the scan
/// start.
proof fn lemma_first_newline_at(s: Seq<char>, k: int)
    requires
        0 <= k <= s.len(),
        forall|j: int| 0 <= j < k ==> s[j] != '\n',
        k == s.len() || s[k] == '\n',
    ensures
        first_newline(s) == k,
    decreases k,
{
    if k > 0 {
        lemma_first_newline_at(s.drop_first(), k - 1);
    }
}

/// Whether `c` is whitespace in the sense of `char::is_whitespace`.
pub fn is_whitespace(c: char) -> (b: bool)
    ensures
        b == is_white_space(c),
{
    let v = c as u32;
    (0x09 <= v && v <= 0x0D) || v == 0x20 || v == 0x85 || v == 0xA0 || v == 0x1680 || (0x2000
        <= v && v <= 0x200A) || v == 0x2028 || v == 0x2029 || v == 0x202F || v == 0x205F || v
        == 0x3000
}

/// The characters of `s`, in order.
pub fn chars_of(s: &str) -> (v: Vec<char>)
    ensures
        v@ == s@,
{
    let mut v: Vec<char> = Vec::new();
    for c in it: s.chars()
        invariant
            v@ == it.seq().take(it.index() as int),
    {
        v.push(c);
    }
    v
}

proof fn lemma_trim_start_skip(s: Seq<char>, k: int)
    requires
        0 <= k <= s.len(),
        forall|j: int| 0 <= j < k ==> is_white_space(s[j]),
    ensures
        trim_start(s) == trim_start(s.skip(k)),
    decreases k,
{
    if k > 0 {
        assert(s.skip(k) =~= s.drop_first().skip(k - 1));
        lemma_trim_start_skip(s.drop_first(), k - 1);
    } else {
        assert(s.skip(0) =~= s);
    }
}

proof fn lemma_trim_end_take(s: Seq<char>, k: int)
    requires
        0 <= k <= s.len(),
        forall|j: int| k <= j < s.len() ==> is_white_space(s[j]),
    ensures
        trim_end(s) == trim_end(s.take(k)),
    decreases s.len() - k,
{
    if k < s.len() {
        assert(s.drop_last().take(k) =~= s.take(k));
        lemma_trim_end_take(s.drop_last(), k);
    } else {
        assert(s.take(k) =~= s);
    }
}

/// The part of `s[lo..hi]` that `trim_start` keeps starts at the returned index.
pub fn trim_start_index(s: &Vec<char>, lo: usize, hi: usize) -> (r: usize)
    requires
        lo <= hi <= s@.len(),
    ensures
        lo <= r <= hi,
        trim_start(s@.subrange(lo as int, hi as int)) == s@.subrange(r as int, hi as int),
{
    let mut i = lo;
    while i < hi && is_whitespace(s[i])
        invariant
            lo <= i <= hi <= s@.len(),
            forall|j: int| lo <= j < i ==> is_white_space(s@[j]),
        decreases hi - i,
    {
        i = i + 1;
    }
    proof {
        let t = s@.subrange(lo as int, hi as int);
        lemma_trim_start_skip(t, i - lo);
        assert(t.skip(i - lo) =~= s@.subrange(i as int, hi as int));
    }
    i
}

/// The part of `s[lo..hi]` that `trim_end` keeps ends at the returned index.
pub fn trim_end_index(s: &Vec<char>, lo: usize, hi: usize) -> (r: usize)
    requires
        lo <= hi <= s@.len(),
    ensures
        lo <= r <= hi,
        trim_end(s@.subrange(lo as int, hi as int)) == s@.subrange(lo as int, r as int),
{
    let mut i = hi;
    while i > lo && is_whitespace(s[i - 1])
        invariant
            lo <= i <= hi <= s@.len(),
            forall|j: int| i <= j < hi ==> is_white_space(s@[j]),
        decreases i - lo,
    {
        i = i - 1;
    }
    proof {
        let t = s@.subrange(lo as int, hi as int);
        lemma_trim_end_take(t, i - lo);
        assert(t.take(i - lo) =~= s@.subrange(lo as int, i as int));
    }
    i
}

/// The bounds of `trim(s[lo..hi])` within `s`.
pub fn trim_indices(s: &Vec<char>, lo: usize, hi: usize) -> (r: (usize, usize))
    requires
        lo <= hi <= s@.len(),
    ensures
        lo <= r.0 <= r.1 <= hi,
        trim(s@.subrange(lo as int, hi as int)) == s@.subrange(r.0 as int, r.1 as int),
{
    let a = trim_start_index(s, lo, hi);
    let b = trim_end_index(s, a, hi);
    (a, b)
}

/// `ranges` are the bounds within `s` of the lines `ls`, in order.
pub open spec fn ranges_of_lines(ranges: Seq<(usize, usize)>, s: Seq<char>, ls: Seq<Seq<char>>) -> bool {
    &&& ranges.len() == ls.len()
    &&& forall|k: int|
        #![trigger ranges[k]]
        0 <= k < ranges.len() ==> {
            &&& ranges[k].0 <= ranges[k].1 <= s.len()
            &&& ls[k] == s.subrange(ranges[k].0 as int, ranges[k].1 as int)
        }
}

/// The lines of `s` as index ranges: the `k`-th line is `s[r[k].0..r[k].1]`.
pub fn line_ranges(s: &Vec<char>) -> (r: Vec<(usize, usize)>)
    ensures
        ranges_of_lines(r@, s@, lines_of(s@)),
{
    let n = s.len();
    let mut r: Vec<(usize, usize)> = Vec::new();
    let mut pos: usize = 0;
    proof {
        let done = Seq::new(r@.len(), |k: int| s@.subrange(r@[k].0 as int, r@[k].1 as int));
        assert(done =~= Seq::<Seq<char>>::empty());
        assert(s@.skip(0) =~= s@);
        assert(done + lines_of(s@.skip(0)) =~= lines_of(s@));
    }
    while pos < n
        invariant
            n == s@.len(),
            pos <= n,
            ({
                let done = Seq::new(
                    r@.len(),
                    |k: int| s@.subrange(r@[k].0 as int, r@[k].1 as int),
                );
                lines_of(s@) == done + lines_of(s@.skip(pos as int))
            }),
            forall|k: int| 0 <= k < r@.len() ==> (#[trigger] r@[k]).0 <= r@[k].1 <= n,
        decreases n - pos,
    {
        let mut j = pos;
        while j < n && s[j] != '\n'
            invariant
                pos <= j <= n == s@.len(),
                forall|q: int| pos <= q < j ==> s@[q] != '\n',
            decreases n - j,
        {
            j = j + 1;
        }
        let ghost rest = s@.skip(pos as int);
        let ghost old_r = r@;
        proof {
            lemma_first_newline_at(rest, j - pos);
        }
        if j == n {
            r.push((pos, n));
            proof {
                assert(rest =~= s@.subrange(pos as int, n as int));
                assert(s@.skip(n as int) =~= Seq::<char>::empty());
                let done_old = Seq::new(
                    old_r.len(),
                    |k: int| s@.subrange(old_r[k].0 as int, old_r[k].1 as int),
                );
                let done_new = Seq::new(
                    r@.len(),
                    |k: int| s@.subrange(r@[k].0 as int, r@[k].1 as int),
                );
                assert(done_new =~= done_old + seq![rest]);
                assert(lines_of(s@.skip(n as int)) =~= Seq::<Seq<char>>::empty());
                assert(done_new + lines_of(s@.skip(n as int)) =~= done_old + lines_of(rest));
            }
            pos = n;
        } else {
            let end = if j > pos && s[j - 1] == '\r' {
                j - 1
            } else {
                j
            };
            r.push((pos, end));
            proof {
                assert(rest.take(j - pos) =~= s@.subrange(pos as int, j as int));
                assert(strip_cr(rest.take(j - pos)) =~= s@.subrange(pos as int, end as int));
                assert(rest.skip(j - pos + 1) =~= s@.skip(j + 1));
                let done_old = Seq::new(
                    old_r.len(),
                    |k: int| s@.subrange(old_r[k].0 as int, old_r[k].1 as int),
                );
                let done_new = Seq::new(
                    r@.len(),
                    |k: int| s@.subrange(r@[k].0 as int, r@[k].1 as int),
                );
                assert(done_new =~= done_old + seq![s@.subrange(pos as int, end as int)]);
                assert(done_new + lines_of(s@.skip(j + 1)) =~= done_old + lines_of(rest));
            }
            pos = j + 1;
        }
    }
    proof {
        assert(s@.skip(pos as int) =~= Seq::<char>::empty());
        let done = Seq::new(r@.len(), |k: int| s@.subrange(r@[k].0 as int, r@[k].1 as int));
        assert(lines_of(s@) =~= done);
        assert forall|k: int| 0 <= k < r@.len() implies lines_of(s@)[k] == s@.subrange(
            r@[k].0 as int,
            r@[k].1 as int,
        ) && (#[trigger] r@[k]).0 <= r@[k].1 <= s@.len() by {
            assert(done[k] == s@.subrange(r@[k].0 as int, r@[k].1 as int));
        }
    }
    r
}

/// The characters of `s` that are not whitespace, in order.
pub open spec fn visible(s: Seq<char>) -> Seq<char>
    decreases s.len(),
{
    if s.len() == 0 {
        Seq::empty()
    } else if is_white_space(s[0]) {
        visible(s.drop_first())
    } else {
        seq![s[0]] + visible(s.drop_first())
    }
}

/// The non-whitespace characters of the lines `ls`, one line after another.
pub open spec fn visible_lines(ls: Seq<Seq<char>>) -> Seq<char>
    decreases ls.len(),
{
    if ls.len() == 0 {
        Seq::empty()
    } else {
        visible(ls[0]) + visible_lines(ls.skip(1))
    }
}

pub proof fn lemma_visible_add(a: Seq<char>, b: Seq<char>)
    ensures
        visible(a + b) == visible(a) + visible(b),
    decreases a.len(),
{
    if a.len() == 0 {
        assert(a + b =~= b);
    } else {
        lemma_visible_add(a.drop_first(), b);
        assert((a + b).drop_first() =~= a.drop_first() + b);
        assert((a + b)[0] == a[0]);
    }
}

pub proof fn lemma_visible_all_white(s: Seq<char>)
    requires
        forall|j: int| 0 <= j < s.len() ==> is_white_space(s[j]),
    ensures
        visible(s) == Seq::<char>::empty(),
    decreases s.len(),
{
    if s.len() > 0 {
        lemma_visible_all_white(s.drop_first());
    }
}

pub proof fn lemma_visible_trim_start(s: Seq<char>)
    ensures
        visible(trim_start(s)) == visible(s),
    decreases s.len(),
{
    if s.len() > 0 && is_white_space(s[0]) {
        lemma_visible_trim_start(s.drop_first());
    }
}

pub proof fn lemma_visible_trim_end(s: Seq<char>)
    ensures
        visible(trim_end(s)) == visible(s),
    decreases s.len(),
{
    if s.len() > 0 && is_white_space(s.last()) {
        lemma_visible_trim_end(s.drop_last());
        assert(s =~= s.drop_last() + seq![s.last()]);
        lemma_visible_add(s.drop_last(), seq![s.last()]);
        assert(visible(seq![s.last()]) =~= Seq::<char>::empty()) by {
            lemma_visible_all_white(seq![s.last()]);
        }
    }
}

pub proof fn lemma_visible_trim(s: Seq<char>)
    ensures
        visible(trim(s)) == visible(s),
{
    lemma_visible_trim_end(trim_start(s));
    lemma_visible_trim_start(s);
}

pub proof fn lemma_visible_newlines(n: nat)
    ensures
        visible(newlines(n)) == Seq::<char>::empty(),
{
    lemma_visible_all_white(newlines(n));
}

pub proof fn lemma_visible_strip_trailing_newlines(s: Seq<char>)
    ensures
        visible(strip_trailing_newlines(s)) == visible(s),
    decreases s.len(),
{
    if s.len() > 0 && s.last() == '\n' {
        lemma_visible_strip_trailing_newlines(s.drop_last());
        assert(s =~= s.drop_last() + seq![s.last()]);
        lemma_visible_add(s.drop_last(), seq![s.last()]);
        lemma_visible_all_white(seq![s.last()]);
    }
}

pub proof fn lemma_visible_lines_cons(a: Seq<char>, rest: Seq<Seq<char>>)
    ensures
        visible_lines(seq![a] + rest) == visible(a) + visible_lines(rest),
{
    assert((seq![a] + rest).skip(1) =~= rest);
    assert((seq![a] + rest)[0] == a);
}

/// Splitting text into lines drops only whitespace: the line ends and the
/// carriage returns before them.
pub proof fn lemma_visible_lines_of(s: Seq<char>)
    ensures
        visible_lines(lines_of(s)) == visible(s),
    decreases s.len(),
{
    if s.len() > 0 {
        let i = first_newline(s);
        lemma_first_newline_bound(s);
        if i >= s.len() {
            lemma_visible_lines_cons(s, Seq::empty());
            assert(visible(s) + Seq::<char>::empty() =~= visible(s));
        } else {
            let head = s.take(i as int);
            let tail = s.skip(i as int + 1);
            lemma_visible_lines_of(tail);
            lemma_visible_lines_cons(strip_cr(head), lines_of(tail));
            assert(s =~= head + (seq!['\n'] + tail));
            lemma_visible_add(head, seq!['\n'] + tail);
            lemma_visible_add(seq!['\n'], tail);
            lemma_visible_all_white(seq!['\n']);
            if head.len() > 0 && head.last() == '\r' {
                assert(head =~= head.drop_last() + seq!['\r']);
                lemma_visible_add(head.drop_last(), seq!['\r']);
                lemma_visible_all_white(seq!['\r']);
            }
            assert(visible(head.drop_last()) + Seq::<char>::empty() =~= visible(head.drop_last()));
            assert(Seq::<char>::empty() + visible(tail) =~= visible(tail));
        }
    }
}

/// A sequence with its trailing newlines stripped does not end in a newline.
pub proof fn lemma_strip_trailing_newlines_ends(s: Seq<char>)
    ensures
        strip_trailing_newlines(s).len() == 0 || strip_trailing_newlines(s).last() != '\n',
        trailing_newlines(strip_trailing_newlines(s)) == 0,
    decreases s.len(),
{
    if s.len() > 0 && s.last() == '\n' {
        lemma_strip_trailing_newlines_ends(s.drop_last());
    }
}

/// Appending `n` newlines to a sequence that does not end in one gives a
/// sequence that ends in exactly `n` newlines.
pub proof fn lemma_trailing_newlines_append(s: Seq<char>, n: nat)
    requires
        trailing_newlines(s) == 0,
    ensures
        trailing_newlines(s + newlines(n)) == n,
    decreases n,
{
    if n > 0 {
        let m = (n - 1) as nat;
        assert((s + newlines(n)).drop_last() =~= s + newlines(m));
        lemma_trailing_newlines_append(s, m);
    } else {
        assert(s + newlines(0) =~= s);
    }
}

} // verus!
