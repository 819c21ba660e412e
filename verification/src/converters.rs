//! Output converters for extracted page text, and the post-processing step
//! that rejoins key-value pairs split across lines by column reading order.
use vstd::prelude::*;

use crate::text::{
    lemma_strip_trailing_newlines_ends, lemma_trailing_newlines_append, lemma_visible_add,
    lemma_visible_all_white, lemma_visible_lines_cons, lemma_visible_lines_of,
    lemma_visible_newlines, lemma_visible_strip_trailing_newlines, lemma_visible_trim,
    lemma_visible_trim_end, lemma_visible_trim_start, visible, visible_lines,
    chars_of, line_ranges, ranges_of_lines, lines_of, newlines, strip_trailing_newlines, trailing_newlines, trim,
    is_white_space, trim_end, trim_end_index, trim_indices, trim_start, trim_start_index,
};

verus! {

// ---------------------------------------------------------------------------
// Converters
// ---------------------------------------------------------------------------
/// A converter from ordered text spans to an output format.
pub trait OutputConverter: Send + Sync {
    /// The converter's name, as its type is called.
    spec fn spec_name(&self) -> Seq<char>;

    /// The MIME type of the format the converter writes.
    spec fn spec_mime_type(&self) -> Seq<char>;

    /// Returns the name of this converter, for debugging.
    fn name(&self) -> (r: &'static str)
        ensures
            r@ == self.spec_name(),
    ;

    /// Returns the MIME type of the output format.
    fn mime_type(&self) -> (r: &'static str)
        ensures
            r@ == self.spec_mime_type(),
    ;
}

/// Converts to Markdown.
#[derive(Clone, Copy, Debug, PartialEq, Eq)]
pub struct MarkdownOutputConverter;

/// Converts to HTML.
#[derive(Clone, Copy, Debug, PartialEq, Eq)]
pub struct HtmlOutputConverter;

/// Converts to plain text.
#[derive(Clone, Copy, Debug, PartialEq, Eq)]
pub struct PlainTextConverter;

impl MarkdownOutputConverter {
    /// A Markdown converter.
    pub fn new() -> (r: Self) {
        MarkdownOutputConverter
    }
}

impl HtmlOutputConverter {
    /// An HTML converter.
    pub fn new() -> (r: Self) {
        HtmlOutputConverter
    }
}

impl PlainTextConverter {
    /// A plain-text converter.
    pub fn new() -> (r: Self) {
        PlainTextConverter
    }
}

impl OutputConverter for MarkdownOutputConverter {
    open spec fn spec_name(&self) -> Seq<char> {
        "MarkdownOutputConverter"@
    }

    open spec fn spec_mime_type(&self) -> Seq<char> {
        "text/markdown"@
    }

    fn name(&self) -> (r: &'static str) {
        "MarkdownOutputConverter"
    }

    fn mime_type(&self) -> (r: &'static str) {
        "text/markdown"
    }
}

impl OutputConverter for HtmlOutputConverter {
    open spec fn spec_name(&self) -> Seq<char> {
        "HtmlOutputConverter"@
    }

    open spec fn spec_mime_type(&self) -> Seq<char> {
        "text/html"@
    }

    fn name(&self) -> (r: &'static str) {
        "HtmlOutputConverter"
    }

    fn mime_type(&self) -> (r: &'static str) {
        "text/html"
    }
}

impl OutputConverter for PlainTextConverter {
    open spec fn spec_name(&self) -> Seq<char> {
        "PlainTextConverter"@
    }

    open spec fn spec_mime_type(&self) -> Seq<char> {
        "text/plain"@
    }

    fn name(&self) -> (r: &'static str) {
        "PlainTextConverter"
    }

    fn mime_type(&self) -> (r: &'static str) {
        "text/plain"
    }
}

/// One of the converters, chosen at run time.
#[derive(Clone, Copy, Debug, PartialEq, Eq)]
pub enum Converter {
    Markdown(MarkdownOutputConverter),
    Html(HtmlOutputConverter),
    PlainText(PlainTextConverter),
}

impl OutputConverter for Converter {
    open spec fn spec_name(&self) -> Seq<char> {
        match self {
            Converter::Markdown(c) => c.spec_name(),
            Converter::Html(c) => c.spec_name(),
            Converter::PlainText(c) => c.spec_name(),
        }
    }

    open spec fn spec_mime_type(&self) -> Seq<char> {
        match self {
            Converter::Markdown(c) => c.spec_mime_type(),
            Converter::Html(c) => c.spec_mime_type(),
            Converter::PlainText(c) => c.spec_mime_type(),
        }
    }

    fn name(&self) -> (r: &'static str) {
        match self {
            Converter::Markdown(c) => c.name(),
            Converter::Html(c) => c.name(),
            Converter::PlainText(c) => c.name(),
        }
    }

    fn mime_type(&self) -> (r: &'static str) {
        match self {
            Converter::Markdown(c) => c.mime_type(),
            Converter::Html(c) => c.mime_type(),
            Converter::PlainText(c) => c.mime_type(),
        }
    }
}

/// The converter that an already lower-cased format name selects:
/// `markdown` or `md`, `html`, and `text`, `plain` or `txt`.
pub open spec fn converter_for(name: Seq<char>) -> Option<Converter> {
    if name == "markdown"@ || name == "md"@ {
        Some(Converter::Markdown(MarkdownOutputConverter))
    } else if name == "html"@ {
        Some(Converter::Html(HtmlOutputConverter))
    } else if name == "text"@ || name == "plain"@ || name == "txt"@ {
        Some(Converter::PlainText(PlainTextConverter))
    } else {
        None
    }
}

/// A name for what `str::to_lowercase` returns for a string: its Unicode
/// lowercase, where most characters map on their own and a few, such as a
/// final capital sigma, depend on their neighbours.
pub uninterp spec fn lowercase(s: Seq<char>) -> Seq<char>;

/// True when every character of `s` is ASCII.
pub open spec fn is_ascii_text(s: Seq<char>) -> bool {
    forall|i: int| 0 <= i < s.len() ==> (#[trigger] s[i] as u32) < 128
}

/// `c` with an ASCII capital letter replaced by its small letter.
pub open spec fn ascii_lower(c: char) -> char {
    if 'A' <= c && c <= 'Z' {
        ((c as u32) + 32) as char
    } else {
        c
    }
}

/// `str::to_lowercase`; the result is named by `lowercase`. On ASCII text it
/// lowers the capital letters `A`-`Z` and keeps every other character, as its
/// documentation says of the ASCII range.
#[verifier::external_body]
fn to_lowercase(s: &str) -> (r: String)
    ensures
        r@ == lowercase(s@),
        is_ascii_text(s@) ==> r@ == s@.map_values(|c: char| ascii_lower(c)),
{
    s.to_lowercase()
}

/// Whether two character vectors are equal.
fn chars_equal(a: &Vec<char>, b: &Vec<char>) -> (r: bool)
    ensures
        r == (a@ == b@),
{
    if a.len() != b.len() {
        return false;
    }
    let mut i: usize = 0;
    while i < a.len()
        invariant
            a@.len() == b@.len(),
            i <= a@.len(),
            forall|k: int| 0 <= k < i ==> a@[k] == b@[k],
        decreases a@.len() - i,
    {
        if a[i] != b[i] {
            return false;
        }
        i = i + 1;
    }
    assert(a@ =~= b@);
    true
}

/// Whether `name` is the text of `literal`.
fn is_named(name: &Vec<char>, literal: &str) -> (r: bool)
    ensures
        r == (name@ == literal@),
{
    let lit = chars_of(literal);
    chars_equal(name, &lit)
}

/// The converter that a format name selects once it is in lower case.
pub fn converter_for_name(name: &str) -> (r: Option<Converter>)
    ensures
        r == converter_for(name@),
{
    let n = chars_of(name);
    if is_named(&n, "markdown") || is_named(&n, "md") {
        Some(Converter::Markdown(MarkdownOutputConverter::new()))
    } else if is_named(&n, "html") {
        Some(Converter::Html(HtmlOutputConverter::new()))
    } else if is_named(&n, "text") || is_named(&n, "plain") || is_named(&n, "txt") {
        Some(Converter::PlainText(PlainTextConverter::new()))
    } else {
        None
    }
}

/// Creates a converter from an output format name, in any letter case.
pub fn create_converter(format: &str) -> (r: Option<Converter>)
    ensures
        r == converter_for(lowercase(format@)),
        is_ascii_text(format@) ==> r == converter_for(format@.map_values(|c: char| ascii_lower(c))),
{
    let lower = to_lowercase(format);
    converter_for_name(lower.as_str())
}

// ---------------------------------------------------------------------------
// Key-value pair merging
// ---------------------------------------------------------------------------
/// A name for what `char::is_alphanumeric` answers: whether the character has
/// the Unicode `Alphabetic` or `Numeric` property.
pub uninterp spec fn char_is_alphanumeric(c: char) -> bool;

/// True for the ASCII letters and digits.
pub open spec fn is_ascii_alphanumeric(c: char) -> bool {
    ('0' <= c && c <= '9') || ('A' <= c && c <= 'Z') || ('a' <= c && c <= 'z')
}

/// `char::is_alphanumeric`; the answer is named by `char_is_alphanumeric`.
/// Among ASCII characters the letters and digits are exactly the ones with
/// the `Alphabetic` or `Numeric` property.
#[verifier::external_body]
fn is_alphanumeric(c: char) -> (b: bool)
    ensures
        b == char_is_alphanumeric(c),
        (c as u32) < 128 ==> (b == is_ascii_alphanumeric(c)),
{
    c.is_alphanumeric()
}

/// The characters a value may start with: a digit, a currency sign
/// (`$`, euro, pound, yen), an opening parenthesis or a minus sign (negative
/// amounts), or a period (`.50`).
pub open spec fn is_value_start(c: char) -> bool {
    ||| ('0' <= c && c <= '9')
    ||| c == '$'
    ||| c == '\u{20AC}'
    ||| c == '\u{A3}'
    ||| c == '\u{A5}'
    ||| c == '('
    ||| c == '-'
    ||| c == '.'
}

/// A value-only line: once trimmed it is short (not empty, fewer than 30
/// characters) and it starts like a number or an amount.
pub open spec fn is_value_line(line: Seq<char>) -> bool {
    let t = trim(line);
    0 < t.len() < 30 && is_value_start(t[0])
}

/// A label line: once trimmed it is not empty, it is not a value line, and it
/// ends with a letter or digit, `)` or `:` (not with sentence punctuation).
pub open spec fn is_label_line(line: Seq<char>) -> bool {
    let t = trim(line);
    &&& t.len() > 0
    &&& !is_value_line(line)
    &&& (char_is_alphanumeric(t.last()) || t.last() == ')' || t.last() == ':')
}

/// A line that holds only whitespace.
pub open spec fn is_blank_line(line: Seq<char>) -> bool {
    trim(line).len() == 0
}

/// A label and its value joined into one line.
pub open spec fn joined_line(label: Seq<char>, value: Seq<char>) -> Seq<char> {
    trim_end(label) + seq![' '] + trim_start(value) + seq!['\n']
}

/// The lines rewritten one after another, each followed by a newline: a label
/// followed by a value, either directly or after one blank line, becomes one
/// joined line; any other line is kept as it is.
pub open spec fn merge_lines(ls: Seq<Seq<char>>) -> Seq<char>
    decreases ls.len(),
{
    if ls.len() == 0 {
        Seq::empty()
    } else if ls.len() >= 2 && is_label_line(ls[0]) && is_value_line(ls[1]) {
        joined_line(ls[0], ls[1]) + merge_lines(ls.skip(2))
    } else if ls.len() >= 3 && is_label_line(ls[0]) && is_blank_line(ls[1]) && is_value_line(
        ls[2],
    ) {
        joined_line(ls[0], ls[2]) + merge_lines(ls.skip(3))
    } else {
        ls[0] + seq!['\n'] + merge_lines(ls.skip(1))
    }
}

/// What `merge_key_value_pairs` makes of `text`: text of fewer than two lines
/// stays as it is; otherwise the merged lines, ending in exactly as many
/// newlines as `text` ends in.
pub open spec fn merge_key_value_spec(text: Seq<char>) -> Seq<char> {
    if lines_of(text).len() < 2 {
        text
    } else {
        strip_trailing_newlines(merge_lines(lines_of(text))) + newlines(trailing_newlines(text))
    }
}

/// Whether `c` may start a value.
fn is_value_start_char(c: char) -> (b: bool)
    ensures
        b == is_value_start(c),
{
    ('0' <= c && c <= '9') || c == '$' || c == '\u{20AC}' || c == '\u{A3}' || c == '\u{A5}' || c
        == '(' || c == '-' || c == '.'
}

/// Whether the line `s[lo..hi]` is a value line.
fn value_line(s: &Vec<char>, lo: usize, hi: usize) -> (b: bool)
    requires
        lo <= hi <= s@.len(),
    ensures
        b == is_value_line(s@.subrange(lo as int, hi as int)),
{
    let (a, b) = trim_indices(s, lo, hi);
    if a == b {
        return false;
    }
    if b - a >= 30 {
        return false;
    }
    is_value_start_char(s[a])
}

/// Whether the line `s[lo..hi]` is a label line.
fn label_line(s: &Vec<char>, lo: usize, hi: usize) -> (b: bool)
    requires
        lo <= hi <= s@.len(),
    ensures
        b == is_label_line(s@.subrange(lo as int, hi as int)),
{
    let (a, b) = trim_indices(s, lo, hi);
    if a == b {
        return false;
    }
    if value_line(s, lo, hi) {
        return false;
    }
    ends_label(s[b - 1])
}

/// Whether a line may end in `c` and still be a label: a letter or digit,
/// `)` or `:`. Among ASCII characters the letters and digits are `A`-`Z`,
/// `a`-`z` and `0`-`9`.
pub fn ends_label(c: char) -> (b: bool)
    ensures
        b == (char_is_alphanumeric(c) || c == ')' || c == ':'),
        (c as u32) < 128 ==> (b == (is_ascii_alphanumeric(c) || c == ')' || c == ':')),
{
    is_alphanumeric(c) || c == ')' || c == ':'
}

/// Whether the line `s[lo..hi]` holds only whitespace.
fn blank_line(s: &Vec<char>, lo: usize, hi: usize) -> (b: bool)
    requires
        lo <= hi <= s@.len(),
    ensures
        b == is_blank_line(s@.subrange(lo as int, hi as int)),
{
    let (a, b) = trim_indices(s, lo, hi);
    a == b
}

/// Appends `s[lo..hi]` to `out`.
fn push_range(out: &mut Vec<char>, s: &Vec<char>, lo: usize, hi: usize)
    requires
        lo <= hi <= s@.len(),
    ensures
        final(out)@ == old(out)@ + s@.subrange(lo as int, hi as int),
{
    let mut i = lo;
    while i < hi
        invariant
            lo <= i <= hi <= s@.len(),
            out@ == old(out)@ + s@.subrange(lo as int, i as int),
        decreases hi - i,
    {
        out.push(s[i]);
        proof {
            assert(s@.subrange(lo as int, i + 1) =~= s@.subrange(lo as int, i as int).push(
                s@[i as int],
            ));
        }
        i = i + 1;
    }
    assert(out@ =~= old(out)@ + s@.subrange(lo as int, hi as int));
}

/// Appends the label `s[llo..lhi]` and the value `s[vlo..vhi]` as one line.
fn push_joined(out: &mut Vec<char>, s: &Vec<char>, llo: usize, lhi: usize, vlo: usize, vhi: usize)
    requires
        llo <= lhi <= s@.len(),
        vlo <= vhi <= s@.len(),
    ensures
        final(out)@ == old(out)@ + joined_line(
            s@.subrange(llo as int, lhi as int),
            s@.subrange(vlo as int, vhi as int),
        ),
{
    let label_end = trim_end_index(s, llo, lhi);
    push_range(out, s, llo, label_end);
    out.push(' ');
    let value_start = trim_start_index(s, vlo, vhi);
    push_range(out, s, value_start, vhi);
    out.push('\n');
    assert(out@ =~= old(out)@ + joined_line(
        s@.subrange(llo as int, lhi as int),
        s@.subrange(vlo as int, vhi as int),
    ));
}

/// `String::push`.
#[verifier::external_body]
pub(crate) fn push_char(s: &mut String, c: char)
    ensures
        final(s)@ == old(s)@.push(c),
{
    s.push(c);
}

/// The string of the characters of `v`.
fn string_of(v: &Vec<char>) -> (r: String)
    ensures
        r@ == v@,
{
    let mut r = String::new();
    let mut i: usize = 0;
    while i < v.len()
        invariant
            i <= v@.len(),
            r@ == v@.take(i as int),
        decreases v@.len() - i,
    {
        push_char(&mut r, v[i]);
        proof {
            assert(v@.take(i + 1) =~= v@.take(i as int).push(v@[i as int]));
        }
        i = i + 1;
    }
    assert(v@.take(v@.len() as int) =~= v@);
    r
}

proof fn lemma_trailing_newlines_split(s: Seq<char>, k: int)
    requires
        0 <= k <= s.len(),
        forall|j: int| k <= j < s.len() ==> s[j] == '\n',
    ensures
        trailing_newlines(s) == (s.len() - k) + trailing_newlines(s.take(k)),
    decreases s.len() - k,
{
    if k < s.len() {
        assert(s.drop_last().take(k) =~= s.take(k));
        lemma_trailing_newlines_split(s.drop_last(), k);
    } else {
        assert(s.take(k) =~= s);
    }
}

/// Rejoins key-value pairs that column reading order split across lines.
///
/// A label line (such as "Grand Total") followed by a value line (such as
/// "$750.00"), either directly or after one blank line, becomes the single
/// line "Grand Total $750.00". Every other line is kept. Lines are ended by
/// `\n` (or `\r\n`), and the result ends in as many newlines as `text`; text of
/// fewer than two lines is returned unchanged.
pub fn merge_key_value_pairs(text: &str) -> (r: String)
    ensures
        r@ == merge_key_value_spec(text@),
{
    let chars = chars_of(text);
    let lines = line_ranges(&chars);
    let ghost ls = lines_of(chars@);
    if lines.len() < 2 {
        return text.to_owned();
    }
    let n = lines.len();
    let mut out: Vec<char> = Vec::new();
    let mut i: usize = 0;
    proof {
        assert(ls.skip(0) =~= ls);
    }
    while i < n
        invariant
            n == lines@.len() == ls.len(),
            i <= n,
            ls == lines_of(chars@),
            ranges_of_lines(lines@, chars@, ls),
            merge_lines(ls) == out@ + merge_lines(ls.skip(i as int)),
        decreases n - i,
    {
        let ghost rest = ls.skip(i as int);
        let (lo0, hi0) = lines[i];
        assert(rest[0] == ls[i as int]);
        assert(lines@[i as int] == (lo0, hi0));
        if i + 1 < n && label_line(&chars, lo0, hi0) && value_line(
            &chars,
            lines[i + 1].0,
            lines[i + 1].1,
        ) {
            let (lo1, hi1) = lines[i + 1];
            assert(rest[1] == ls[i + 1]);
            push_joined(&mut out, &chars, lo0, hi0, lo1, hi1);
            proof {
                assert(rest.skip(2) =~= ls.skip(i + 2));
            }
            i = i + 2;
        } else if n - i > 2 && label_line(&chars, lo0, hi0) && blank_line(
            &chars,
            lines[i + 1].0,
            lines[i + 1].1,
        ) && value_line(&chars, lines[i + 2].0, lines[i + 2].1) {
            let (lo2, hi2) = lines[i + 2];
            assert(rest[1] == ls[i + 1]);
            assert(rest[2] == ls[i + 2]);
            push_joined(&mut out, &chars, lo0, hi0, lo2, hi2);
            proof {
                assert(rest.skip(3) =~= ls.skip(i + 3));
            }
            i = i + 3;
        } else {
            proof {
                if i + 1 < n {
                    assert(rest[1] == ls[i + 1]);
                }
                if n - i > 2 {
                    assert(rest[2] == ls[i + 2]);
                }
            }
            push_range(&mut out, &chars, lo0, hi0);
            out.push('\n');
            proof {
                assert(rest.skip(1) =~= ls.skip(i + 1));
            }
            i = i + 1;
        }
    }
    proof {
        assert(ls.skip(n as int) =~= Seq::<Seq<char>>::empty());
        assert(out@ =~= merge_lines(ls));
    }

    // `lines` drops every trailing empty line; restore exactly as many
    // trailing newlines as the input had.
    let mut count: usize = 0;
    let mut k = chars.len();
    while k > 0 && chars[k - 1] == '\n'
        invariant
            k <= chars@.len(),
            count == chars.len() - k,
            forall|j: int| k <= j < chars@.len() ==> chars@[j] == '\n',
        decreases k,
    {
        k = k - 1;
        count = count + 1;
    }
    proof {
        lemma_trailing_newlines_split(chars@, k as int);
        assert(trailing_newlines(chars@.take(k as int)) == 0);
    }
    let ghost merged = out@;
    while out.len() > 0 && out[out.len() - 1] == '\n'
        invariant
            strip_trailing_newlines(out@) == strip_trailing_newlines(merged),
        decreases out@.len(),
    {
        let ghost before = out@;
        out.pop();
        assert(out@ =~= before.drop_last());
    }
    let ghost stripped = out@;
    assert(strip_trailing_newlines(out@) == out@);
    let mut c: usize = 0;
    while c < count
        invariant
            c <= count,
            out@ == stripped + newlines(c as nat),
        decreases count - c,
    {
        out.push('\n');
        c = c + 1;
        assert(out@ =~= stripped + newlines(c as nat));
    }
    string_of(&out)
}

proof fn lemma_visible_joined(label: Seq<char>, value: Seq<char>)
    ensures
        visible(joined_line(label, value)) == visible(label) + visible(value),
{
    lemma_visible_trim_end(label);
    lemma_visible_trim_start(value);
    let a = trim_end(label);
    let b = trim_start(value);
    lemma_visible_add(a + seq![' '] + b, seq!['\n']);
    lemma_visible_add(a + seq![' '], b);
    lemma_visible_add(a, seq![' ']);
    lemma_visible_all_white(seq![' ']);
    lemma_visible_all_white(seq!['\n']);
    assert(visible(a) + Seq::<char>::empty() =~= visible(a));
    assert(visible(a) + visible(b) + Seq::<char>::empty() =~= visible(a) + visible(b));
}

proof fn lemma_visible_merge_lines(ls: Seq<Seq<char>>)
    ensures
        visible(merge_lines(ls)) == visible_lines(ls),
    decreases ls.len(),
{
    if ls.len() == 0 {
    } else if ls.len() >= 2 && is_label_line(ls[0]) && is_value_line(ls[1]) {
        lemma_visible_merge_lines(ls.skip(2));
        lemma_visible_joined(ls[0], ls[1]);
        lemma_visible_add(joined_line(ls[0], ls[1]), merge_lines(ls.skip(2)));
        assert(ls.skip(1).skip(1) =~= ls.skip(2));
        assert(ls.skip(1)[0] == ls[1]);
        assert(visible_lines(ls.skip(1)) == visible(ls[1]) + visible_lines(ls.skip(2)));
        assert(visible_lines(ls) == visible(ls[0]) + visible_lines(ls.skip(1)));
        assert(visible(ls[0]) + (visible(ls[1]) + visible_lines(ls.skip(2))) =~= visible(ls[0])
            + visible(ls[1]) + visible_lines(ls.skip(2)));
    } else if ls.len() >= 3 && is_label_line(ls[0]) && is_blank_line(ls[1]) && is_value_line(
        ls[2],
    ) {
        lemma_visible_merge_lines(ls.skip(3));
        lemma_visible_joined(ls[0], ls[2]);
        lemma_visible_add(joined_line(ls[0], ls[2]), merge_lines(ls.skip(3)));
        assert(ls.skip(1).skip(1) =~= ls.skip(2));
        assert(ls.skip(2).skip(1) =~= ls.skip(3));
        assert(ls.skip(1)[0] == ls[1]);
        assert(ls.skip(2)[0] == ls[2]);
        lemma_visible_trim(ls[1]);
        assert(visible(ls[1]) =~= Seq::<char>::empty());
        assert(Seq::<char>::empty() + visible_lines(ls.skip(2)) =~= visible_lines(ls.skip(2)));
        assert(visible_lines(ls.skip(2)) == visible(ls[2]) + visible_lines(ls.skip(3)));
        assert(visible_lines(ls.skip(1)) == visible(ls[1]) + visible_lines(ls.skip(2)));
        assert(visible_lines(ls) == visible(ls[0]) + visible_lines(ls.skip(1)));
        assert(visible(ls[0]) + (visible(ls[2]) + visible_lines(ls.skip(3))) =~= visible(ls[0])
            + visible(ls[2]) + visible_lines(ls.skip(3)));
    } else {
        lemma_visible_merge_lines(ls.skip(1));
        lemma_visible_add(ls[0] + seq!['\n'], merge_lines(ls.skip(1)));
        lemma_visible_add(ls[0], seq!['\n']);
        lemma_visible_all_white(seq!['\n']);
        assert(visible(ls[0]) + Seq::<char>::empty() =~= visible(ls[0]));
        assert(visible_lines(ls) == visible(ls[0]) + visible_lines(ls.skip(1)));
    }
}

/// Merging changes only whitespace: the text keeps every other character, in
/// the same order.
pub proof fn law_merge_changes_only_whitespace(text: Seq<char>)
    ensures
        visible(merge_key_value_spec(text)) == visible(text),
{
    if lines_of(text).len() >= 2 {
        let merged = merge_lines(lines_of(text));
        lemma_visible_merge_lines(lines_of(text));
        lemma_visible_lines_of(text);
        lemma_visible_strip_trailing_newlines(merged);
        lemma_visible_add(
            strip_trailing_newlines(merged),
            newlines(trailing_newlines(text)),
        );
        lemma_visible_newlines(trailing_newlines(text));
        assert(visible(text) + Seq::<char>::empty() =~= visible(text));
    }
}

/// Merging keeps the number of newlines that end the text.
pub proof fn law_merge_keeps_trailing_newlines(text: Seq<char>)
    ensures
        trailing_newlines(merge_key_value_spec(text)) == trailing_newlines(text),
{
    if lines_of(text).len() >= 2 {
        let merged = merge_lines(lines_of(text));
        lemma_strip_trailing_newlines_ends(merged);
        lemma_trailing_newlines_append(
            strip_trailing_newlines(merged),
            trailing_newlines(text),
        );
    }
}

/// True when every character of `d` is an ASCII digit.
pub open spec fn all_ascii_digits(d: Seq<char>) -> bool {
    forall|i: int| 0 <= i < d.len() ==> '0' <= #[trigger] d[i] && d[i] <= '9'
}

/// A label line directly followed by a short amount is joined with it into
/// one line. An amount here is a leading digit, currency sign (`$`, euro,
/// pound, yen), opening parenthesis, minus sign or period (as in `.50`),
/// followed by digits, fewer than 30 characters in all.
pub proof fn law_label_joins_amount(label: Seq<char>, lead: char, digits: Seq<char>)
    requires
        is_label_line(label),
        ('0' <= lead && lead <= '9') || lead == '$' || lead == '\u{20AC}' || lead == '\u{A3}'
            || lead == '\u{A5}' || lead == '(' || lead == '-' || lead == '.',
        all_ascii_digits(digits),
        digits.len() < 29,
    ensures
        is_value_line(seq![lead] + digits),
        merge_lines(seq![label, seq![lead] + digits]) == trim_end(label) + seq![' ', lead]
            + digits + seq!['\n'],
{
    let v = seq![lead] + digits;
    assert(v[0] == lead);
    assert(!is_white_space(lead));
    assert(trim_start(v) == v);
    assert(!is_white_space(v.last())) by {
        if digits.len() > 0 {
            assert(v.last() == digits[digits.len() - 1]);
        }
    }
    assert(trim_end(v) == v);
    let ls = seq![label, v];
    assert(ls[0] == label && ls[1] == v);
    assert(ls.skip(2) =~= Seq::<Seq<char>>::empty());
    assert(merge_lines(ls.skip(2)) == Seq::<char>::empty());
    assert(trim_start(v) + seq!['\n'] =~= seq![lead] + digits + seq!['\n']);
    assert(trim_end(label) + seq![' '] + trim_start(v) + seq!['\n'] =~= trim_end(label) + seq![
        ' ',
        lead,
    ] + digits + seq!['\n']);
}

} // verus!
