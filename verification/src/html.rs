//! HTML output: escaping, paragraphs of plain documents, the PDF preview
//! frame, Markdown rendering and the body of converted HTML documents.
use vstd::prelude::*;
use crate::text::{
    chars_of, string_of, trim, trim_end, trim_start, is_space, trimmed, occurs_at, contains_seq, find_from,
    lower_seq, ascii_lower_chars,
};

verus! {

/// What `escape_html` writes for one character.
pub open spec fn escape_char(c: char) -> Seq<char> {
    if c == '&' {
        seq!['&', 'a', 'm', 'p', ';']
    } else if c == '<' {
        seq!['&', 'l', 't', ';']
    } else if c == '>' {
        seq!['&', 'g', 't', ';']
    } else if c == '"' {
        seq!['&', 'q', 'u', 'o', 't', ';']
    } else {
        seq![c]
    }
}

/// `s` with `&`, `<`, `>` and `"` written as entities.
pub open spec fn escaped(s: Seq<char>) -> Seq<char>
    decreases s.len(),
{
    if s.len() == 0 {
        Seq::empty()
    } else {
        escaped(s.drop_last()) + escape_char(s.last())
    }
}

/// `s` with each line feed written as `<br>`.
pub open spec fn breaks_marked(s: Seq<char>) -> Seq<char>
    decreases s.len(),
{
    if s.len() == 0 {
        Seq::empty()
    } else {
        breaks_marked(s.drop_last()) + if s.last() == '\n' {
            seq!['<', 'b', 'r', '>']
        } else {
            seq![s.last()]
        }
    }
}

fn push_chars(out: &mut Vec<char>, s: &[char])
    ensures
        final(out)@ == old(out)@ + s@,
{
    let ghost start = out@;
    let mut i: usize = 0;
    while i < s.len()
        invariant
            i <= s@.len(),
            out@ == start + s@.subrange(0, i as int),
        decreases s.len() - i,
    {
        out.push(s[i]);
        i = i + 1;
        assert(out@ =~= start + s@.subrange(0, i as int));
    }
    assert(s@.subrange(0, i as int) =~= s@);
}

/// Appends the characters of a string.
pub fn push_str_chars(out: &mut Vec<char>, s: &str)
    ensures
        final(out)@ == old(out)@ + s@,
{
    let v = chars_of(s);
    push_chars(out, &v);
}

/// Appends `s` with HTML special characters escaped.
pub fn push_escaped(out: &mut Vec<char>, s: &[char])
    ensures
        final(out)@ == old(out)@ + escaped(s@),
{
    let ghost start = out@;
    let mut i: usize = 0;
    while i < s.len()
        invariant
            i <= s@.len(),
            out@ == start + escaped(s@.subrange(0, i as int)),
        decreases s.len() - i,
    {
        let c = s[i];
        if c == '&' {
            out.push('&');
            out.push('a');
            out.push('m');
            out.push('p');
            out.push(';');
        } else if c == '<' {
            out.push('&');
            out.push('l');
            out.push('t');
            out.push(';');
        } else if c == '>' {
            out.push('&');
            out.push('g');
            out.push('t');
            out.push(';');
        } else if c == '"' {
            out.push('&');
            out.push('q');
            out.push('u');
            out.push('o');
            out.push('t');
            out.push(';');
        } else {
            out.push(c);
        }
        proof {
            assert(s@.subrange(0, i + 1).drop_last() =~= s@.subrange(0, i as int));
        }
        i = i + 1;
        assert(out@ =~= start + escaped(s@.subrange(0, i as int)));
    }
    assert(s@.subrange(0, i as int) =~= s@);
}

/// Escapes `&`, `<`, `>` and `"` so that text can stand in HTML.
pub fn escape_html(input: &str) -> (out: String)
    ensures
        out@ == escaped(input@),
{
    let s = chars_of(input);
    let mut out: Vec<char> = Vec::new();
    push_escaped(&mut out, &s);
    string_of(&out)
}

/// Escaped text holds no `<`, `>` or `"`: it cannot open a tag or close an
/// attribute value.
pub proof fn lemma_escaped_is_inert(s: Seq<char>)
    ensures
        forall|k: int|
            0 <= k < escaped(s).len() ==> {
                let c = #[trigger] escaped(s)[k];
                c != '<' && c != '>' && c != '"'
            },
    decreases s.len(),
{
    if s.len() > 0 {
        lemma_escaped_is_inert(s.drop_last());
        let e = escape_char(s.last());
        assert forall|k: int| 0 <= k < e.len() implies {
            let c = #[trigger] e[k];
            c != '<' && c != '>' && c != '"'
        } by {}
        let p = escaped(s.drop_last());
        assert forall|k: int| 0 <= k < escaped(s).len() implies {
            let c = #[trigger] escaped(s)[k];
            c != '<' && c != '>' && c != '"'
        } by {
            if k < p.len() {
                assert(escaped(s)[k] == p[k]);
            } else {
                assert(escaped(s)[k] == e[k - p.len()]);
            }
        }
    }
}

/// Escaping works character by character: the escape of joined texts is
/// the escapes joined, and `&`, `<`, `>` and `"` are written `&amp;`,
/// `&lt;`, `&gt;` and `&quot;`.
pub proof fn lemma_escape_concat(s: Seq<char>, t: Seq<char>)
    ensures
        escaped(s + t) == escaped(s) + escaped(t),
        escaped(seq!['&']) == seq!['&', 'a', 'm', 'p', ';'],
        escaped(seq!['<']) == seq!['&', 'l', 't', ';'],
        escaped(seq!['>']) == seq!['&', 'g', 't', ';'],
        escaped(seq!['"']) == seq!['&', 'q', 'u', 'o', 't', ';'],
    decreases t.len(),
{
    if t.len() > 0 {
        lemma_escape_concat(s, t.drop_last());
        assert((s + t).drop_last() =~= s + t.drop_last());
        assert((s + t).last() == t.last());
        assert(escaped(s) + escaped(t.drop_last()) + escape_char(t.last()) =~= escaped(s) + (escaped(
            t.drop_last(),
        ) + escape_char(t.last())));
    } else {
        assert(s + t =~= s);
        assert(escaped(s) + Seq::<char>::empty() =~= escaped(s));
    }
    assert(seq!['&'].drop_last() =~= Seq::<char>::empty());
    assert(seq!['<'].drop_last() =~= Seq::<char>::empty());
    assert(seq!['>'].drop_last() =~= Seq::<char>::empty());
    assert(seq!['"'].drop_last() =~= Seq::<char>::empty());
    assert(escaped(Seq::<char>::empty()) == Seq::<char>::empty());
    assert(seq!['&'].last() == '&' && seq!['<'].last() == '<' && seq!['>'].last() == '>'
        && seq!['"'].last() == '"');
    assert(escaped(seq!['&']) == escaped(seq!['&'].drop_last()) + escape_char('&'));
    assert(escaped(seq!['<']) == escaped(seq!['<'].drop_last()) + escape_char('<'));
    assert(escaped(seq!['>']) == escaped(seq!['>'].drop_last()) + escape_char('>'));
    assert(escaped(seq!['"']) == escaped(seq!['"'].drop_last()) + escape_char('"'));
    assert(Seq::<char>::empty() + seq!['&', 'a', 'm', 'p', ';'] =~= seq!['&', 'a', 'm', 'p', ';']);
    assert(Seq::<char>::empty() + seq!['&', 'l', 't', ';'] =~= seq!['&', 'l', 't', ';']);
    assert(Seq::<char>::empty() + seq!['&', 'g', 't', ';'] =~= seq!['&', 'g', 't', ';']);
    assert(Seq::<char>::empty() + seq!['&', 'q', 'u', 'o', 't', ';'] =~= seq!['&', 'q', 'u', 'o', 't', ';']);
}

/// Text without `&`, `<`, `>` and `"` is left as it is by escaping.
pub proof fn lemma_escape_plain_text(s: Seq<char>)
    requires
        forall|k: int|
            0 <= k < s.len() ==> {
                let c = #[trigger] s[k];
                c != '&' && c != '<' && c != '>' && c != '"'
            },
    ensures
        escaped(s) == s,
    decreases s.len(),
{
    if s.len() > 0 {
        let d = s.drop_last();
        assert forall|k: int| 0 <= k < d.len() implies {
            let c = #[trigger] d[k];
            c != '&' && c != '<' && c != '>' && c != '"'
        } by {
            assert(d[k] == s[k]);
        }
        lemma_escape_plain_text(d);
        assert(s[s.len() - 1] == s.last());
        assert(d.push(s.last()) =~= s);
    }
}

/// Appends `s` with HTML special characters escaped and line feeds written
/// as `<br>`.
fn push_paragraph_text(out: &mut Vec<char>, s: &[char])
    ensures
        final(out)@ == old(out)@ + breaks_marked(escaped(s@)),
{
    let mut esc: Vec<char> = Vec::new();
    push_escaped(&mut esc, s);
    assert(esc@ =~= escaped(s@));
    let ghost start = out@;
    let mut i: usize = 0;
    while i < esc.len()
        invariant
            i <= esc@.len(),
            out@ == start + breaks_marked(esc@.subrange(0, i as int)),
        decreases esc.len() - i,
    {
        let c = esc[i];
        if c == '\n' {
            out.push('<');
            out.push('b');
            out.push('r');
            out.push('>');
        } else {
            out.push(c);
        }
        proof {
            assert(esc@.subrange(0, i + 1).drop_last() =~= esc@.subrange(0, i as int));
        }
        i = i + 1;
        assert(out@ =~= start + breaks_marked(esc@.subrange(0, i as int)));
    }
    assert(esc@.subrange(0, i as int) =~= esc@);
}

/// Index of the first `\n\n` at or after `i`, or the length of `s`.
pub open spec fn next_break(s: Seq<char>, i: int) -> int
    decreases s.len() - i,
{
    if i < 0 || i + 1 >= s.len() {
        s.len() as int
    } else if s[i] == '\n' && s[i + 1] == '\n' {
        i
    } else {
        next_break(s, i + 1)
    }
}

pub proof fn lemma_next_break(s: Seq<char>, i: int)
    requires
        0 <= i <= s.len(),
    ensures
        i <= next_break(s, i) <= s.len(),
        next_break(s, i) < s.len() ==> next_break(s, i) + 2 <= s.len(),
    decreases s.len() - i,
{
    if i + 1 < s.len() && !(s[i] == '\n' && s[i + 1] == '\n') {
        lemma_next_break(s, i + 1);
    }
}

/// The HTML of one paragraph: empty when it is only white space, else its
/// trimmed text escaped, line feeds as `<br>`, inside `<p>`.
pub open spec fn paragraph_html(p: Seq<char>) -> Seq<char> {
    let t = trim(p);
    if t.len() == 0 {
        Seq::empty()
    } else {
        seq!['<', 'p', '>'] + breaks_marked(escaped(t)) + seq!['<', '/', 'p', '>']
    }
}

/// The HTML of the paragraphs of `s` from index `start` on; paragraphs are
/// separated by `\n\n`.
pub open spec fn paragraphs_html_from(s: Seq<char>, start: int) -> Seq<char>
    decreases s.len() - start,
{
    if start < 0 || start > s.len() {
        Seq::empty()
    } else {
        proof {
            lemma_next_break(s, start);
        }
        let j = next_break(s, start);
        if j >= s.len() {
            paragraph_html(s.subrange(start, s.len() as int))
        } else {
            paragraph_html(s.subrange(start, j)) + paragraphs_html_from(s, j + 2)
        }
    }
}

/// The HTML of a plain document: its paragraphs, or one empty paragraph
/// when none has text.
pub open spec fn document_html(s: Seq<char>) -> Seq<char> {
    let body = paragraphs_html_from(s, 0);
    if body.len() == 0 {
        seq!['<', 'p', '>', '<', '/', 'p', '>']
    } else {
        body
    }
}

fn push_paragraph(out: &mut Vec<char>, s: &[char], start: usize, end: usize)
    requires
        start <= end <= s@.len(),
    ensures
        final(out)@ == old(out)@ + paragraph_html(s@.subrange(start as int, end as int)),
{
    let t = trimmed(s, start, end);
    if t.len() > 0 {
        out.push('<');
        out.push('p');
        out.push('>');
        push_paragraph_text(out, &t);
        out.push('<');
        out.push('/');
        out.push('p');
        out.push('>');
        assert(final(out)@ =~= old(out)@ + paragraph_html(s@.subrange(start as int, end as int)));
    }
}

/// Appends the paragraphs of the characters `s` as HTML.
fn push_document(out: &mut Vec<char>, s: &[char])
    ensures
        final(out)@ == old(out)@ + paragraphs_html_from(s@, 0),
{
    let ghost base = old(out)@;
    let mut start: usize = 0;
    loop
        invariant
            start <= s@.len(),
            base == old(out)@,
            base + paragraphs_html_from(s@, 0) == out@ + paragraphs_html_from(s@, start as int),
        decreases s@.len() - start,
    {
        proof {
            lemma_next_break(s@, start as int);
        }
        let mut j = start;
        while j < s.len() && s.len() - j > 1 && !(s[j] == '\n' && s[j + 1] == '\n')
            invariant
                start <= j <= s@.len(),
                next_break(s@, start as int) == next_break(s@, j as int),
            decreases s.len() - j,
        {
            j = j + 1;
        }
        if s.len() - j <= 1 {
            let ghost before = out@;
            push_paragraph(out, s, start, s.len());
            assert(out@ == before + paragraphs_html_from(s@, start as int));
            assert(out@ == base + paragraphs_html_from(s@, 0));
            return;
        }
        let ghost before = out@;
        push_paragraph(out, s, start, j);
        assert(before + paragraphs_html_from(s@, start as int) =~= out@ + paragraphs_html_from(
            s@,
            j + 2,
        ));
        start = j + 2;
    }
}

/// Renders a plain document as HTML paragraphs.
pub fn render_document(source: &str) -> (html: String)
    ensures
        html@ == document_html(source@),
{
    let s = chars_of(source);
    let mut out: Vec<char> = Vec::new();
    push_document(&mut out, &s);
    assert(out@ =~= paragraphs_html_from(s@, 0));
    if out.len() == 0 {
        let empty = vec!['<', 'p', '>', '<', '/', 'p', '>'];
        assert(empty@ =~= seq!['<', 'p', '>', '<', '/', 'p', '>']);
        string_of(&empty)
    } else {
        string_of(&out)
    }
}

/// Text that holds no `\n\n`.
pub open spec fn no_blank_line(a: Seq<char>) -> bool {
    forall|k: int| 0 <= k < a.len() - 1 ==> !(#[trigger] a[k] == '\n' && a[k + 1] == '\n')
}

proof fn lemma_next_break_shift(p: Seq<char>, r: Seq<char>, i: int)
    requires
        0 <= i <= r.len(),
    ensures
        next_break(p + r, p.len() + i) == p.len() + next_break(r, i),
    decreases r.len() - i,
{
    let s = p + r;
    if i + 1 < r.len() {
        assert(s[p.len() + i] == r[i] && s[p.len() + i + 1] == r[i + 1]);
        lemma_next_break_shift(p, r, i + 1);
    }
}

proof fn lemma_paragraphs_shift(p: Seq<char>, r: Seq<char>, i: int)
    requires
        0 <= i <= r.len(),
    ensures
        paragraphs_html_from(p + r, p.len() + i) == paragraphs_html_from(r, i),
    decreases r.len() - i,
{
    let s = p + r;
    let n = p.len() as int;
    lemma_next_break(r, i);
    lemma_next_break_shift(p, r, i);
    let j = next_break(r, i);
    if j >= r.len() {
        assert(s.subrange(n + i, s.len() as int) =~= r.subrange(i, r.len() as int));
    } else {
        assert(s.subrange(n + i, n + j) =~= r.subrange(i, j));
        lemma_paragraphs_shift(p, r, j + 2);
    }
}

proof fn lemma_break_after(a: Seq<char>, r: Seq<char>, k: int)
    requires
        0 <= k <= a.len(),
        no_blank_line(a),
        a.len() == 0 || a.last() != '\n',
    ensures
        next_break(a + seq!['\n', '\n'] + r, k) == a.len(),
    decreases a.len() - k,
{
    let s = a + seq!['\n', '\n'] + r;
    assert(s[a.len() as int] == '\n' && s[a.len() as int + 1] == '\n');
    if k < a.len() {
        assert(s[k] == a[k]);
        if k + 1 < a.len() {
            assert(s[k + 1] == a[k + 1]);
        } else {
            assert(a[k] == a.last());
        }
        lemma_break_after(a, r, k + 1);
    }
}

/// Every `\n\n` closes a paragraph: a document made of a paragraph `a`,
/// a blank line and the rest `r` renders as `a`'s paragraph followed by the
/// paragraphs of `r`, each as if it stood alone.
pub proof fn lemma_paragraph_break(a: Seq<char>, r: Seq<char>)
    requires
        no_blank_line(a),
        a.len() == 0 || a.last() != '\n',
    ensures
        paragraphs_html_from(a + seq!['\n', '\n'] + r, 0) == paragraph_html(a)
            + paragraphs_html_from(r, 0),
        trim(a).len() > 0 ==> document_html(a + seq!['\n', '\n'] + r) == paragraph_html(a)
            + paragraphs_html_from(r, 0),
{
    let s = a + seq!['\n', '\n'] + r;
    lemma_break_after(a, r, 0);
    assert(s.subrange(0, a.len() as int) =~= a);
    let p = a + seq!['\n', '\n'];
    assert(s == p + r);
    lemma_paragraphs_shift(p, r, 0);
}

proof fn lemma_no_break_from(a: Seq<char>, k: int)
    requires
        0 <= k <= a.len(),
        no_blank_line(a),
    ensures
        next_break(a, k) == a.len(),
    decreases a.len() - k,
{
    if k + 1 < a.len() {
        lemma_no_break_from(a, k + 1);
    }
}

/// A document without a blank line is one paragraph.
pub proof fn lemma_single_paragraph(a: Seq<char>)
    requires
        no_blank_line(a),
    ensures
        paragraphs_html_from(a, 0) == paragraph_html(a),
{
    lemma_no_break_from(a, 0);
    assert(a.subrange(0, a.len() as int) =~= a);
}

proof fn lemma_breaks_marked_plain(s: Seq<char>)
    requires
        !s.contains('\n'),
    ensures
        breaks_marked(s) == s,
    decreases s.len(),
{
    if s.len() > 0 {
        let d = s.drop_last();
        assert(!d.contains('\n')) by {
            if d.contains('\n') {
                let k = choose|k: int| 0 <= k < d.len() && d[k] == '\n';
                assert(s[k] == '\n');
            }
        }
        lemma_breaks_marked_plain(d);
        assert(s.last() == s[s.len() - 1]);
        assert(d.push(s.last()) =~= s);
    }
}

/// A paragraph of plain words, neither starting nor ending in white space
/// and without line feeds or HTML special characters, is written as it is
/// inside `<p>`; a paragraph of white space only is dropped.
pub proof fn lemma_plain_paragraph(a: Seq<char>)
    ensures
        trim(a).len() == 0 ==> paragraph_html(a) == Seq::<char>::empty(),
        (a.len() > 0 && !is_space(a[0]) && !is_space(a.last()) && !a.contains('\n') && forall|
            k: int,
        |
            0 <= k < a.len() ==> {
                let c = #[trigger] a[k];
                c != '&' && c != '<' && c != '>' && c != '"'
            }) ==> paragraph_html(a) == seq!['<', 'p', '>'] + a + seq!['<', '/', 'p', '>'],
{
    if a.len() > 0 && !is_space(a[0]) && !is_space(a.last()) && !a.contains('\n') && forall|
        k: int,
    |
        0 <= k < a.len() ==> {
            let c = #[trigger] a[k];
            c != '&' && c != '<' && c != '>' && c != '"'
        } {
        assert(trim_end(a) == a);
        assert(trim_start(a) == a);
        lemma_escape_plain_text(a);
        lemma_breaks_marked_plain(a);
    }
}

/// The rendering of a document is never empty.
pub proof fn lemma_document_html_nonempty(s: Seq<char>)
    ensures
        document_html(s).len() > 0,
{
}


/// pulldown-cmark's option bit that enables tables.
pub const MARKDOWN_TABLES: u32 = 2;
/// pulldown-cmark's option bit that enables footnotes.
pub const MARKDOWN_FOOTNOTES: u32 = 4;
/// pulldown-cmark's option bit that enables strikethrough.
pub const MARKDOWN_STRIKETHROUGH: u32 = 8;
/// pulldown-cmark's option bit that enables task lists.
pub const MARKDOWN_TASKLISTS: u32 = 16;

/// The Markdown extensions that previews enable: tables, footnotes,
/// strikethrough and task lists.
pub const MARKDOWN_OPTIONS: u32 = MARKDOWN_TABLES | MARKDOWN_FOOTNOTES | MARKDOWN_STRIKETHROUGH
    | MARKDOWN_TASKLISTS;

/// What `pulldown_cmark` renders a Markdown source to with the extensions
/// whose option bits `options` holds.
pub uninterp spec fn markdown_html(source: Seq<char>, options: u32) -> Seq<char>;

/// Calls `pulldown_cmark::Parser::new_ext` with `Options::from_bits_truncate`
/// of the option bits and `pulldown_cmark::html::push_html` on its events;
/// the HTML is named `markdown_html` of the source and the bits.
#[verifier::external_body]
fn markdown_to_html(source: &str, options: u32) -> (html: String)
    ensures
        html@ == markdown_html(source@, options),
{
    let parser = pulldown_cmark::Parser::new_ext(source, pulldown_cmark::Options::from_bits_truncate(options));
    let mut output = String::new();
    pulldown_cmark::html::push_html(&mut output, parser);
    output
}

/// Renders Markdown to HTML with tables, footnotes, strikethrough and task
/// lists enabled.
pub fn render_markdown(source: &str) -> (html: String)
    ensures
        html@ == markdown_html(source@, MARKDOWN_OPTIONS),
{
    markdown_to_html(source, MARKDOWN_OPTIONS)
}

/// The decimal digit character of `d < 10`.
pub open spec fn digit_char(d: nat) -> char {
    ((48 + d) as u32) as char
}

/// The decimal notation of `n`.
pub open spec fn decimal(n: nat) -> Seq<char>
    decreases n,
{
    if n < 10 {
        seq![digit_char(n)]
    } else {
        decimal(n / 10) + seq![digit_char(n % 10)]
    }
}

/// The decimal notation of a number.
pub fn decimal_chars(n: u64) -> (r: Vec<char>)
    ensures
        r@ == decimal(n as nat),
    decreases n,
{
    let d: u8 = (n % 10) as u8;
    let c: char = (48u8 + d) as char;
    if n < 10 {
        vec![c]
    } else {
        let mut r = decimal_chars(n / 10);
        r.push(c);
        r
    }
}

/// The HTML of a PDF preview: the received file shown from its binary URL,
/// with the extracted text rendered as a document as fallback.
pub open spec fn pdf_preview_html(id: nat, text: Seq<char>) -> Seq<char> {
    "<div class=\"pdf-preview\"><object data=\"/api/files/"@ + decimal(id)
        + "/binary\" type=\"application/pdf\"><div class=\"pdf-fallback\">"@ + document_html(text)
        + "</div></object></div>"@
}

/// Renders the preview of a stored PDF.
pub fn render_pdf(id: u64, extracted_text: &str) -> (html: String)
    ensures
        html@ == pdf_preview_html(id as nat, extracted_text@),
{
    let mut out: Vec<char> = Vec::new();
    push_str_chars(&mut out, "<div class=\"pdf-preview\"><object data=\"/api/files/");
    let digits = decimal_chars(id);
    push_chars(&mut out, &digits);
    push_str_chars(&mut out, "/binary\" type=\"application/pdf\"><div class=\"pdf-fallback\">");
    let doc = render_document(extracted_text);
    let doc_chars = chars_of(doc.as_str());
    push_chars(&mut out, &doc_chars);
    push_str_chars(&mut out, "</div></object></div>");
    string_of(&out)
}

/// The first index at or after `i` where `pat` occurs in `s`.
pub open spec fn first_occurrence(s: Seq<char>, pat: Seq<char>, i: int) -> Option<int>
    decreases s.len() + 1 - i,
{
    if i < 0 || i > s.len() {
        None
    } else if occurs_at(s, pat, i) {
        Some(i)
    } else {
        first_occurrence(s, pat, i + 1)
    }
}

proof fn lemma_first_occurrence_none(s: Seq<char>, pat: Seq<char>, i: int)
    requires
        0 <= i,
        forall|j: int| i <= j ==> !occurs_at(s, pat, j),
    ensures
        first_occurrence(s, pat, i) is None,
    decreases s.len() + 1 - i,
{
    if i <= s.len() {
        lemma_first_occurrence_none(s, pat, i + 1);
    }
}

proof fn lemma_first_occurrence_some(s: Seq<char>, pat: Seq<char>, i: int, k: int)
    requires
        0 <= i <= k,
        occurs_at(s, pat, k),
        forall|j: int| i <= j < k ==> !occurs_at(s, pat, j),
    ensures
        first_occurrence(s, pat, i) == Some(k),
    decreases k - i,
{
    if i < k {
        lemma_first_occurrence_some(s, pat, i + 1, k);
    }
}

/// The first occurrence of `pat` in `s` at or after `from`.
pub fn find_first(s: &[char], pat: &[char], from: usize) -> (r: Option<usize>)
    ensures
        match r {
            Some(k) => from <= k && occurs_at(s@, pat@, k as int) && first_occurrence(
                s@,
                pat@,
                from as int,
            ) == Some(k as int),
            None => first_occurrence(s@, pat@, from as int) is None,
        },
{
    let r = find_from(s, pat, from);
    proof {
        match r {
            Some(k) => lemma_first_occurrence_some(s@, pat@, from as int, k as int),
            None => lemma_first_occurrence_none(s@, pat@, from as int),
        }
    }
    r
}

/// The body of an HTML document: what stands between the end of the first
/// `<body` tag and the following `</body>` (tags matched without regard to
/// ASCII case), trimmed; the whole document when it has no `<body`.
pub open spec fn body_of(html: Seq<char>) -> Seq<char> {
    let lower = lower_seq(html);
    match first_occurrence(lower, "<body"@, 0) {
        None => html,
        Some(b) => {
            let after = match first_occurrence(lower, ">"@, b) {
                Some(g) => g + 1,
                None => b,
            };
            let end = match first_occurrence(lower, "</body>"@, after) {
                Some(e) => e,
                None => html.len() as int,
            };
            trim(html.subrange(after, end))
        },
    }
}

/// Extracts the body of an HTML document.
pub fn extract_body_html(html: &str) -> (body: String)
    ensures
        body@ == body_of(html@),
{
    let h = chars_of(html);
    let lower = ascii_lower_chars(&h);
    let open = chars_of("<body");
    let body_start = match find_first(&lower, &open, 0) {
        Some(b) => b,
        None => return string_of(&h),
    };
    let close_angle = chars_of(">");
    let after = match find_first(&lower, &close_angle, body_start) {
        Some(g) => {
            proof {
                reveal_strlit(">");
                assert(close_angle@.len() == 1);
                assert(occurs_at(lower@, close_angle@, g as int));
                assert(g + 1 <= lower@.len());
                assert(lower@.len() == lower.len());
            }
            g + 1
        },
        None => body_start,
    };
    proof {
        assert(occurs_at(lower@, open@, body_start as int));
        assert(lower@.len() == h@.len());
    }
    let close = chars_of("</body>");
    let end = match find_first(&lower, &close, after) {
        Some(e) => {
            proof {
                assert(occurs_at(lower@, close@, e as int));
            }
            e
        },
        None => h.len(),
    };
    let t = trimmed(&h, after, end);
    string_of(&t)
}


/// HTML without a `<body` tag, in any ASCII case, is kept whole as its own
/// body.
pub proof fn lemma_body_of_bodyless(html: Seq<char>)
    requires
        !contains_seq(lower_seq(html), "<body"@),
    ensures
        body_of(html) == html,
{
    lemma_first_occurrence_none(lower_seq(html), "<body"@, 0);
}

} // verus!
