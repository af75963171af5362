//! Plain text from stored documents: legacy binary Word files, the text of
//! any bytes, and the normalisation applied to every extracted text.
use vstd::prelude::*;
use vstd::utf8::{decode_utf8, valid_utf8};
use crate::text::{
    chars_of, string_of, utf8_lossy, lossy_utf8, is_space, is_space_char, trim, trim_end,
    trim_start, trim_end_index, trim_start_index, lemma_trim_end_index, lemma_trim_start_index,
    trimmed,
};

verus! {

/// The bytes that a legacy binary document keeps as text: printable ASCII,
/// space, line feed, carriage return and tab.
pub open spec fn legacy_text_byte(b: u8) -> bool {
    (0x21 <= b && b <= 0x7e) || b == 0x20 || b == 0x0a || b == 0x0d || b == 0x09
}

/// The characters of ASCII bytes.
pub open spec fn ascii_chars(run: Seq<u8>) -> Seq<char> {
    run.map_values(|b: u8| b as char)
}

/// Scans bytes from the left: the text of the runs already closed, and the
/// run of text bytes still open. A run is kept, followed by a line feed,
/// when it holds at least four bytes.
pub open spec fn legacy_scan(bytes: Seq<u8>) -> (Seq<char>, Seq<u8>)
    decreases bytes.len(),
{
    if bytes.len() == 0 {
        (Seq::empty(), Seq::empty())
    } else {
        let (out, run) = legacy_scan(bytes.drop_last());
        let b = bytes.last();
        if legacy_text_byte(b) {
            (out, run.push(b))
        } else if run.len() >= 4 {
            (out + ascii_chars(run) + seq!['\n'], Seq::empty())
        } else {
            (out, Seq::empty())
        }
    }
}

/// The text of a legacy binary document: every run of at least four text
/// bytes, each closed run followed by a line feed.
pub open spec fn legacy_text(bytes: Seq<u8>) -> Seq<char> {
    let (out, run) = legacy_scan(bytes);
    if run.len() >= 4 {
        out + ascii_chars(run)
    } else {
        out
    }
}

fn is_legacy_text_byte(b: u8) -> (r: bool)
    ensures
        r == legacy_text_byte(b),
{
    (0x21 <= b && b <= 0x7e) || b == 0x20 || b == 0x0a || b == 0x0d || b == 0x09
}

fn push_ascii(out: &mut Vec<char>, run: &[u8])
    ensures
        final(out)@ == old(out)@ + ascii_chars(run@),
{
    let ghost start = out@;
    let mut i: usize = 0;
    while i < run.len()
        invariant
            i <= run@.len(),
            out@ == start + ascii_chars(run@.subrange(0, i as int)),
        decreases run.len() - i,
    {
        let b = run[i];
        out.push(b as char);
        i = i + 1;
        assert(out@ =~= start + ascii_chars(run@.subrange(0, i as int)));
    }
    assert(run@.subrange(0, i as int) =~= run@);
}

/// Recovers the text runs of a legacy binary (`.doc`) document.
pub fn legacy_binary_text(bytes: &[u8]) -> (text: String)
    ensures
        text@ == legacy_text(bytes@),
{
    let mut out: Vec<char> = Vec::new();
    let mut run: Vec<u8> = Vec::new();
    let mut i: usize = 0;
    while i < bytes.len()
        invariant
            i <= bytes@.len(),
            legacy_scan(bytes@.subrange(0, i as int)) == (out@, run@),
        decreases bytes.len() - i,
    {
        proof {
            assert(bytes@.subrange(0, i + 1).drop_last() =~= bytes@.subrange(0, i as int));
        }
        let b = bytes[i];
        if is_legacy_text_byte(b) {
            run.push(b);
        } else {
            if run.len() >= 4 {
                push_ascii(&mut out, &run);
                out.push('\n');
            }
            run = Vec::new();
        }
        i = i + 1;
    }
    assert(bytes@.subrange(0, i as int) =~= bytes@);
    if run.len() >= 4 {
        push_ascii(&mut out, &run);
    }
    string_of(&out)
}

/// A character that a legacy text byte stands for.
pub open spec fn legacy_text_char(c: char) -> bool {
    (c as u32) < 128 && legacy_text_byte((c as u32) as u8)
}

proof fn lemma_legacy_scan_chars(bytes: Seq<u8>)
    ensures
        forall|k: int|
            0 <= k < legacy_scan(bytes).0.len() ==> legacy_text_char(
                #[trigger] legacy_scan(bytes).0[k],
            ),
        forall|k: int|
            0 <= k < legacy_scan(bytes).1.len() ==> legacy_text_byte(
                #[trigger] legacy_scan(bytes).1[k],
            ),
    decreases bytes.len(),
{
    if bytes.len() > 0 {
        lemma_legacy_scan_chars(bytes.drop_last());
        let (out, run) = legacy_scan(bytes.drop_last());
        let b = bytes.last();
        if legacy_text_byte(b) {
            assert forall|k: int| 0 <= k < run.push(b).len() implies legacy_text_byte(
                #[trigger] run.push(b)[k],
            ) by {
                if k < run.len() {
                    assert(run.push(b)[k] == run[k]);
                }
            }
        } else if run.len() >= 4 {
            let nout = out + ascii_chars(run) + seq!['\n'];
            assert forall|k: int| 0 <= k < nout.len() implies legacy_text_char(#[trigger] nout[k]) by {
                if k < out.len() {
                    assert(nout[k] == out[k]);
                } else if k < out.len() + run.len() {
                    let r = run[k - out.len()];
                    assert(nout[k] == r as char);
                    assert(legacy_text_byte(r));
                    assert(((r as char) as u32) as u8 == r && ((r as char) as u32) < 128) by {
                        assert(r <= 0x7e);
                    }
                } else {
                    assert(nout[k] == '\n');
                }
            }
        }
    }
}

/// The text recovered from a legacy document holds only printable ASCII,
/// spaces, tabs, carriage returns and line feeds.
pub proof fn lemma_legacy_text_chars(bytes: Seq<u8>)
    ensures
        forall|k: int|
            0 <= k < legacy_text(bytes).len() ==> legacy_text_char(#[trigger] legacy_text(bytes)[k]),
{
    lemma_legacy_scan_chars(bytes);
    let (out, run) = legacy_scan(bytes);
    if run.len() >= 4 {
        let t = out + ascii_chars(run);
        assert forall|k: int| 0 <= k < t.len() implies legacy_text_char(#[trigger] t[k]) by {
            if k < out.len() {
                assert(t[k] == out[k]);
            } else {
                let r = run[k - out.len()];
                assert(t[k] == r as char);
                assert(legacy_text_byte(r));
                assert(((r as char) as u32) as u8 == r && ((r as char) as u32) < 128) by {
                    assert(r <= 0x7e);
                }
            }
        }
    }
}

proof fn lemma_legacy_scan_all_text(bytes: Seq<u8>)
    requires
        forall|k: int| 0 <= k < bytes.len() ==> legacy_text_byte(#[trigger] bytes[k]),
    ensures
        legacy_scan(bytes) == (Seq::<char>::empty(), bytes),
    decreases bytes.len(),
{
    if bytes.len() > 0 {
        let d = bytes.drop_last();
        assert forall|k: int| 0 <= k < d.len() implies legacy_text_byte(#[trigger] d[k]) by {
            assert(d[k] == bytes[k]);
        }
        lemma_legacy_scan_all_text(d);
        assert(legacy_text_byte(bytes[bytes.len() - 1]));
        assert(d.push(bytes.last()) =~= bytes);
    }
}

/// A run of text bytes is kept, as its ASCII characters, exactly when it
/// holds at least four bytes; a run closed by another byte is followed by a
/// line feed, and that byte is dropped.
pub proof fn lemma_legacy_runs(run: Seq<u8>, b: u8, rest: Seq<u8>)
    requires
        forall|k: int| 0 <= k < run.len() ==> legacy_text_byte(#[trigger] run[k]),
        !legacy_text_byte(b),
    ensures
        run.len() >= 4 ==> legacy_text(run) == ascii_chars(run),
        run.len() < 4 ==> legacy_text(run) == Seq::<char>::empty(),
        legacy_scan(run.push(b)) == (if run.len() >= 4 {
            ascii_chars(run) + seq!['\n']
        } else {
            Seq::<char>::empty()
        }, Seq::<u8>::empty()),
{
    lemma_legacy_scan_all_text(run);
    assert(run.push(b).drop_last() =~= run);
    assert(Seq::<char>::empty() + ascii_chars(run) =~= ascii_chars(run));
    assert(Seq::<char>::empty() + ascii_chars(run) + seq!['\n'] =~= ascii_chars(run) + seq!['\n']);
}

/// The text of any bytes read as UTF-8, invalid sequences replaced.
pub fn lossy_utf8_text(bytes: &[u8]) -> (text: String)
    ensures
        text@ == lossy_utf8(bytes@),
        valid_utf8(bytes@) ==> text@ == decode_utf8(bytes@),
        !valid_utf8(bytes@) ==> text@.contains('\u{fffd}'),
{
    utf8_lossy(bytes)
}

/// Scans text from the left: the lines already closed, each stripped of its
/// trailing white space and followed by a line feed, and the open line.
pub open spec fn line_scan(s: Seq<char>) -> (Seq<char>, Seq<char>)
    decreases s.len(),
{
    if s.len() == 0 {
        (Seq::empty(), Seq::empty())
    } else {
        let (done, cur) = line_scan(s.drop_last());
        if s.last() == '\n' {
            (done + trim_end(cur) + seq!['\n'], Seq::empty())
        } else {
            (done, cur.push(s.last()))
        }
    }
}

/// Normalised document text: every line stripped of trailing white space,
/// lines joined by line feeds, and the whole stripped of leading and
/// trailing white space.
pub open spec fn normalized(s: Seq<char>) -> Seq<char> {
    let (done, cur) = line_scan(s);
    trim(done + trim_end(cur))
}

/// Appends `s` without its trailing white space.
fn push_trim_end(out: &mut Vec<char>, s: &[char])
    ensures
        final(out)@ == old(out)@ + trim_end(s@),
{
    let mut e = s.len();
    while e > 0 && is_space_char(s[e - 1])
        invariant
            e <= s@.len(),
            trim_end_index(s@, 0, s@.len() as int) == trim_end_index(s@, 0, e as int),
        decreases e,
    {
        e = e - 1;
    }
    proof {
        lemma_trim_end_index(s@, 0, s@.len() as int);
        assert(s@.subrange(0, s@.len() as int) =~= s@);
    }
    let ghost start = out@;
    let mut i: usize = 0;
    while i < e
        invariant
            i <= e <= s@.len(),
            out@ == start + s@.subrange(0, i as int),
        decreases e - i,
    {
        out.push(s[i]);
        i = i + 1;
        assert(out@ =~= start + s@.subrange(0, i as int));
    }
}

/// Strips trailing white space from every line and leading and trailing
/// white space from the whole text.
pub fn normalize_document_text(input: &str) -> (text: String)
    ensures
        text@ == normalized(input@),
{
    let s = chars_of(input);
    let mut done: Vec<char> = Vec::new();
    let mut cur: Vec<char> = Vec::new();
    let mut i: usize = 0;
    while i < s.len()
        invariant
            i <= s@.len(),
            line_scan(s@.subrange(0, i as int)) == (done@, cur@),
        decreases s.len() - i,
    {
        proof {
            assert(s@.subrange(0, i + 1).drop_last() =~= s@.subrange(0, i as int));
        }
        let c = s[i];
        if c == '\n' {
            push_trim_end(&mut done, &cur);
            done.push('\n');
            cur = Vec::new();
        } else {
            cur.push(c);
        }
        i = i + 1;
    }
    assert(s@.subrange(0, i as int) =~= s@);
    push_trim_end(&mut done, &cur);
    let r = trimmed(&done, 0, done.len());
    assert(done@.subrange(0, done@.len() as int) =~= done@);
    string_of(&r)
}


/// Text in which no line ends in white space other than a line feed: every
/// line feed past the start follows a line feed or a character that is not
/// white space.
pub open spec fn lines_end_clean(t: Seq<char>) -> bool {
    forall|k: int|
        0 < k < t.len() && #[trigger] t[k] == '\n' ==> t[k - 1] == '\n' || !is_space(t[k - 1])
}

/// Text that starts and ends with a character that is not white space, or
/// is empty.
pub open spec fn is_trimmed(t: Seq<char>) -> bool {
    t.len() == 0 || (!is_space(t[0]) && !is_space(t.last()))
}

proof fn lemma_trim_end_no_space(s: Seq<char>)
    ensures
        trim_end(s).len() == 0 || !is_space(trim_end(s).last()),
        trim_end(s).len() <= s.len(),
        forall|k: int| 0 <= k < trim_end(s).len() ==> trim_end(s)[k] == s[k],
    decreases s.len(),
{
    if s.len() > 0 && is_space(s.last()) {
        lemma_trim_end_no_space(s.drop_last());
        assert forall|k: int| 0 <= k < trim_end(s).len() implies trim_end(s)[k] == s[k] by {
            assert(s.drop_last()[k] == s[k]);
        }
    }
}

proof fn lemma_trim_end_keeps(s: Seq<char>)
    requires
        s.len() == 0 || !is_space(s.last()),
    ensures
        trim_end(s) == s,
{
}

proof fn lemma_trim_start_keeps(s: Seq<char>)
    requires
        s.len() == 0 || !is_space(s[0]),
    ensures
        trim_start(s) == s,
{
}

proof fn lemma_end_index_space(s: Seq<char>, start: int, end: int)
    requires
        0 <= start <= end <= s.len(),
    ensures
        trim_end_index(s, start, end) == start || !is_space(s[trim_end_index(s, start, end) - 1]),
    decreases end - start,
{
    if end > start && is_space(s[end - 1]) {
        lemma_end_index_space(s, start, end - 1);
    }
}

proof fn lemma_start_index_space(s: Seq<char>, start: int, end: int)
    requires
        0 <= start <= end <= s.len(),
    ensures
        trim_start_index(s, start, end) == end || !is_space(s[trim_start_index(s, start, end)]),
    decreases end - start,
{
    if start < end && is_space(s[start]) {
        lemma_start_index_space(s, start + 1, end);
    }
}

/// `trim(t)` is a window of `t` that starts and ends with characters that
/// are not white space.
proof fn lemma_trim_window(t: Seq<char>) -> (w: (int, int))
    ensures
        0 <= w.0 <= w.1 <= t.len(),
        trim(t) == t.subrange(w.0, w.1),
        is_trimmed(trim(t)),
{
    assert(t.subrange(0, t.len() as int) =~= t);
    lemma_trim_end_index(t, 0, t.len() as int);
    let e = trim_end_index(t, 0, t.len() as int);
    lemma_trim_start_index(t, 0, e);
    let b = trim_start_index(t, 0, e);
    lemma_end_index_space(t, 0, t.len() as int);
    lemma_start_index_space(t, 0, e);
    let r = t.subrange(b, e);
    if r.len() > 0 {
        assert(r[0] == t[b]);
        assert(r.last() == t[e - 1]);
    }
    (b, e)
}

proof fn lemma_clean_window(t: Seq<char>, a: int, b: int)
    requires
        lines_end_clean(t),
        0 <= a <= b <= t.len(),
    ensures
        lines_end_clean(t.subrange(a, b)),
{
    let w = t.subrange(a, b);
    assert forall|k: int| 0 < k < w.len() && #[trigger] w[k] == '\n' implies w[k - 1] == '\n'
        || !is_space(w[k - 1]) by {
        assert(w[k] == t[a + k]);
        assert(w[k - 1] == t[a + k - 1]);
    }
}

/// What the line scan has produced: clean closed lines ending in a line
/// feed, and an open line without one.
proof fn lemma_line_scan_clean(s: Seq<char>)
    ensures
        lines_end_clean(line_scan(s).0),
        line_scan(s).0.len() == 0 || line_scan(s).0.last() == '\n',
        !line_scan(s).1.contains('\n'),
    decreases s.len(),
{
    if s.len() > 0 {
        lemma_line_scan_clean(s.drop_last());
        let (done, cur) = line_scan(s.drop_last());
        if s.last() == '\n' {
            lemma_trim_end_no_space(cur);
            let te = trim_end(cur);
            let nd = done + te + seq!['\n'];
            assert(line_scan(s).0 == nd);
            assert forall|k: int| 0 < k < nd.len() && #[trigger] nd[k] == '\n' implies nd[k - 1]
                == '\n' || !is_space(nd[k - 1]) by {
                if k < done.len() {
                    assert(nd[k] == done[k] && nd[k - 1] == done[k - 1]);
                } else if k < done.len() + te.len() {
                    assert(nd[k] == te[k - done.len()]);
                    assert(te[k - done.len()] == cur[k - done.len()]);
                    assert(cur.contains('\n'));
                } else {
                    if te.len() > 0 {
                        assert(nd[k - 1] == te.last());
                    } else {
                        assert(nd[k - 1] == done.last());
                    }
                }
            }
            let ncur = line_scan(s).1;
            assert(ncur.len() == 0);
        } else {
            let ncur = line_scan(s).1;
            assert(ncur == cur.push(s.last()));
            if ncur.contains('\n') {
                let k = choose|k: int| 0 <= k < ncur.len() && ncur[k] == '\n';
                if k < cur.len() {
                    assert(cur[k] == '\n');
                    assert(cur.contains('\n'));
                }
            }
        }
    }
}

/// On clean text, the line scan splits each prefix at its last line feed,
/// leaving the text as it is.
proof fn lemma_line_scan_of_clean(t: Seq<char>, i: int)
    requires
        lines_end_clean(t),
        0 <= i <= t.len(),
    ensures
        line_scan(t.subrange(0, i)).0 + line_scan(t.subrange(0, i)).1 == t.subrange(0, i),
        !line_scan(t.subrange(0, i)).1.contains('\n'),
    decreases i,
{
    let p = t.subrange(0, i);
    if i > 0 {
        assert(p.drop_last() =~= t.subrange(0, i - 1));
        lemma_line_scan_of_clean(t, i - 1);
        let (done, cur) = line_scan(t.subrange(0, i - 1));
        assert(p.last() == t[i - 1]);
        if t[i - 1] == '\n' {
            if cur.len() > 0 {
                assert(t.subrange(0, i - 1) == done + cur);
                assert(cur.last() == t[i - 2]);
                assert(cur.last() != '\n') by {
                    assert(cur[cur.len() - 1] == cur.last());
                }
                assert(!is_space(t[i - 2]));
            }
            lemma_trim_end_keeps(cur);
            assert(line_scan(p).0 + line_scan(p).1 =~= p);
        } else {
            assert(line_scan(p).0 + line_scan(p).1 =~= p);
            let ncur = line_scan(p).1;
            if ncur.contains('\n') {
                let k = choose|k: int| 0 <= k < ncur.len() && ncur[k] == '\n';
                if k < cur.len() {
                    assert(cur[k] == '\n');
                    assert(cur.contains('\n'));
                }
            }
        }
    } else {
        assert(p.len() == 0);
    }
}

/// Text that is already trimmed and whose lines do not end in white space
/// is left exactly as it is by normalisation: blank lines, indentation and
/// every other character included.
pub proof fn lemma_normalized_fixed_point(t: Seq<char>)
    requires
        lines_end_clean(t),
        is_trimmed(t),
    ensures
        normalized(t) == t,
{
    lemma_line_scan_of_clean(t, t.len() as int);
    assert(t.subrange(0, t.len() as int) =~= t);
    let (done, cur) = line_scan(t);
    if cur.len() > 0 {
        assert(cur.last() == t.last());
    }
    lemma_trim_end_keeps(cur);
    lemma_trim_end_keeps(t);
    lemma_trim_start_keeps(t);
}

/// Normalised text starts and ends with characters that are not white
/// space, and none of its lines ends in white space.
pub proof fn lemma_normalized_shape(s: Seq<char>)
    ensures
        is_trimmed(normalized(s)),
        lines_end_clean(normalized(s)),
{
    lemma_line_scan_clean(s);
    let (done, cur) = line_scan(s);
    lemma_trim_end_no_space(cur);
    let te = trim_end(cur);
    let x = done + te;
    assert(lines_end_clean(x)) by {
        assert forall|k: int| 0 < k < x.len() && #[trigger] x[k] == '\n' implies x[k - 1] == '\n'
            || !is_space(x[k - 1]) by {
            if k < done.len() {
                assert(x[k] == done[k] && x[k - 1] == done[k - 1]);
            } else {
                assert(x[k] == te[k - done.len()]);
                assert(te[k - done.len()] == cur[k - done.len()]);
                assert(cur.contains('\n'));
            }
        }
    }
    let w = lemma_trim_window(x);
    lemma_clean_window(x, w.0, w.1);
}

/// Normalising normalised text changes nothing.
pub proof fn lemma_normalize_idempotent(s: Seq<char>)
    ensures
        normalized(normalized(s)) == normalized(s),
{
    lemma_normalized_shape(s);
    lemma_normalized_fixed_point(normalized(s));
}

} // verus!
