//! Plain text from RTF: groups are dropped, control words are skipped,
//! `\par` and `\line` become line breaks and control symbols keep their
//! character.
use vstd::prelude::*;
use crate::text::{chars_of, string_of, utf8_lossy, lossy_utf8};

verus! {

pub open spec fn is_ascii_alpha(c: char) -> bool {
    ('A' <= c && c <= 'Z') || ('a' <= c && c <= 'z')
}

pub open spec fn is_ascii_digit(c: char) -> bool {
    '0' <= c && c <= '9'
}

/// End of the run of ASCII letters that starts at `i`.
pub open spec fn alpha_end(s: Seq<char>, i: int) -> int
    decreases s.len() - i,
{
    if 0 <= i < s.len() && is_ascii_alpha(s[i]) {
        alpha_end(s, i + 1)
    } else {
        i
    }
}

/// End of the run of digits and `-` that starts at `i`.
pub open spec fn number_end(s: Seq<char>, i: int) -> int
    decreases s.len() - i,
{
    if 0 <= i < s.len() && (s[i] == '-' || is_ascii_digit(s[i])) {
        number_end(s, i + 1)
    } else {
        i
    }
}

/// Where the text resumes after the control sequence whose `\` stands at
/// `i`: past its word, its numeric parameter and one delimiting space.
pub open spec fn control_end(s: Seq<char>, i: int) -> int {
    let k = number_end(s, alpha_end(s, i + 1));
    if 0 <= k < s.len() && s[k] == ' ' {
        k + 1
    } else {
        k
    }
}

pub proof fn lemma_alpha_end(s: Seq<char>, i: int)
    ensures
        i <= alpha_end(s, i),
        0 <= i <= s.len() ==> alpha_end(s, i) <= s.len(),
    decreases s.len() - i,
{
    if 0 <= i < s.len() && is_ascii_alpha(s[i]) {
        lemma_alpha_end(s, i + 1);
    }
}

pub proof fn lemma_number_end(s: Seq<char>, i: int)
    ensures
        i <= number_end(s, i),
        0 <= i <= s.len() ==> number_end(s, i) <= s.len(),
    decreases s.len() - i,
{
    if 0 <= i < s.len() && (s[i] == '-' || is_ascii_digit(s[i])) {
        lemma_number_end(s, i + 1);
    }
}

pub proof fn lemma_control_end(s: Seq<char>, i: int)
    requires
        0 <= i < s.len(),
    ensures
        i + 1 <= alpha_end(s, i + 1) <= control_end(s, i) <= s.len(),
{
    lemma_alpha_end(s, i + 1);
    lemma_number_end(s, alpha_end(s, i + 1));
}

/// The text that the RTF source `s` yields from index `i` on.
pub open spec fn rtf_text_from(s: Seq<char>, i: int) -> Seq<char>
    decreases s.len() - i,
{
    if i < 0 || i >= s.len() {
        Seq::empty()
    } else {
        let c = s[i];
        if c == '{' || c == '}' || c == '\r' {
            rtf_text_from(s, i + 1)
        } else if c == '\\' {
            proof {
                lemma_control_end(s, i);
            }
            let w = alpha_end(s, i + 1);
            let j = control_end(s, i);
            let word = s.subrange(i + 1, w);
            if word == seq!['p', 'a', 'r'] || word == seq!['l', 'i', 'n', 'e'] {
                seq!['\n'] + rtf_text_from(s, j)
            } else if w == i + 1 {
                if j < s.len() {
                    seq![s[j]] + rtf_text_from(s, j + 1)
                } else {
                    Seq::empty()
                }
            } else {
                rtf_text_from(s, j)
            }
        } else {
            seq![c] + rtf_text_from(s, i + 1)
        }
    }
}

/// The text that an RTF source yields.
pub open spec fn rtf_text(s: Seq<char>) -> Seq<char> {
    rtf_text_from(s, 0)
}

fn is_alpha(c: char) -> (b: bool)
    ensures
        b == is_ascii_alpha(c),
{
    ('A' <= c && c <= 'Z') || ('a' <= c && c <= 'z')
}

/// Extracts the plain text of the RTF characters `s`.
pub fn rtf_chars_to_text(s: &[char]) -> (out: Vec<char>)
    ensures
        out@ == rtf_text(s@),
{
    let mut out: Vec<char> = Vec::new();
    let mut i: usize = 0;
    while i < s.len()
        invariant
            i <= s@.len(),
            out@ + rtf_text_from(s@, i as int) == rtf_text(s@),
        decreases s.len() - i,
    {
        let c = s[i];
        if c == '{' || c == '}' || c == '\r' {
            i = i + 1;
        } else if c == '\\' {
            proof {
                lemma_control_end(s@, i as int);
            }
            let mut w = i + 1;
            while w < s.len() && is_alpha(s[w])
                invariant
                    i + 1 <= w <= s@.len(),
                    alpha_end(s@, i + 1) == alpha_end(s@, w as int),
                decreases s.len() - w,
            {
                w = w + 1;
            }
            let mut k = w;
            proof {
                lemma_number_end(s@, w as int);
            }
            while k < s.len() && (s[k] == '-' || ('0' <= s[k] && s[k] <= '9'))
                invariant
                    w <= k <= s@.len(),
                    number_end(s@, w as int) == number_end(s@, k as int),
                decreases s.len() - k,
            {
                k = k + 1;
            }
            if k < s.len() && s[k] == ' ' {
                k = k + 1;
            }
            let ghost word = s@.subrange(i + 1, w as int);
            let is_par = w - i == 4 && s[i + 1] == 'p' && s[i + 2] == 'a' && s[i + 3] == 'r';
            let is_line = w - i == 5 && s[i + 1] == 'l' && s[i + 2] == 'i' && s[i + 3] == 'n'
                && s[i + 4] == 'e';
            proof {
                if is_par {
                    assert(word =~= seq!['p', 'a', 'r']);
                } else {
                    assert(word != seq!['p', 'a', 'r']) by {
                        if word.len() == 3 {
                            assert(word[0] == s@[i + 1] && word[1] == s@[i + 2] && word[2] == s@[i + 3]);
                        }
                    }
                }
                if is_line {
                    assert(word =~= seq!['l', 'i', 'n', 'e']);
                } else {
                    assert(word != seq!['l', 'i', 'n', 'e']) by {
                        if word.len() == 4 {
                            assert(word[0] == s@[i + 1] && word[1] == s@[i + 2] && word[2]
                                == s@[i + 3] && word[3] == s@[i + 4]);
                        }
                    }
                }
            }
            if is_par || is_line {
                out.push('\n');
                i = k;
                assert(out@ + rtf_text_from(s@, i as int) =~= rtf_text(s@));
            } else if w == i + 1 {
                if k < s.len() {
                    out.push(s[k]);
                    i = k + 1;
                    assert(out@ + rtf_text_from(s@, i as int) =~= rtf_text(s@));
                } else {
                    i = k;
                    assert(out@ + rtf_text_from(s@, i as int) =~= rtf_text(s@));
                }
            } else {
                i = k;
            }
        } else {
            out.push(c);
            i = i + 1;
            assert(out@ + rtf_text_from(s@, i as int) =~= rtf_text(s@));
        }
    }
    assert(out@ =~= rtf_text(s@));
    out
}

/// Extracts the plain text of an RTF document; its bytes are read as UTF-8,
/// invalid sequences replaced.
pub fn rtf_to_text(bytes: &[u8]) -> (text: String)
    ensures
        text@ == rtf_text(lossy_utf8(bytes@)),
        !bytes@.contains(0x5cu8) ==> text@ == without_group_marks(lossy_utf8(bytes@)),
{
    let source = utf8_lossy(bytes);
    let chars = chars_of(source.as_str());
    let out = rtf_chars_to_text(&chars);
    proof {
        if !bytes@.contains(0x5cu8) {
            assert(('\\' as u32) < 128 && ((('\\' as u32) as u8) == 0x5cu8));
            assert(!source@.contains('\\'));
            lemma_rtf_without_backslash(source@);
        }
    }
    string_of(&out)
}

/// `s` without braces and carriage returns.
pub open spec fn without_group_marks(s: Seq<char>) -> Seq<char>
    decreases s.len(),
{
    if s.len() == 0 {
        Seq::empty()
    } else {
        (if s[0] == '{' || s[0] == '}' || s[0] == '\r' {
            Seq::empty()
        } else {
            seq![s[0]]
        }) + without_group_marks(s.drop_first())
    }
}

proof fn lemma_without_group_marks_from(s: Seq<char>, i: int)
    requires
        0 <= i <= s.len(),
        !s.contains('\\'),
    ensures
        rtf_text_from(s, i) == without_group_marks(s.subrange(i, s.len() as int)),
    decreases s.len() - i,
{
    let t = s.subrange(i, s.len() as int);
    if i < s.len() {
        assert(s[i] != '\\');
        lemma_without_group_marks_from(s, i + 1);
        assert(t[0] == s[i]);
        assert(t.drop_first() =~= s.subrange(i + 1, s.len() as int));
    } else {
        assert(t.len() == 0);
    }
}

/// On text without backslashes, RTF extraction keeps everything but braces
/// and carriage returns.
pub proof fn lemma_rtf_without_backslash(s: Seq<char>)
    requires
        !s.contains('\\'),
    ensures
        rtf_text(s) == without_group_marks(s),
{
    lemma_without_group_marks_from(s, 0);
    assert(s.subrange(0, s.len() as int) =~= s);
}

/// Whether a character has a role in RTF syntax.
pub open spec fn rtf_special(c: char) -> bool {
    c == '\\' || c == '{' || c == '}' || c == '\r'
}

/// Text without backslashes, braces and carriage returns passes through RTF
/// extraction unchanged.
pub proof fn lemma_rtf_plain_text(s: Seq<char>)
    requires
        forall|k: int| 0 <= k < s.len() ==> !rtf_special(#[trigger] s[k]),
    ensures
        rtf_text(s) == s,
{
    lemma_rtf_plain_from(s, 0);
    assert(s.subrange(0, s.len() as int) =~= s);
}

proof fn lemma_rtf_plain_from(s: Seq<char>, i: int)
    requires
        0 <= i <= s.len(),
        forall|k: int| 0 <= k < s.len() ==> !rtf_special(#[trigger] s[k]),
    ensures
        rtf_text_from(s, i) == s.subrange(i, s.len() as int),
    decreases s.len() - i,
{
    if i < s.len() {
        assert(!rtf_special(s[i]));
        lemma_rtf_plain_from(s, i + 1);
        assert(seq![s[i]] + s.subrange(i + 1, s.len() as int) =~= s.subrange(i, s.len() as int));
    } else {
        assert(s.subrange(i, s.len() as int) =~= Seq::<char>::empty());
    }
}


proof fn lemma_alpha_end_shift(p: Seq<char>, t: Seq<char>, i: int)
    requires
        0 <= i <= t.len(),
    ensures
        alpha_end(p + t, p.len() + i) == p.len() + alpha_end(t, i),
    decreases t.len() - i,
{
    if i < t.len() {
        assert((p + t)[p.len() + i] == t[i]);
        lemma_alpha_end_shift(p, t, i + 1);
    }
}

proof fn lemma_number_end_shift(p: Seq<char>, t: Seq<char>, i: int)
    requires
        0 <= i <= t.len(),
    ensures
        number_end(p + t, p.len() + i) == p.len() + number_end(t, i),
    decreases t.len() - i,
{
    if i < t.len() {
        assert((p + t)[p.len() + i] == t[i]);
        lemma_number_end_shift(p, t, i + 1);
    }
}

/// Extraction from a position inside the second part of a sequence reads
/// only that part.
proof fn lemma_rtf_shift(p: Seq<char>, t: Seq<char>, i: int)
    requires
        0 <= i <= t.len(),
    ensures
        rtf_text_from(p + t, p.len() + i) == rtf_text_from(t, i),
    decreases t.len() - i,
{
    let s = p + t;
    let n = p.len() as int;
    if i < t.len() {
        assert(s[n + i] == t[i]);
        let c = t[i];
        if c == '{' || c == '}' || c == '\r' {
            lemma_rtf_shift(p, t, i + 1);
        } else if c == '\\' {
            lemma_control_end(t, i);
            lemma_control_end(s, n + i);
            lemma_alpha_end_shift(p, t, i + 1);
            let wt = alpha_end(t, i + 1);
            lemma_number_end_shift(p, t, wt);
            let kt = number_end(t, wt);
            lemma_number_end(t, wt);
            if kt < t.len() {
                assert(s[n + kt] == t[kt]);
            }
            let jt = control_end(t, i);
            assert(control_end(s, n + i) == n + jt);
            assert(s.subrange(n + i + 1, n + wt) =~= t.subrange(i + 1, wt));
            if jt < t.len() {
                assert(s[n + jt] == t[jt]);
                lemma_rtf_shift(p, t, jt + 1);
            }
            lemma_rtf_shift(p, t, jt);
        } else {
            lemma_rtf_shift(p, t, i + 1);
        }
    }
}

/// `t` without one leading space.
pub open spec fn after_space(t: Seq<char>) -> Seq<char> {
    if t.len() > 0 && t[0] == ' ' {
        t.drop_first()
    } else {
        t
    }
}

/// Text that cannot continue a control word or its numeric parameter.
pub open spec fn ends_control_word(t: Seq<char>) -> bool {
    t.len() == 0 || !(is_ascii_alpha(t[0]) || is_ascii_digit(t[0]) || t[0] == '-')
}

proof fn lemma_word_run(s: Seq<char>, w: Seq<char>, k: int)
    requires
        s.len() >= 1 + w.len(),
        1 <= k <= 1 + w.len(),
        forall|m: int| 0 <= m < w.len() ==> s[1 + m] == w[m] && is_ascii_alpha(#[trigger] w[m]),
        s.len() == 1 + w.len() || !is_ascii_alpha(s[1 + w.len() as int]),
    ensures
        alpha_end(s, k) == 1 + w.len(),
    decreases 1 + w.len() - k,
{
    if k < 1 + w.len() {
        assert(s[k] == w[k - 1]);
        lemma_word_run(s, w, k + 1);
    }
}

/// A control word is replaced by a line feed when it is `\par` or
/// `\line`, and by nothing otherwise; the space that ends it is dropped, and
/// the text after it is extracted on its own.
pub proof fn lemma_rtf_control_word(w: Seq<char>, t: Seq<char>)
    requires
        w.len() > 0,
        forall|m: int| 0 <= m < w.len() ==> is_ascii_alpha(#[trigger] w[m]),
        ends_control_word(t),
    ensures
        (w == seq!['p', 'a', 'r'] || w == seq!['l', 'i', 'n', 'e']) ==> rtf_text(
            seq!['\\'] + w + t,
        ) == seq!['\n'] + rtf_text(after_space(t)),
        !(w == seq!['p', 'a', 'r'] || w == seq!['l', 'i', 'n', 'e']) ==> rtf_text(
            seq!['\\'] + w + t,
        ) == rtf_text(after_space(t)),
{
    let p = seq!['\\'] + w;
    let s = p + t;
    assert(s == seq!['\\'] + w + t);
    assert forall|m: int| 0 <= m < w.len() implies s[1 + m] == w[m] && is_ascii_alpha(
        #[trigger] w[m],
    ) by {}
    if t.len() > 0 {
        assert(s[1 + w.len() as int] == t[0]);
    }
    lemma_word_run(s, w, 1);
    assert(number_end(s, 1 + w.len() as int) == 1 + w.len());
    assert(s[0] == '\\');
    assert(s.subrange(1, 1 + w.len() as int) =~= w);
    let j = control_end(s, 0);
    lemma_control_end(s, 0);
    if t.len() > 0 && t[0] == ' ' {
        assert(j == p.len() + 1);
        lemma_rtf_shift(p, t, 1);
        lemma_rtf_shift(seq![t[0]], t.drop_first(), 0);
        assert(seq![t[0]] + t.drop_first() =~= t);
    } else {
        assert(j == p.len());
        lemma_rtf_shift(p, t, 0);
    }
}

/// A character outside RTF syntax is kept, and braces and carriage returns
/// are dropped, before the text that follows.
pub proof fn lemma_rtf_plain_char(c: char, t: Seq<char>)
    requires
        c != '\\',
    ensures
        (c == '{' || c == '}' || c == '\r') ==> rtf_text(seq![c] + t) == rtf_text(t),
        !(c == '{' || c == '}' || c == '\r') ==> rtf_text(seq![c] + t) == seq![c] + rtf_text(t),
{
    lemma_rtf_shift(seq![c], t, 0);
    assert((seq![c] + t)[0] == c);
}

} // verus!
