//! File kinds: their names, how a requested name is read, and how a kind is
//! inferred from a file name and a content type.
use vstd::prelude::*;
use crate::text::{
    chars_of, string_of, same_chars, contains_chars, matches_at, ascii_lower_chars, lower_seq,
    contains_seq, starts_with_seq,
};

verus! {

/// How a stored file is previewed and edited.
#[derive(Debug, Clone, Copy, PartialEq, Eq, Structural)]
pub enum FileKind {
    Markdown,
    Html,
    Text,
    Document,
    Pdf,
    Code,
}

impl FileKind {
    /// The name of a kind, as the API writes it.
    pub open spec fn name(self) -> Seq<char> {
        match self {
            FileKind::Markdown => "markdown"@,
            FileKind::Html => "html"@,
            FileKind::Text => "text"@,
            FileKind::Document => "document"@,
            FileKind::Pdf => "pdf"@,
            FileKind::Code => "code"@,
        }
    }

    /// The name of this kind.
    pub fn as_str(self) -> (s: &'static str)
        ensures
            s@ == self.name(),
    {
        match self {
            FileKind::Markdown => "markdown",
            FileKind::Html => "html",
            FileKind::Text => "text",
            FileKind::Document => "document",
            FileKind::Pdf => "pdf",
            FileKind::Code => "code",
        }
    }
}

/// The kind that a name stands for, if any.
pub open spec fn kind_named(value: Seq<char>) -> Option<FileKind> {
    if value == "markdown"@ {
        Some(FileKind::Markdown)
    } else if value == "html"@ {
        Some(FileKind::Html)
    } else if value == "text"@ {
        Some(FileKind::Text)
    } else if value == "document"@ {
        Some(FileKind::Document)
    } else if value == "pdf"@ {
        Some(FileKind::Pdf)
    } else if value == "code"@ {
        Some(FileKind::Code)
    } else {
        None
    }
}

/// Reads a kind from its name; `None` for any other text.
pub fn parse_file_kind(value: &str) -> (k: Option<FileKind>)
    ensures
        k == kind_named(value@),
{
    let v = chars_of(value);
    if same_chars(&v, &chars_of("markdown")) {
        Some(FileKind::Markdown)
    } else if same_chars(&v, &chars_of("html")) {
        Some(FileKind::Html)
    } else if same_chars(&v, &chars_of("text")) {
        Some(FileKind::Text)
    } else if same_chars(&v, &chars_of("document")) {
        Some(FileKind::Document)
    } else if same_chars(&v, &chars_of("pdf")) {
        Some(FileKind::Pdf)
    } else if same_chars(&v, &chars_of("code")) {
        Some(FileKind::Code)
    } else {
        None
    }
}

/// Reading the name of a kind gives that kind back, and distinct kinds have
/// distinct names.
pub proof fn lemma_kind_name_roundtrip(k: FileKind)
    ensures
        kind_named(k.name()) == Some(k),
{
    reveal_strlit("markdown");
    reveal_strlit("html");
    reveal_strlit("text");
    reveal_strlit("document");
    reveal_strlit("pdf");
    reveal_strlit("code");
    assert("markdown"@.len() == 8 && "html"@.len() == 4 && "text"@.len() == 4);
    assert("document"@.len() == 8 && "pdf"@.len() == 3 && "code"@.len() == 4);
    assert("html"@[0] != "text"@[0] && "html"@[0] != "code"@[0] && "text"@[0] != "code"@[0]);
    assert("markdown"@[0] != "document"@[0]);
}

/// A path component that names a file or directory: not empty and not `.`.
pub open spec fn kept_component(seg: Seq<char>) -> bool {
    seg.len() > 0 && seg != seq!['.']
}

/// Scans a path from the left: the last kept component before the final
/// `/`, and the characters after it.
pub open spec fn path_scan(s: Seq<char>) -> (Option<Seq<char>>, Seq<char>)
    decreases s.len(),
{
    if s.len() == 0 {
        (None, Seq::empty())
    } else {
        let (kept, cur) = path_scan(s.drop_last());
        if s.last() == '/' {
            (if kept_component(cur) { Some(cur) } else { kept }, Seq::empty())
        } else {
            (kept, cur.push(s.last()))
        }
    }
}

/// The final component of a Unix path (`Path::file_name`): the last
/// component that is neither empty nor `.`, and none when it is `..`.
pub open spec fn file_name_of(path: Seq<char>) -> Option<Seq<char>> {
    let (kept, cur) = path_scan(path);
    let last = if kept_component(cur) { Some(cur) } else { kept };
    match last {
        Some(n) => if n == seq!['.', '.'] { None } else { Some(n) },
        None => None,
    }
}

/// The index of the last `.` in `s[..end]`, or -1.
pub open spec fn last_dot(s: Seq<char>, end: int) -> int
    decreases end,
{
    if end <= 0 {
        -1
    } else if s[end - 1] == '.' {
        end - 1
    } else {
        last_dot(s, end - 1)
    }
}

/// The extension of a file name (`Path::extension`): what follows the last
/// `.`, unless there is none or the only one starts the name.
pub open spec fn extension_of(name: Seq<char>) -> Option<Seq<char>> {
    let p = last_dot(name, name.len() as int);
    if p > 0 {
        Some(name.subrange(p + 1, name.len() as int))
    } else {
        None
    }
}

/// The lower-case extension of a path's file name, empty when it has none.
pub open spec fn file_extension_spec(name: Seq<char>) -> Seq<char> {
    lower_seq(
        match file_name_of(name) {
            Some(f) => match extension_of(f) {
                Some(e) => e,
                None => Seq::empty(),
            },
            None => Seq::empty(),
        },
    )
}

fn is_kept_component(seg: &Vec<char>) -> (b: bool)
    ensures
        b == kept_component(seg@),
{
    if seg.len() == 0 {
        false
    } else if seg.len() == 1 && seg[0] == '.' {
        assert(seg@ =~= seq!['.']);
        false
    } else {
        assert(seg@.len() != 1 ==> seg@ != seq!['.']);
        assert(seg@.len() == 1 ==> seg@[0] != seq!['.'][0]);
        true
    }
}

/// The final component of a Unix path.
pub fn file_name_chars(path: &[char]) -> (r: Option<Vec<char>>)
    ensures
        match r {
            Some(v) => file_name_of(path@) == Some(v@),
            None => file_name_of(path@) is None,
        },
{
    let mut kept: Option<Vec<char>> = None;
    let mut cur: Vec<char> = Vec::new();
    let mut i: usize = 0;
    while i < path.len()
        invariant
            i <= path@.len(),
            path_scan(path@.subrange(0, i as int)) == (
                match kept {
                    Some(v) => Some(v@),
                    None => None,
                },
                cur@,
            ),
        decreases path.len() - i,
    {
        proof {
            assert(path@.subrange(0, i + 1).drop_last() =~= path@.subrange(0, i as int));
        }
        if path[i] == '/' {
            if is_kept_component(&cur) {
                kept = Some(cur);
            }
            cur = Vec::new();
        } else {
            cur.push(path[i]);
        }
        i = i + 1;
    }
    assert(path@.subrange(0, i as int) =~= path@);
    let last = if is_kept_component(&cur) {
        Some(cur)
    } else {
        kept
    };
    match last {
        Some(n) => {
            if n.len() == 2 && n[0] == '.' && n[1] == '.' {
                assert(n@ =~= seq!['.', '.']);
                None
            } else {
                assert(n@.len() == 2 ==> n@[0] != '.' || n@[1] != '.');
                assert(n@ != seq!['.', '.']) by {
                    if n@.len() == 2 {
                        assert(seq!['.', '.'][0] == '.' && seq!['.', '.'][1] == '.');
                    }
                }
                Some(n)
            }
        },
        None => None,
    }
}

/// The extension of a file name.
pub fn extension_chars(name: &[char]) -> (r: Option<Vec<char>>)
    ensures
        match r {
            Some(v) => extension_of(name@) == Some(v@),
            None => extension_of(name@) is None,
        },
{
    let mut end = name.len();
    while end > 0 && name[end - 1] != '.'
        invariant
            end <= name@.len(),
            last_dot(name@, name@.len() as int) == last_dot(name@, end as int),
        decreases end,
    {
        end = end - 1;
    }
    if end <= 1 {
        return None;
    }
    let mut r: Vec<char> = Vec::new();
    let mut i = end;
    while i < name.len()
        invariant
            end <= i <= name@.len(),
            r@ == name@.subrange(end as int, i as int),
        decreases name.len() - i,
    {
        r.push(name[i]);
        i = i + 1;
        assert(r@ =~= name@.subrange(end as int, i as int));
    }
    Some(r)
}

/// The lower-case extension of a file name, empty when it has none.
pub fn file_extension(name: &str) -> (ext: String)
    ensures
        ext@ == file_extension_spec(name@),
{
    let path = chars_of(name);
    let e: Vec<char> = match file_name_chars(&path) {
        Some(f) => match extension_chars(&f) {
            Some(e) => e,
            None => Vec::new(),
        },
        None => Vec::new(),
    };
    let lowered = ascii_lower_chars(&e);
    string_of(&lowered)
}

/// The kind that a file's extension or else its content type calls for.
pub open spec fn inferred_kind(name: Seq<char>, content_type: Seq<char>) -> FileKind {
    let e = file_extension_spec(name);
    if e == "md"@ || e == "markdown"@ {
        FileKind::Markdown
    } else if e == "html"@ || e == "htm"@ {
        FileKind::Html
    } else if e == "pdf"@ {
        FileKind::Pdf
    } else if e == "doc"@ || e == "docx"@ || e == "odt"@ || e == "rtf"@ {
        FileKind::Document
    } else if e == "txt"@ || e == "text"@ || e == "log"@ || e == "csv"@ || e == "tsv"@ {
        FileKind::Text
    } else if contains_seq(content_type, "application/pdf"@) {
        FileKind::Pdf
    } else if contains_seq(content_type, "officedocument"@) {
        FileKind::Document
    } else if contains_seq(content_type, "msword"@) {
        FileKind::Document
    } else if contains_seq(content_type, "rtf"@) {
        FileKind::Document
    } else if contains_seq(content_type, "text/html"@) {
        FileKind::Html
    } else if contains_seq(content_type, "markdown"@) {
        FileKind::Markdown
    } else if starts_with_seq(content_type, "text/plain"@) {
        FileKind::Text
    } else {
        FileKind::Code
    }
}

fn ext_is(e: &Vec<char>, lit: &str) -> (b: bool)
    ensures
        b == (e@ == lit@),
{
    same_chars(e, &chars_of(lit))
}

fn type_has(ct: &Vec<char>, lit: &str) -> (b: bool)
    ensures
        b == contains_seq(ct@, lit@),
{
    contains_chars(ct, &chars_of(lit))
}

/// Infers a file's kind from its extension, then from its content type.
pub fn infer_kind(name: &str, content_type: &str) -> (k: FileKind)
    ensures
        k == inferred_kind(name@, content_type@),
{
    let ext = file_extension(name);
    let e = chars_of(ext.as_str());
    let ct = chars_of(content_type);
    if ext_is(&e, "md") || ext_is(&e, "markdown") {
        FileKind::Markdown
    } else if ext_is(&e, "html") || ext_is(&e, "htm") {
        FileKind::Html
    } else if ext_is(&e, "pdf") {
        FileKind::Pdf
    } else if ext_is(&e, "doc") || ext_is(&e, "docx") || ext_is(&e, "odt") || ext_is(&e, "rtf") {
        FileKind::Document
    } else if ext_is(&e, "txt") || ext_is(&e, "text") || ext_is(&e, "log") || ext_is(&e, "csv")
        || ext_is(&e, "tsv") {
        FileKind::Text
    } else if type_has(&ct, "application/pdf") {
        FileKind::Pdf
    } else if type_has(&ct, "officedocument") {
        FileKind::Document
    } else if type_has(&ct, "msword") {
        FileKind::Document
    } else if type_has(&ct, "rtf") {
        FileKind::Document
    } else if type_has(&ct, "text/html") {
        FileKind::Html
    } else if type_has(&ct, "markdown") {
        FileKind::Markdown
    } else if matches_at(&ct, &chars_of("text/plain"), 0) {
        FileKind::Text
    } else {
        FileKind::Code
    }
}


/// A known extension decides the kind whatever the content type says:
/// `md` and `markdown` are Markdown, `html` and `htm` HTML, `pdf` PDF,
/// `doc`, `docx`, `odt` and `rtf` documents, and `txt`, `text`, `log`, `csv`
/// and `tsv` text.
pub proof fn lemma_extension_decides_kind(name: Seq<char>, content_type: Seq<char>)
    ensures
        ({
            let e = file_extension_spec(name);
            &&& (e == "md"@ || e == "markdown"@) ==> inferred_kind(name, content_type)
                == FileKind::Markdown
            &&& (e == "html"@ || e == "htm"@) ==> inferred_kind(name, content_type) == FileKind::Html
            &&& e == "pdf"@ ==> inferred_kind(name, content_type) == FileKind::Pdf
            &&& (e == "doc"@ || e == "docx"@ || e == "odt"@ || e == "rtf"@) ==> inferred_kind(
                name,
                content_type,
            ) == FileKind::Document
            &&& (e == "txt"@ || e == "text"@ || e == "log"@ || e == "csv"@ || e == "tsv"@)
                ==> inferred_kind(name, content_type) == FileKind::Text
        }),
{
    reveal_strlit("md");
    reveal_strlit("markdown");
    reveal_strlit("html");
    reveal_strlit("htm");
    reveal_strlit("pdf");
    reveal_strlit("doc");
    reveal_strlit("docx");
    reveal_strlit("odt");
    reveal_strlit("rtf");
    reveal_strlit("txt");
    reveal_strlit("text");
    reveal_strlit("log");
    reveal_strlit("csv");
    reveal_strlit("tsv");
    let e = file_extension_spec(name);
    assert("md"@.len() == 2 && "markdown"@.len() == 8 && "html"@.len() == 4 && "htm"@.len() == 3);
    assert("pdf"@.len() == 3 && "doc"@.len() == 3 && "docx"@.len() == 4 && "odt"@.len() == 3);
    assert("rtf"@.len() == 3 && "txt"@.len() == 3 && "text"@.len() == 4 && "log"@.len() == 3);
    assert("csv"@.len() == 3 && "tsv"@.len() == 3);
    assert("htm"@[0] == 'h' && "pdf"@[0] == 'p' && "doc"@[0] == 'd' && "odt"@[0] == 'o');
    assert("rtf"@[0] == 'r' && "txt"@[0] == 't' && "log"@[0] == 'l' && "csv"@[0] == 'c');
    assert("tsv"@[0] == 't' && "txt"@[1] == 'x' && "tsv"@[1] == 's');
    assert("html"@[0] == 'h' && "docx"@[0] == 'd' && "text"@[0] == 't');
}

/// Without an extension that names a kind, a content type that names none
/// makes the file code.
pub proof fn lemma_unknown_is_code(name: Seq<char>, content_type: Seq<char>)
    requires
        file_extension_spec(name).len() == 0,
        !contains_seq(content_type, "application/pdf"@),
        !contains_seq(content_type, "officedocument"@),
        !contains_seq(content_type, "msword"@),
        !contains_seq(content_type, "rtf"@),
        !contains_seq(content_type, "text/html"@),
        !contains_seq(content_type, "markdown"@),
        !starts_with_seq(content_type, "text/plain"@),
    ensures
        inferred_kind(name, content_type) == FileKind::Code,
{
    reveal_strlit("md");
    reveal_strlit("markdown");
    reveal_strlit("html");
    reveal_strlit("htm");
    reveal_strlit("pdf");
    reveal_strlit("doc");
    reveal_strlit("docx");
    reveal_strlit("odt");
    reveal_strlit("rtf");
    reveal_strlit("txt");
    reveal_strlit("text");
    reveal_strlit("log");
    reveal_strlit("csv");
    reveal_strlit("tsv");
}

} // verus!
