//! The viewer page of a stored file.
use vstd::prelude::*;
use crate::html::{
    MARKDOWN_OPTIONS, document_html, escaped, markdown_html, lemma_escape_plain_text,
    lemma_escaped_is_inert, pdf_preview_html, push_escaped, push_str_chars,
    render_document, render_markdown, render_pdf,
};
use crate::kind::FileKind;
use crate::error::ApiError;
use crate::store::{FileEntry, FileStore, StoreView, copy_bytes, looked_up, opt_chars};
use crate::text::{chars_of, string_of};

verus! {

/// The style sheet of every viewer page.
pub const DOCUMENT_CSS: &'static str = "
:root { color-scheme: light dark; font-family: system-ui, sans-serif; }
body { box-sizing: border-box; max-width: 900px; margin: 0 auto; padding: 40px 28px 80px; line-height: 1.65; }
img, video { max-width: 100%; }
.pdf-preview { position: fixed; inset: 0; background: Canvas; }
.pdf-preview object { width: 100%; height: 100%; border: 0; }
.pdf-fallback { box-sizing: border-box; max-width: 900px; margin: 0 auto; padding: 40px 28px 80px; }
pre { overflow: auto; padding: 16px; border-radius: 8px; background: color-mix(in srgb, CanvasText 8%, Canvas); white-space: pre-wrap; word-wrap: break-word; }
code { font-family: ui-monospace, SFMono-Regular, Consolas, monospace; }
blockquote { margin-left: 0; padding-left: 18px; border-left: 4px solid #7c6df2; color: color-mix(in srgb, CanvasText 72%, Canvas); }
table { border-collapse: collapse; width: 100%; }
th, td { border: 1px solid color-mix(in srgb, CanvasText 20%, Canvas); padding: 7px 10px; text-align: left; }
a { color: #6957e8; }
";

/// The HTML that a stored file is previewed as: Markdown rendered, HTML as
/// it is, a document's converted HTML or else its paragraphs, a PDF in its
/// frame, and text or code escaped inside `<pre>`.
pub open spec fn entry_html(kind: FileKind, body: Seq<char>, rendered: Option<Seq<char>>, id: nat) -> Seq<char> {
    match kind {
        FileKind::Markdown => markdown_html(body, MARKDOWN_OPTIONS),
        FileKind::Html => body,
        FileKind::Document => match rendered {
            Some(h) => h,
            None => document_html(body),
        },
        FileKind::Pdf => pdf_preview_html(id, body),
        FileKind::Text | FileKind::Code => "<pre>"@ + escaped(body) + "</pre>"@,
    }
}


/// Renders the preview HTML of the file stored under `id`.
pub fn render_entry(entry: &FileEntry, id: u64) -> (html: String)
    ensures
        html@ == entry_html(entry.kind, entry.body@, opt_chars(entry.rendered_html), id as nat),
{
    match entry.kind {
        FileKind::Markdown => render_markdown(entry.body.as_str()),
        FileKind::Html => copy_string_of(&entry.body),
        FileKind::Document => match &entry.rendered_html {
            Some(h) => copy_string_of(h),
            None => render_document(entry.body.as_str()),
        },
        FileKind::Pdf => render_pdf(id, entry.body.as_str()),
        FileKind::Text | FileKind::Code => {
            let mut out: Vec<char> = Vec::new();
            push_str_chars(&mut out, "<pre>");
            push_escaped(&mut out, &chars_of(entry.body.as_str()));
            push_str_chars(&mut out, "</pre>");
            string_of(&out)
        },
    }
}

/// The `<base>` element of a page whose file came from `url`.
pub open spec fn base_element(url: Option<Seq<char>>) -> Seq<char> {
    match url {
        Some(u) => "<base href=\""@ + escaped(u) + "\">"@,
        None => Seq::empty(),
    }
}

/// The viewer page of a stored file: its preview inside an HTML document
/// titled with its escaped name, resolving against its origin when it has
/// one.
pub open spec fn preview_page_html(
    name: Seq<char>,
    base_url: Option<Seq<char>>,
    rendered: Seq<char>,
) -> Seq<char> {
    "<!doctype html><html><head><meta charset=\"utf-8\"><meta name=\"viewport\" content=\"width=device-width\">"@
        + base_element(base_url) + "<title>"@ + escaped(name) + "</title><style>"@ + DOCUMENT_CSS@
        + "</style></head><body>"@ + rendered + "</body></html>"@
}

/// Renders the viewer page of the file stored under `id`.
pub fn preview_page(entry: &FileEntry, id: u64) -> (page: String)
    ensures
        page@ == preview_page_html(
            entry.name@,
            opt_chars(entry.base_url),
            entry_html(entry.kind, entry.body@, opt_chars(entry.rendered_html), id as nat),
        ),
{
    let rendered = render_entry(entry, id);
    let mut out: Vec<char> = Vec::new();
    push_str_chars(
        &mut out,
        "<!doctype html><html><head><meta charset=\"utf-8\"><meta name=\"viewport\" content=\"width=device-width\">",
    );
    match &entry.base_url {
        Some(url) => {
            push_str_chars(&mut out, "<base href=\"");
            push_escaped(&mut out, &chars_of(url.as_str()));
            push_str_chars(&mut out, "\">");
        },
        None => {},
    }
    push_str_chars(&mut out, "<title>");
    push_escaped(&mut out, &chars_of(entry.name.as_str()));
    push_str_chars(&mut out, "</title><style>");
    push_str_chars(&mut out, DOCUMENT_CSS);
    push_str_chars(&mut out, "</style></head><body>");
    push_str_chars(&mut out, rendered.as_str());
    push_str_chars(&mut out, "</body></html>");
    proof {
        assert(out@ =~= preview_page_html(
            entry.name@,
            opt_chars(entry.base_url),
            rendered@,
        ));
    }
    string_of(&out)
}

/// The content type a stored file's received bytes are served with.
pub open spec fn binary_content_type_of(kind: FileKind) -> Seq<char> {
    if kind == FileKind::Pdf {
        "application/pdf"@
    } else {
        "application/octet-stream"@
    }
}

/// The content type a stored file's received bytes are served with.
pub fn binary_content_type(kind: FileKind) -> (t: &'static str)
    ensures
        t@ == binary_content_type_of(kind),
{
    match kind {
        FileKind::Pdf => "application/pdf",
        _ => "application/octet-stream",
    }
}


/// The viewer page of the file stored under `id`, or the message answered
/// as not found when there is none.
pub open spec fn viewer_page_of(s: StoreView, id: u64) -> Result<Seq<char>, Seq<char>> {
    match looked_up(s, id) {
        Some(e) => Ok(
            preview_page_html(
                e.name@,
                opt_chars(e.base_url),
                entry_html(e.kind, e.body@, opt_chars(e.rendered_html), id as nat),
            ),
        ),
        None => Err("This viewer URL is no longer available."@),
    }
}

/// Answers a request for the viewer page of `id`.
pub fn viewer_page(store: &FileStore, id: u64) -> (r: Result<String, &'static str>)
    ensures
        match r {
            Ok(page) => viewer_page_of(store@, id) == Ok::<Seq<char>, Seq<char>>(page@),
            Err(m) => viewer_page_of(store@, id) == Err::<Seq<char>, Seq<char>>(m@),
        },
{
    match store.get(id) {
        Some(entry) => Ok(preview_page(entry, id)),
        None => Err("This viewer URL is no longer available."),
    }
}

/// The received bytes of the file stored under `id` and their content type,
/// or the message answered as not found when there is no such file or it
/// keeps no bytes.
pub open spec fn binary_of(s: StoreView, id: u64) -> Result<(Seq<char>, Seq<u8>), Seq<char>> {
    match looked_up(s, id) {
        Some(e) => match e.original_bytes {
            Some(b) => Ok((binary_content_type_of(e.kind), b@)),
            None => Err("No binary preview is available"@),
        },
        None => Err("Viewer URL not found"@),
    }
}

/// Answers a request for the received bytes of the file stored under `id`.
pub fn binary_preview(store: &FileStore, id: u64) -> (r: Result<(&'static str, Vec<u8>), &'static str>)
    ensures
        match r {
            Ok((t, b)) => binary_of(store@, id) == Ok::<(Seq<char>, Seq<u8>), Seq<char>>((t@, b@)),
            Err(m) => binary_of(store@, id) == Err::<(Seq<char>, Seq<u8>), Seq<char>>(m@),
        },
{
    match store.get(id) {
        Some(entry) => match &entry.original_bytes {
            Some(bytes) => Ok((binary_content_type(entry.kind), copy_bytes(bytes))),
            None => Err("No binary preview is available"),
        },
        None => Err("Viewer URL not found"),
    }
}

/// The name, kind name and editor text of the file stored under `id`, or
/// `NotFound`.
pub open spec fn raw_file_of(s: StoreView, id: u64) -> Result<
    (Seq<char>, Seq<char>, Seq<char>),
    ApiError,
> {
    match looked_up(s, id) {
        Some(e) => Ok((e.name@, e.kind.name(), e.body@)),
        None => Err(ApiError::NotFound),
    }
}

fn copy_string_of(s: &String) -> (r: String)
    ensures
        r@ == s@,
{
    string_of(&chars_of(s.as_str()))
}

/// Answers a request for the editor's view of the file stored under `id`.
pub fn raw_file(store: &FileStore, id: u64) -> (r: Result<(String, &'static str, String), ApiError>)
    ensures
        match r {
            Ok((n, k, b)) => raw_file_of(store@, id) == Ok::<
                (Seq<char>, Seq<char>, Seq<char>),
                ApiError,
            >((n@, k@, b@)),
            Err(e) => raw_file_of(store@, id) == Err::<(Seq<char>, Seq<char>, Seq<char>), ApiError>(
                e,
            ),
        },
{
    match store.get(id) {
        Some(entry) => Ok((copy_string_of(&entry.name), entry.kind.as_str(), copy_string_of(&entry.body))),
        None => Err(ApiError::not_found()),
    }
}


/// Code and text files are previewed alike, whatever else is stored with
/// them: their source inside `<pre>`, verbatim (line feeds and indentation
/// included) when it holds no HTML special character, and otherwise with
/// those characters escaped so that no tag or attribute can open.
pub proof fn lemma_source_preview(body: Seq<char>, rendered: Option<Seq<char>>, id: nat)
    ensures
        entry_html(FileKind::Code, body, rendered, id) == entry_html(
            FileKind::Text,
            body,
            None,
            0,
        ),
        (forall|k: int|
            0 <= k < body.len() ==> {
                let c = #[trigger] body[k];
                c != '&' && c != '<' && c != '>' && c != '"'
            }) ==> entry_html(FileKind::Code, body, rendered, id) == "<pre>"@ + body + "</pre>"@,
        entry_html(FileKind::Code, body, rendered, id).len() == "<pre>"@.len() + escaped(body).len()
            + "</pre>"@.len(),
        forall|k: int|
            0 <= k < escaped(body).len() ==> {
                let c = #[trigger] escaped(body)[k];
                c != '<' && c != '>' && c != '"'
            },
{
    if forall|k: int|
        0 <= k < body.len() ==> {
            let c = #[trigger] body[k];
            c != '&' && c != '<' && c != '>' && c != '"'
        } {
        lemma_escape_plain_text(body);
    }
    lemma_escaped_is_inert(body);
}

} // verus!
