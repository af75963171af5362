//! Remote files: which requested URLs are fetched, how much is downloaded,
//! and the name and entry a download makes.
use vstd::prelude::*;
use vstd::utf8::{decode_utf8, valid_utf8};
use crate::error::ApiError;
use crate::kind::{FileKind, infer_kind, inferred_kind};
use crate::office::{converted_view, opt_text};
use crate::store::{
    MAX_FILE_SIZE, EntryView, FileEntry, OutsideWork, WorkView, copy_bytes, entry_from_bytes, entry_of,
    entry_result, outside_work, work_for,
};
use crate::text::{chars_of, same_chars, string_of, trim, trimmed, utf8_string};

verus! {

/// The scheme of the URL that `reqwest::Url` parses a text into; `None` when the text
/// is not a valid absolute URL.
pub uninterp spec fn url_scheme(text: Seq<char>) -> Option<Seq<char>>;

/// Calls `reqwest::Url::parse` and `Url::scheme`; the scheme, or the failure to
/// parse, is named `url_scheme` of the text.
#[verifier::external_body]
fn parse_url_scheme(text: &str) -> (r: Option<String>)
    ensures
        match r {
            Some(s) => url_scheme(text@) == Some(s@),
            None => url_scheme(text@) is None,
        },
{
    reqwest::Url::parse(text).ok().map(|url| url.scheme().to_owned())
}

/// The URL a request body asks to fetch: its trimmed UTF-8 text, when that
/// parses as an HTTP or HTTPS URL.
pub open spec fn requested_url(body: Seq<u8>) -> Result<Seq<char>, ApiError> {
    if !valid_utf8(body) {
        Err(ApiError::UrlNotUtf8)
    } else {
        let text = trim(decode_utf8(body));
        match url_scheme(text) {
            None => Err(ApiError::UrlInvalid),
            Some(scheme) => if scheme == "http"@ || scheme == "https"@ {
                Ok(text)
            } else {
                Err(ApiError::UrlSchemeUnsupported)
            },
        }
    }
}

/// Reads the URL to fetch from a request body.
pub fn remote_request_url(body: &[u8]) -> (r: Result<String, ApiError>)
    ensures
        match r {
            Ok(u) => requested_url(body@) == Ok::<Seq<char>, ApiError>(u@),
            Err(e) => requested_url(body@) == Err::<Seq<char>, ApiError>(e),
        },
{
    let copy = copy_bytes(body);
    let text = match utf8_string(copy) {
        Some(t) => t,
        None => return Err(ApiError::UrlNotUtf8),
    };
    let chars = chars_of(text.as_str());
    let t = trimmed(&chars, 0, chars.len());
    assert(chars@.subrange(0, chars@.len() as int) =~= chars@);
    let requested = string_of(&t);
    let scheme = match parse_url_scheme(requested.as_str()) {
        Some(s) => s,
        None => return Err(ApiError::UrlInvalid),
    };
    let sc = chars_of(scheme.as_str());
    if same_chars(&sc, &chars_of("http")) || same_chars(&sc, &chars_of("https")) {
        Ok(requested)
    } else {
        Err(ApiError::UrlSchemeUnsupported)
    }
}

/// Checks a remote file's declared length against the size limit.
pub fn check_declared_length(content_length: Option<u64>) -> (r: Result<(), ApiError>)
    ensures
        r is Err <==> (content_length matches Some(n) && n > MAX_FILE_SIZE),
        r is Err ==> r == Err::<(), ApiError>(ApiError::RemoteTooLarge),
{
    match content_length {
        Some(size) => if size > MAX_FILE_SIZE as u64 {
            Err(ApiError::RemoteTooLarge)
        } else {
            Ok(())
        },
        None => Ok(()),
    }
}

/// The bytes of a remote file received so far, never more than the size
/// limit.
pub struct RemoteDownload {
    bytes: Vec<u8>,
}

impl View for RemoteDownload {
    type V = Seq<u8>;

    closed spec fn view(&self) -> Seq<u8> {
        self.bytes@
    }
}

impl RemoteDownload {
    #[verifier::type_invariant]
    spec fn within_limit(&self) -> bool {
        self.bytes@.len() <= MAX_FILE_SIZE
    }

    /// A download that has received nothing.
    pub fn new() -> (d: RemoteDownload)
        ensures
            d@ == Seq::<u8>::empty(),
    {
        RemoteDownload { bytes: Vec::new() }
    }

    /// Appends a received chunk; refused, and nothing appended, when the
    /// total would exceed the size limit.
    pub fn push_chunk(&mut self, chunk: &[u8]) -> (r: Result<(), ApiError>)
        ensures
            r is Ok <==> old(self)@.len() + chunk@.len() <= MAX_FILE_SIZE,
            final(self)@.len() <= MAX_FILE_SIZE,
            r is Ok ==> final(self)@ == old(self)@ + chunk@,
            r is Err ==> r == Err::<(), ApiError>(ApiError::RemoteTooLarge) && final(self)@ == old(
                self,
            )@,
    {
        proof {
            use_type_invariant(&*self);
        }
        if chunk.len() > MAX_FILE_SIZE || self.bytes.len() > MAX_FILE_SIZE - chunk.len() {
            return Err(ApiError::RemoteTooLarge);
        }
        let mut bytes: Vec<u8> = Vec::new();
        std::mem::swap(&mut bytes, &mut self.bytes);
        let ghost start = bytes@;
        let mut i: usize = 0;
        while i < chunk.len()
            invariant
                i <= chunk@.len(),
                bytes@ == start + chunk@.subrange(0, i as int),
            decreases chunk.len() - i,
        {
            bytes.push(chunk[i]);
            i = i + 1;
            assert(bytes@ =~= start + chunk@.subrange(0, i as int));
        }
        assert(chunk@.subrange(0, i as int) =~= chunk@);
        self.bytes = bytes;
        Ok(())
    }

    /// The number of bytes received.
    pub fn len(&self) -> (n: usize)
        ensures
            n == self@.len(),
            n <= MAX_FILE_SIZE,
    {
        proof {
            use_type_invariant(self);
        }
        self.bytes.len()
    }

    /// The bytes received.
    pub fn into_bytes(self) -> (b: Vec<u8>)
        ensures
            b@ == self@,
    {
        self.bytes
    }
}

/// The index of the last `/` in `s`, or -1.
pub open spec fn last_slash(s: Seq<char>, end: int) -> int
    decreases end,
{
    if end <= 0 {
        -1
    } else if s[end - 1] == '/' {
        end - 1
    } else {
        last_slash(s, end - 1)
    }
}

/// The name of a remote file: the last segment of its URL's path, or
/// `remote.txt` when that is empty or the path has no segments.
pub open spec fn remote_name(path: Seq<char>) -> Seq<char> {
    let p = last_slash(path, path.len() as int);
    if p < 0 || p + 1 == path.len() {
        "remote.txt"@
    } else {
        path.subrange(p + 1, path.len() as int)
    }
}

/// Names a remote file after the last segment of its URL's path.
pub fn remote_file_name(path: &str) -> (name: String)
    ensures
        name@ == remote_name(path@),
{
    let s = chars_of(path);
    let mut end = s.len();
    while end > 0 && s[end - 1] != '/'
        invariant
            end <= s@.len(),
            last_slash(s@, s@.len() as int) == last_slash(s@, end as int),
        decreases end,
    {
        end = end - 1;
    }
    if end == 0 || end == s.len() {
        return string_of(&chars_of("remote.txt"));
    }
    let mut r: Vec<char> = Vec::new();
    let mut i = end;
    while i < s.len()
        invariant
            end <= i <= s@.len(),
            r@ == s@.subrange(end as int, i as int),
        decreases s.len() - i,
    {
        r.push(s[i]);
        i = i + 1;
        assert(r@ =~= s@.subrange(end as int, i as int));
    }
    string_of(&r)
}

/// The name and kind of a downloaded file, from its URL's path and its
/// content type.
pub fn remote_name_and_kind(path: &str, content_type: &str) -> (r: (String, FileKind))
    ensures
        r.0@ == remote_name(path@),
        r.1 == inferred_kind(remote_name(path@), content_type@),
{
    let name = remote_file_name(path);
    let kind = infer_kind(name.as_str(), content_type);
    (name, kind)
}

/// Whether downloaded bytes are UTF-8 text, the only files fetched from a
/// remote URL.
pub fn is_utf8_text(bytes: &[u8]) -> (b: bool)
    ensures
        b == valid_utf8(bytes@),
{
    utf8_string(copy_bytes(bytes)).is_some()
}

/// The outside work a download needs: none unless its bytes are UTF-8 text.
pub open spec fn remote_work(path: Seq<char>, content_type: Seq<char>, bytes: Seq<u8>) -> WorkView {
    if !valid_utf8(bytes) {
        WorkView::Nothing
    } else {
        work_for(remote_name(path), inferred_kind(remote_name(path), content_type), bytes)
    }
}

/// Says which outside work a download needs, from its URL's path, its
/// content type and its bytes.
pub fn remote_outside_work(path: &str, content_type: &str, bytes: &[u8]) -> (w: OutsideWork)
    ensures
        w@ == remote_work(path@, content_type@, bytes@),
{
    if !is_utf8_text(bytes) {
        return OutsideWork::Nothing;
    }
    let (name, kind) = remote_name_and_kind(path, content_type);
    outside_work(name.as_str(), kind, bytes)
}

/// The entry a downloaded file makes: refused unless its bytes are UTF-8
/// text; else named after its URL's path, of the kind its name or content
/// type calls for, resolving against its final URL.
pub open spec fn remote_entry_of(
    path: Seq<char>,
    final_url: Seq<char>,
    content_type: Seq<char>,
    bytes: Seq<u8>,
    converted: Option<Seq<u8>>,
    pdf_extracted: Option<Seq<char>>,
) -> Result<EntryView, ApiError> {
    if !valid_utf8(bytes) {
        Err(ApiError::NotUtf8Text)
    } else {
        entry_of(
            remote_name(path),
            inferred_kind(remote_name(path), content_type),
            bytes,
            Some(final_url),
            converted,
            pdf_extracted,
        )
    }
}

/// Makes the entry of a downloaded file, from its bytes, the office
/// converter's output for it and the text the PDF text extractor gave for
/// it.
pub fn remote_entry(
    path: &str,
    final_url: String,
    content_type: &str,
    bytes: &[u8],
    converted: Option<Vec<u8>>,
    pdf_extracted: Option<String>,
) -> (r: Result<FileEntry, ApiError>)
    ensures
        entry_result(r) == remote_entry_of(
            path@,
            final_url@,
            content_type@,
            bytes@,
            converted_view(converted),
            opt_text(pdf_extracted),
        ),
{
    if !is_utf8_text(bytes) {
        return Err(ApiError::NotUtf8Text);
    }
    let (name, kind) = remote_name_and_kind(path, content_type);
    entry_from_bytes(name, kind, bytes, Some(final_url), converted, pdf_extracted)
}

} // verus!
