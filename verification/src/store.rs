//! Stored files: how an upload or a download becomes an entry, and the
//! in-memory store that hands out viewer ids.
use vstd::prelude::*;
use std::collections::HashMap;
use vstd::utf8::{decode_utf8, valid_utf8};
use crate::error::ApiError;
use crate::header::{header_decoded, header_text};
use crate::kind::{FileKind, file_extension, file_extension_spec, infer_kind, inferred_kind, kind_named, parse_file_kind};
use crate::office::{
    converted_view, document_preview, document_text, document_text_of, opt_text, pdf_text, pdf_text_of,
    render_document_html,
};
use crate::text::{chars_of, string_of, utf8_string};

verus! {

broadcast use vstd::std_specs::hash::group_hash_axioms;

/// The largest upload or download accepted, in bytes (10 MB).
pub const MAX_FILE_SIZE: usize = 10485760;

/// A stored file.
pub struct FileEntry {
    /// The file's name.
    pub name: String,
    /// How the file is previewed.
    pub kind: FileKind,
    /// The text shown in the editor: the file itself, or the text extracted
    /// from a document or PDF.
    pub body: String,
    /// The HTML preview of a document, when one could be made.
    pub rendered_html: Option<String>,
    /// The bytes of a PDF as received.
    pub original_bytes: Option<Vec<u8>>,
    /// The URL a remote file came from, against which its HTML resolves.
    pub base_url: Option<String>,
}

/// The contents of a stored file.
pub struct EntryView {
    pub name: Seq<char>,
    pub kind: FileKind,
    pub body: Seq<char>,
    pub rendered_html: Option<Seq<char>>,
    pub original_bytes: Option<Seq<u8>>,
    pub base_url: Option<Seq<char>>,
}

/// The characters of an optional string.
pub open spec fn opt_chars(s: Option<String>) -> Option<Seq<char>> {
    match s {
        Some(t) => Some(t@),
        None => None,
    }
}

impl View for FileEntry {
    type V = EntryView;

    open spec fn view(&self) -> EntryView {
        EntryView {
            name: self.name@,
            kind: self.kind,
            body: self.body@,
            rendered_html: opt_chars(self.rendered_html),
            original_bytes: match self.original_bytes {
                Some(b) => Some(b@),
                None => None,
            },
            base_url: opt_chars(self.base_url),
        }
    }
}

/// The text and HTML preview that a file of the given kind yields.
pub open spec fn entry_content(
    kind: FileKind,
    extension: Seq<char>,
    bytes: Seq<u8>,
    converted: Option<Seq<u8>>,
    pdf_extracted: Option<Seq<char>>,
) -> Result<(Seq<char>, Option<Seq<char>>), ApiError> {
    match kind {
        FileKind::Document => match document_text_of(extension, bytes) {
            Ok(t) => Ok((t, document_preview(extension, bytes, converted))),
            Err(e) => Err(e),
        },
        FileKind::Pdf => match pdf_text_of(pdf_extracted) {
            Ok(t) => Ok((t, None)),
            Err(e) => Err(e),
        },
        _ => if valid_utf8(bytes) {
            Ok((decode_utf8(bytes), None))
        } else {
            Err(ApiError::NotUtf8Text)
        },
    }
}

/// The entry that a file's name, kind, bytes and origin make.
pub open spec fn entry_of(
    name: Seq<char>,
    kind: FileKind,
    bytes: Seq<u8>,
    base_url: Option<Seq<char>>,
    converted: Option<Seq<u8>>,
    pdf_extracted: Option<Seq<char>>,
) -> Result<EntryView, ApiError> {
    match entry_content(kind, file_extension_spec(name), bytes, converted, pdf_extracted) {
        Ok((body, html)) => Ok(
            EntryView {
                name,
                kind,
                body,
                rendered_html: html,
                original_bytes: if kind == FileKind::Pdf {
                    Some(bytes)
                } else {
                    None
                },
                base_url,
            },
        ),
        Err(e) => Err(e),
    }
}

/// The view of a result that may hold an entry.
pub open spec fn entry_result(r: Result<FileEntry, ApiError>) -> Result<EntryView, ApiError> {
    match r {
        Ok(e) => Ok(e@),
        Err(e) => Err(e),
    }
}

/// A copy of a byte slice.
pub(crate) fn copy_bytes(bytes: &[u8]) -> (v: Vec<u8>)
    ensures
        v@ == bytes@,
{
    let mut v: Vec<u8> = Vec::new();
    let mut i: usize = 0;
    while i < bytes.len()
        invariant
            i <= bytes@.len(),
            v@ == bytes@.subrange(0, i as int),
        decreases bytes.len() - i,
    {
        v.push(bytes[i]);
        i = i + 1;
        assert(v@ =~= bytes@.subrange(0, i as int));
    }
    assert(bytes@.subrange(0, i as int) =~= bytes@);
    v
}

/// Makes the entry of a file: its editor text (extracted for documents and
/// PDFs, the UTF-8 text otherwise), a document's HTML preview from the
/// office converter's output `converted`, and a PDF's received bytes; a
/// PDF's text comes from `pdf_extracted`, what the PDF text extractor gave
/// for the bytes (`None` when it failed).
pub fn entry_from_bytes(
    name: String,
    kind: FileKind,
    bytes: &[u8],
    base_url: Option<String>,
    converted: Option<Vec<u8>>,
    pdf_extracted: Option<String>,
) -> (r: Result<FileEntry, ApiError>)
    ensures
        entry_result(r) == entry_of(
            name@,
            kind,
            bytes@,
            opt_chars(base_url),
            converted_view(converted),
            opt_text(pdf_extracted),
        ),
{
    let extension = file_extension(name.as_str());
    let (body, rendered_html) = match kind {
        FileKind::Document => {
            let text = document_text(extension.as_str(), bytes)?;
            (text, render_document_html(extension.as_str(), bytes, converted))
        },
        FileKind::Pdf => (pdf_text(pdf_extracted)?, None),
        _ => match utf8_string(copy_bytes(bytes)) {
            Some(body) => (body, None),
            None => return Err(ApiError::NotUtf8Text),
        },
    };
    let original_bytes = if kind == FileKind::Pdf {
        Some(copy_bytes(bytes))
    } else {
        None
    };
    Ok(FileEntry { name, kind, body, rendered_html, original_bytes, base_url })
}

/// The name an upload's headers give: the decoded name header, or
/// `Untitled`.
pub open spec fn request_name(name_header: Option<Seq<char>>) -> Seq<char> {
    match name_header {
        Some(v) => match header_decoded(v) {
            Some(d) => d,
            None => v,
        },
        None => "Untitled"@,
    }
}

/// The kind an upload's headers give: the kind named by the decoded kind
/// header, or else the kind inferred from the name.
pub open spec fn request_kind(name_header: Option<Seq<char>>, kind_header: Option<Seq<char>>) -> FileKind {
    let named = match kind_header {
        Some(v) => kind_named(
            match header_decoded(v) {
                Some(d) => d,
                None => v,
            },
        ),
        None => None,
    };
    match named {
        Some(k) => k,
        None => inferred_kind(request_name(name_header), Seq::empty()),
    }
}

/// The characters of an optional string slice.
pub open spec fn opt_str(s: Option<&str>) -> Option<Seq<char>> {
    match s {
        Some(t) => Some(t@),
        None => None,
    }
}

/// Reads an upload's name and kind from the raw values of its
/// `x-file-name` and `x-file-kind` headers.
pub fn request_name_and_kind(name_header: Option<&str>, kind_header: Option<&str>) -> (r: (
    String,
    FileKind,
))
    ensures
        r.0@ == request_name(opt_str(name_header)),
        r.1 == request_kind(opt_str(name_header), opt_str(kind_header)),
{
    let name = match name_header {
        Some(v) => header_text(v),
        None => string_of(&chars_of("Untitled")),
    };
    let requested = match kind_header {
        Some(v) => {
            let t = header_text(v);
            parse_file_kind(t.as_str())
        },
        None => None,
    };
    let kind = match requested {
        Some(k) => k,
        None => infer_kind(name.as_str(), ""),
    };
    proof {
        reveal_strlit("");
        assert(""@ =~= Seq::<char>::empty());
    }
    (name, kind)
}

/// The entry an upload makes, or the error it is refused with.
pub open spec fn upload_entry(
    name_header: Option<Seq<char>>,
    kind_header: Option<Seq<char>>,
    body: Seq<u8>,
    converted: Option<Seq<u8>>,
    pdf_extracted: Option<Seq<char>>,
) -> Result<EntryView, ApiError> {
    if body.len() > MAX_FILE_SIZE {
        Err(ApiError::FileTooLarge)
    } else {
        entry_of(
            request_name(name_header),
            request_kind(name_header, kind_header),
            body,
            None,
            converted,
            pdf_extracted,
        )
    }
}

/// Makes the entry of an uploaded file from its headers' raw values, its
/// body, the office converter's output for it and the text the PDF text
/// extractor gave for it.
pub fn entry_from_request(
    name_header: Option<&str>,
    kind_header: Option<&str>,
    body: &[u8],
    converted: Option<Vec<u8>>,
    pdf_extracted: Option<String>,
) -> (r: Result<FileEntry, ApiError>)
    ensures
        entry_result(r) == upload_entry(
            opt_str(name_header),
            opt_str(kind_header),
            body@,
            converted_view(converted),
            opt_text(pdf_extracted),
        ),
{
    if body.len() > MAX_FILE_SIZE {
        return Err(ApiError::FileTooLarge);
    }
    let (name, kind) = request_name_and_kind(name_header, kind_header);
    entry_from_bytes(name, kind, body, None, converted, pdf_extracted)
}

/// Outside work that a file needs before its entry can be made.
pub enum OutsideWork {
    /// Convert the document, whose extension is given, to HTML with the
    /// office converter.
    ConvertDocument(String),
    /// Extract the text of the PDF.
    ExtractPdfText,
    /// None.
    Nothing,
}

/// The view of a piece of outside work.
pub enum WorkView {
    ConvertDocument(Seq<char>),
    ExtractPdfText,
    Nothing,
}

impl View for OutsideWork {
    type V = WorkView;

    open spec fn view(&self) -> WorkView {
        match self {
            OutsideWork::ConvertDocument(e) => WorkView::ConvertDocument(e@),
            OutsideWork::ExtractPdfText => WorkView::ExtractPdfText,
            OutsideWork::Nothing => WorkView::Nothing,
        }
    }
}

/// The outside work a file of the given name and kind needs: a document
/// whose text can be extracted is converted to HTML, a PDF has its text
/// extracted, and nothing else needs anything.
pub open spec fn work_for(name: Seq<char>, kind: FileKind, bytes: Seq<u8>) -> WorkView {
    match kind {
        FileKind::Document => if document_text_of(file_extension_spec(name), bytes) is Ok {
            WorkView::ConvertDocument(file_extension_spec(name))
        } else {
            WorkView::Nothing
        },
        FileKind::Pdf => WorkView::ExtractPdfText,
        _ => WorkView::Nothing,
    }
}

/// Says which outside work a file of the given name and kind needs.
pub fn outside_work(name: &str, kind: FileKind, bytes: &[u8]) -> (w: OutsideWork)
    ensures
        w@ == work_for(name@, kind, bytes@),
{
    match kind {
        FileKind::Document => {
            let extension = file_extension(name);
            if document_text(extension.as_str(), bytes).is_ok() {
                OutsideWork::ConvertDocument(extension)
            } else {
                OutsideWork::Nothing
            }
        },
        FileKind::Pdf => OutsideWork::ExtractPdfText,
        _ => OutsideWork::Nothing,
    }
}

/// The outside work an upload needs: none when it is refused for its size.
pub open spec fn upload_work(
    name_header: Option<Seq<char>>,
    kind_header: Option<Seq<char>>,
    body: Seq<u8>,
) -> WorkView {
    if body.len() > MAX_FILE_SIZE {
        WorkView::Nothing
    } else {
        work_for(request_name(name_header), request_kind(name_header, kind_header), body)
    }
}

/// Says which outside work an upload needs, from its headers' raw values and
/// its body.
pub fn upload_outside_work(name_header: Option<&str>, kind_header: Option<&str>, body: &[u8]) -> (w:
    OutsideWork)
    ensures
        w@ == upload_work(opt_str(name_header), opt_str(kind_header), body@),
{
    if body.len() > MAX_FILE_SIZE {
        return OutsideWork::Nothing;
    }
    let (name, kind) = request_name_and_kind(name_header, kind_header);
    outside_work(name.as_str(), kind, body)
}

/// The abstract state of a file store: its entries by id, and the id the
/// next new file gets.
pub struct StoreView {
    pub files: Map<u64, FileEntry>,
    pub next_id: u64,
}

/// The id after `id`, wrapping around at the end of `u64`.
pub open spec fn advanced(id: u64) -> u64 {
    if id == u64::MAX {
        0
    } else {
        (id + 1) as u64
    }
}

/// The store after a new file is added, and the id it gets: the next id,
/// which then advances (wrapping around at the end of `u64`).
pub open spec fn created(s: StoreView, entry: FileEntry) -> (StoreView, u64) {
    (
        StoreView { files: s.files.insert(s.next_id, entry), next_id: advanced(s.next_id) },
        s.next_id,
    )
}

/// The store after an id is handed out for a file still to come: the id is
/// the next id, which then advances as in `created`.
pub open spec fn reserved(s: StoreView) -> (StoreView, u64) {
    (StoreView { files: s.files, next_id: advanced(s.next_id) }, s.next_id)
}

/// The store after a file is put under an id handed out before.
pub open spec fn inserted(s: StoreView, id: u64, entry: FileEntry) -> StoreView {
    StoreView { files: s.files.insert(id, entry), next_id: s.next_id }
}

/// The store after a file is replaced, and the answer: an error when no
/// file has that id, the store then unchanged.
pub open spec fn updated(s: StoreView, id: u64, entry: FileEntry) -> (StoreView, Result<(), ApiError>) {
    if s.files.contains_key(id) {
        (StoreView { files: s.files.insert(id, entry), next_id: s.next_id }, Ok(()))
    } else {
        (s, Err(ApiError::NotFound))
    }
}

/// The file a store holds under an id.
pub open spec fn looked_up(s: StoreView, id: u64) -> Option<FileEntry> {
    if s.files.contains_key(id) {
        Some(s.files[id])
    } else {
        None
    }
}

/// A store whose ids all lie below the next id, from 1 on.
pub open spec fn ids_below_next(s: StoreView) -> bool {
    &&& 1 <= s.next_id
    &&& forall|k: u64| #[trigger] s.files.contains_key(k) ==> 1 <= k < s.next_id
}

/// The in-memory store of viewed files.
pub struct FileStore {
    files: HashMap<u64, FileEntry>,
    next_id: u64,
}

impl View for FileStore {
    type V = StoreView;

    closed spec fn view(&self) -> StoreView {
        StoreView { files: self.files@, next_id: self.next_id }
    }
}

impl FileStore {
    /// An empty store whose first id is 1.
    pub fn new() -> (store: FileStore)
        ensures
            store@.files == Map::<u64, FileEntry>::empty(),
            store@.next_id == 1,
    {
        FileStore { files: HashMap::new(), next_id: 1 }
    }

    /// Adds a file under a new id and returns the id.
    pub fn create(&mut self, entry: FileEntry) -> (id: u64)
        ensures
            (final(self)@, id) == created(old(self)@, entry),
    {
        let id = self.next_id;
        self.next_id = self.next_id.wrapping_add(1);
        self.files.insert(id, entry);
        id
    }

    /// Hands out the next id, for a file that is still being read; the id
    /// is used up whether or not a file is put under it.
    pub fn reserve_id(&mut self) -> (id: u64)
        ensures
            (final(self)@, id) == reserved(old(self)@),
    {
        let id = self.next_id;
        self.next_id = self.next_id.wrapping_add(1);
        id
    }

    /// Puts a file under an id handed out by `reserve_id`.
    pub fn insert(&mut self, id: u64, entry: FileEntry)
        ensures
            final(self)@ == inserted(old(self)@, id, entry),
    {
        self.files.insert(id, entry);
    }

    /// Replaces the file stored under `id`; `NotFound` when there is none.
    pub fn update(&mut self, id: u64, entry: FileEntry) -> (r: Result<(), ApiError>)
        ensures
            (final(self)@, r) == updated(old(self)@, id, entry),
    {
        if !self.files.contains_key(&id) {
            return Err(ApiError::not_found());
        }
        self.files.insert(id, entry);
        Ok(())
    }

    /// The file stored under `id`.
    pub fn get(&self, id: u64) -> (r: Option<&FileEntry>)
        ensures
            match r {
                Some(e) => looked_up(self@, id) == Some(*e),
                None => looked_up(self@, id) is None,
            },
    {
        self.files.get(&id)
    }
}

/// A file added to the store is what a lookup of its id gives back, and the
/// other ids keep their files.
pub proof fn lemma_lookup_after_create(s: StoreView, entry: FileEntry, other: u64)
    ensures
        looked_up(created(s, entry).0, created(s, entry).1) == Some(entry),
        other != created(s, entry).1 ==> looked_up(created(s, entry).0, other) == looked_up(s, other),
{
}

/// Replacing a stored file makes a lookup give the new file and leaves the
/// other ids' files alone; replacing a missing one is refused with
/// `NotFound` and changes nothing.
pub proof fn lemma_lookup_after_update(s: StoreView, id: u64, entry: FileEntry, other: u64)
    ensures
        updated(s, id, entry).1 is Ok <==> looked_up(s, id) is Some,
        updated(s, id, entry).1 is Ok ==> looked_up(updated(s, id, entry).0, id) == Some(entry),
        updated(s, id, entry).1 is Err ==> updated(s, id, entry).1 == Err::<(), ApiError>(
            ApiError::NotFound,
        ) && updated(s, id, entry).0 == s,
        other != id ==> looked_up(updated(s, id, entry).0, other) == looked_up(s, other),
{
}

/// While ids stay below the end of `u64`, every id handed out is one that
/// no stored file has, and putting a file under it keeps all ids below the
/// next one.
pub proof fn lemma_fresh_ids(s: StoreView, entry: FileEntry, id: u64, entry2: FileEntry)
    requires
        ids_below_next(s),
        s.next_id < u64::MAX,
    ensures
        looked_up(s, created(s, entry).1) is None,
        ids_below_next(created(s, entry).0),
        ids_below_next(updated(s, id, entry2).0),
        looked_up(s, reserved(s).1) is None,
        ids_below_next(reserved(s).0),
        ids_below_next(inserted(reserved(s).0, reserved(s).1, entry)),
{
}

/// A file put under a reserved id is what a lookup of that id gives back;
/// the other ids keep their files, and reserving alone stores nothing.
pub proof fn lemma_lookup_after_reserve(s: StoreView, entry: FileEntry, other: u64)
    ensures
        looked_up(inserted(reserved(s).0, reserved(s).1, entry), reserved(s).1) == Some(entry),
        other != reserved(s).1 ==> looked_up(inserted(reserved(s).0, reserved(s).1, entry), other)
            == looked_up(s, other),
        reserved(s).0.files == s.files,
{
}

/// A new store holds ids below its next id.
pub proof fn lemma_new_store_ids()
    ensures
        ids_below_next(StoreView { files: Map::empty(), next_id: 1 }),
{
}

} // verus!
