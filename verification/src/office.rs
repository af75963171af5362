//! Text and HTML of office documents: DOCX and ODT archives, their XML, PDF
//! files and converted HTML.
use vstd::prelude::*;
use vstd::utf8::{decode_utf8, valid_utf8};
use crate::error::ApiError;
use crate::extract::{
    legacy_binary_text, legacy_text, normalized, normalize_document_text, is_trimmed,
    lemma_normalized_shape, lemma_normalize_idempotent,
};
use crate::html::{body_of, extract_body_html};
use crate::rtf::{rtf_text, rtf_to_text};
use crate::text::{chars_of, lossy_utf8, same_chars, string_of, utf8_lossy, utf8_string};

verus! {

/// A node of a parsed XML document, as the text extraction reads it.
#[derive(Debug)]
pub enum XmlNode {
    /// A text node and its text.
    Text(String),
    /// An element and its local name.
    Element(String),
    /// The document root, a comment or a processing instruction.
    Other,
}

/// The view of an XML node.
pub enum XmlItem {
    Text(Seq<char>),
    Element(Seq<char>),
    Other,
}

impl View for XmlNode {
    type V = XmlItem;

    open spec fn view(&self) -> XmlItem {
        match self {
            XmlNode::Text(t) => XmlItem::Text(t@),
            XmlNode::Element(n) => XmlItem::Element(n@),
            XmlNode::Other => XmlItem::Other,
        }
    }
}

/// The views of a sequence of XML nodes.
pub open spec fn xml_items(nodes: Seq<XmlNode>) -> Seq<XmlItem> {
    nodes.map_values(|n: XmlNode| n@)
}

/// The nodes that `roxmltree` parses an XML document into, in document
/// order (the root first); `None` when the text is not well-formed XML.
pub uninterp spec fn xml_document_nodes(xml: Seq<char>) -> Option<Seq<XmlItem>>;

/// Calls `roxmltree::Document::parse` and lists `descendants()` of the
/// document, each as its text, its element's local name, or neither; the
/// list is named `xml_document_nodes` of the XML text.
#[verifier::external_body]
fn parse_xml_nodes(xml: &str) -> (r: Option<Vec<XmlNode>>)
    ensures
        match r {
            Some(v) => xml_document_nodes(xml@) == Some(xml_items(v@)),
            None => xml_document_nodes(xml@) is None,
        },
{
    let document = roxmltree::Document::parse(xml).ok()?;
    Some(document.descendants().map(|node| if node.is_text() {
        XmlNode::Text(node.text().unwrap_or_default().to_owned())
    } else if node.is_element() {
        XmlNode::Element(node.tag_name().name().to_owned())
    } else {
        XmlNode::Other
    }).collect())
}

/// The text of a document's XML nodes: text nodes as they are, `tab`
/// elements as tabs, `br` and `cr` elements as line feeds, and a line feed
/// before each `p` element unless the text already ends with one.
pub open spec fn xml_text_of(nodes: Seq<XmlItem>) -> Seq<char>
    decreases nodes.len(),
{
    if nodes.len() == 0 {
        Seq::empty()
    } else {
        let out = xml_text_of(nodes.drop_last());
        match nodes.last() {
            XmlItem::Text(t) => out + t,
            XmlItem::Element(name) => if name == "tab"@ {
                out.push('\t')
            } else if name == "br"@ || name == "cr"@ {
                out.push('\n')
            } else if name == "p"@ {
                if out.len() > 0 && out.last() == '\n' {
                    out
                } else {
                    out.push('\n')
                }
            } else {
                out
            },
            XmlItem::Other => out,
        }
    }
}

/// The text of an XML document, or the error for XML that does not parse.
pub open spec fn xml_text(xml: Seq<char>) -> Result<Seq<char>, ApiError> {
    match xml_document_nodes(xml) {
        Some(nodes) => Ok(xml_text_of(nodes)),
        None => Err(ApiError::XmlUnparsable),
    }
}

fn name_is(name: &String, lit: &str) -> (b: bool)
    ensures
        b == (name@ == lit@),
{
    same_chars(&chars_of(name.as_str()), &chars_of(lit))
}

/// Extracts the text of a word-processing XML document.
pub fn xml_to_text(xml: &str) -> (r: Result<String, ApiError>)
    ensures
        match r {
            Ok(s) => xml_text(xml@) == Ok::<Seq<char>, ApiError>(s@),
            Err(e) => xml_text(xml@) == Err::<Seq<char>, ApiError>(e),
        },
{
    match parse_xml_nodes(xml) {
        Some(nodes) => Ok(xml_nodes_text(&nodes)),
        None => Err(ApiError::XmlUnparsable),
    }
}

/// The text of a document's XML nodes, in document order.
pub fn xml_nodes_text(nodes: &[XmlNode]) -> (s: String)
    ensures
        s@ == xml_text_of(xml_items(nodes@)),
{
    let ghost items = xml_items(nodes@);
    let mut out: Vec<char> = Vec::new();
    let mut i: usize = 0;
    while i < nodes.len()
        invariant
            i <= nodes@.len(),
            items == xml_items(nodes@),
            out@ == xml_text_of(items.subrange(0, i as int)),
        decreases nodes.len() - i,
    {
        proof {
            assert(items.subrange(0, i + 1).drop_last() =~= items.subrange(0, i as int));
            assert(items.subrange(0, i + 1).last() == nodes@[i as int]@);
        }
        let ghost before = out@;
        match &nodes[i] {
            XmlNode::Text(t) => {
                let tc = chars_of(t.as_str());
                let mut k: usize = 0;
                while k < tc.len()
                    invariant
                        k <= tc@.len(),
                        out@ == before + tc@.subrange(0, k as int),
                    decreases tc.len() - k,
                {
                    out.push(tc[k]);
                    k = k + 1;
                    assert(out@ =~= before + tc@.subrange(0, k as int));
                }
                assert(tc@.subrange(0, k as int) =~= tc@);
            },
            XmlNode::Element(name) => {
                if name_is(name, "tab") {
                    out.push('\t');
                } else if name_is(name, "br") || name_is(name, "cr") {
                    out.push('\n');
                } else if name_is(name, "p") {
                    if !(out.len() > 0 && out[out.len() - 1] == '\n') {
                        out.push('\n');
                    }
                }
            },
            XmlNode::Other => {},
        }
        i = i + 1;
    }
    assert(items.subrange(0, i as int) =~= items);
    string_of(&out)
}

/// The step at which reading a member of a ZIP archive failed.
#[derive(Debug, Clone, Copy, PartialEq, Eq, Structural)]
pub enum ZipFailure {
    /// The bytes are not a readable ZIP archive.
    Archive,
    /// The archive has no member of that name.
    Member,
    /// The member could not be read as UTF-8 text.
    Read,
}

/// What `zip` reads as the text of the member `member` of the archive
/// `archive`, or the step at which it fails.
pub uninterp spec fn zip_member_text(archive: Seq<u8>, member: Seq<char>) -> Result<
    Seq<char>,
    ZipFailure,
>;

/// Calls `zip::ZipArchive::new` on the bytes, `ZipArchive::by_name` for the
/// member and `Read::read_to_string` on it; the text, or the step that
/// failed, is named `zip_member_text` of the bytes and the member name.
#[verifier::external_body]
fn read_zip_member(bytes: &[u8], member: &str) -> (r: Result<String, ZipFailure>)
    ensures
        match r {
            Ok(s) => zip_member_text(bytes@, member@) == Ok::<Seq<char>, ZipFailure>(s@),
            Err(f) => zip_member_text(bytes@, member@) == Err::<Seq<char>, ZipFailure>(f),
        },
{
    let mut archive = zip::ZipArchive::new(std::io::Cursor::new(bytes)).map_err(|_| ZipFailure::Archive)?;
    let mut file = archive.by_name(member).map_err(|_| ZipFailure::Member)?;
    let mut xml = String::new();
    std::io::Read::read_to_string(&mut file, &mut xml).map_err(|_| ZipFailure::Read)?;
    Ok(xml)
}

/// The error answered for a failed archive read.
pub open spec fn zip_error(f: ZipFailure) -> ApiError {
    match f {
        ZipFailure::Archive => ApiError::ArchiveUnreadable,
        ZipFailure::Member => ApiError::ArchiveMemberMissing,
        ZipFailure::Read => ApiError::XmlNotUtf8,
    }
}

/// The text of the XML member `member` of a ZIP archive.
pub open spec fn zipped_text(bytes: Seq<u8>, member: Seq<char>) -> Result<Seq<char>, ApiError> {
    match zip_member_text(bytes, member) {
        Ok(xml) => xml_text(xml),
        Err(f) => Err(zip_error(f)),
    }
}

/// Extracts the text of an XML member of a ZIP archive (DOCX, ODT).
pub fn zipped_xml_text(bytes: &[u8], member: &str) -> (r: Result<String, ApiError>)
    ensures
        match r {
            Ok(s) => zipped_text(bytes@, member@) == Ok::<Seq<char>, ApiError>(s@),
            Err(e) => zipped_text(bytes@, member@) == Err::<Seq<char>, ApiError>(e),
        },
{
    match read_zip_member(bytes, member) {
        Ok(xml) => xml_to_text(xml.as_str()),
        Err(ZipFailure::Archive) => Err(ApiError::ArchiveUnreadable),
        Err(ZipFailure::Member) => Err(ApiError::ArchiveMemberMissing),
        Err(ZipFailure::Read) => Err(ApiError::XmlNotUtf8),
    }
}

/// The text that a document of the given extension holds, before
/// normalisation.
pub open spec fn raw_document_text(extension: Seq<char>, bytes: Seq<u8>) -> Result<
    Seq<char>,
    ApiError,
> {
    if extension == "docx"@ {
        zipped_text(bytes, "word/document.xml"@)
    } else if extension == "odt"@ {
        zipped_text(bytes, "content.xml"@)
    } else if extension == "rtf"@ {
        Ok(rtf_text(lossy_utf8(bytes)))
    } else if extension == "doc"@ {
        Ok(legacy_text(bytes))
    } else {
        Ok(lossy_utf8(bytes))
    }
}

/// Normalised extracted text; an error when nothing is left of it.
pub open spec fn nonempty_text(text: Result<Seq<char>, ApiError>, empty: ApiError) -> Result<
    Seq<char>,
    ApiError,
> {
    match text {
        Ok(t) => if normalized(t).len() == 0 {
            Err(empty)
        } else {
            Ok(normalized(t))
        },
        Err(e) => Err(e),
    }
}

/// The text of a document of the given extension.
pub open spec fn document_text_of(extension: Seq<char>, bytes: Seq<u8>) -> Result<
    Seq<char>,
    ApiError,
> {
    nonempty_text(raw_document_text(extension, bytes), ApiError::DocumentWithoutText)
}

fn extension_is(extension: &str, lit: &str) -> (b: bool)
    ensures
        b == (extension@ == lit@),
{
    same_chars(&chars_of(extension), &chars_of(lit))
}

/// Extracts and normalises the text of a document: DOCX and ODT from their
/// XML, RTF and legacy Word files by their own rules, anything else read as
/// UTF-8.
pub fn document_text(extension: &str, bytes: &[u8]) -> (r: Result<String, ApiError>)
    ensures
        match r {
            Ok(s) => document_text_of(extension@, bytes@) == Ok::<Seq<char>, ApiError>(s@),
            Err(e) => document_text_of(extension@, bytes@) == Err::<Seq<char>, ApiError>(e),
        },
{
    let text = if extension_is(extension, "docx") {
        zipped_xml_text(bytes, "word/document.xml")?
    } else if extension_is(extension, "odt") {
        zipped_xml_text(bytes, "content.xml")?
    } else if extension_is(extension, "rtf") {
        rtf_to_text(bytes)
    } else if extension_is(extension, "doc") {
        legacy_binary_text(bytes)
    } else {
        utf8_lossy(bytes)
    };
    let text = normalize_document_text(text.as_str());
    if text.as_str().is_empty() {
        return Err(ApiError::DocumentWithoutText);
    }
    Ok(text)
}

/// The characters of an optional string.
pub open spec fn opt_text(s: Option<String>) -> Option<Seq<char>> {
    match s {
        Some(t) => Some(t@),
        None => None,
    }
}

/// The text of a PDF, from what the PDF text extractor gave for it (`None`
/// when extraction failed).
pub open spec fn pdf_text_of(extracted: Option<Seq<char>>) -> Result<Seq<char>, ApiError> {
    nonempty_text(
        match extracted {
            Some(t) => Ok(t),
            None => Err(ApiError::PdfUnreadable),
        },
        ApiError::PdfWithoutText,
    )
}

/// Normalises the text extracted from a PDF; `extracted` is what the PDF
/// text extractor gave, `None` when it failed.
pub fn pdf_text(extracted: Option<String>) -> (r: Result<String, ApiError>)
    ensures
        match r {
            Ok(s) => pdf_text_of(opt_text(extracted)) == Ok::<Seq<char>, ApiError>(s@),
            Err(e) => pdf_text_of(opt_text(extracted)) == Err::<Seq<char>, ApiError>(e),
        },
{
    let text = match extracted {
        Some(t) => t,
        None => return Err(ApiError::PdfUnreadable),
    };
    let text = normalize_document_text(text.as_str());
    if text.as_str().is_empty() {
        return Err(ApiError::PdfWithoutText);
    }
    Ok(text)
}

/// The HTML that `rdocx` renders a DOCX document to; `None` when the bytes
/// do not open as one.
pub uninterp spec fn docx_document_html(bytes: Seq<u8>) -> Option<Seq<char>>;

/// Calls `rdocx::Document::from_bytes` and `Document::to_html`; the HTML, or
/// the failure to open, is named `docx_document_html` of the bytes.
#[verifier::external_body]
fn docx_to_html(bytes: &[u8]) -> (r: Option<String>)
    ensures
        match r {
            Some(s) => docx_document_html(bytes@) == Some(s@),
            None => docx_document_html(bytes@) is None,
        },
{
    rdocx::Document::from_bytes(bytes).ok().map(|document| document.to_html())
}

/// The body of a DOCX document rendered as HTML.
pub fn docx_html(bytes: &[u8]) -> (r: Option<String>)
    ensures
        match r {
            Some(s) => docx_document_html(bytes@) matches Some(h) && s@ == body_of(h),
            None => docx_document_html(bytes@) is None,
        },
{
    let html = docx_to_html(bytes)?;
    Some(extract_body_html(html.as_str()))
}

/// The HTML preview of a document: the body of what the office converter
/// produced, when it produced UTF-8; else, for DOCX, the body of its `rdocx`
/// rendering.
pub open spec fn document_preview(extension: Seq<char>, bytes: Seq<u8>, converted: Option<
    Seq<u8>,
>) -> Option<Seq<char>> {
    match converted {
        Some(c) if valid_utf8(c) => Some(body_of(decode_utf8(c))),
        _ => if extension == "docx"@ {
            match docx_document_html(bytes) {
                Some(h) => Some(body_of(h)),
                None => None,
            }
        } else {
            None
        },
    }
}

/// The bytes of an optional converter output.
pub open spec fn converted_view(converted: Option<Vec<u8>>) -> Option<Seq<u8>> {
    match converted {
        Some(c) => Some(c@),
        None => None,
    }
}

/// The body of the HTML that the office converter produced, if it produced
/// any and it is UTF-8.
pub fn converted_body_html(converted: Option<Vec<u8>>) -> (r: Option<String>)
    ensures
        match converted {
            Some(c) if valid_utf8(c@) => r matches Some(s) && s@ == body_of(decode_utf8(c@)),
            _ => r is None,
        },
{
    let bytes = converted?;
    let html = utf8_string(bytes)?;
    Some(extract_body_html(html.as_str()))
}

/// Renders a document's HTML preview from the office converter's output
/// (`None` when it failed), falling back to `rdocx` for DOCX files.
pub fn render_document_html(extension: &str, bytes: &[u8], converted: Option<Vec<u8>>) -> (r: Option<
    String,
>)
    ensures
        match r {
            Some(s) => document_preview(extension@, bytes@, converted_view(converted))
                == Some(s@),
            None => document_preview(extension@, bytes@, converted_view(converted)) is None,
        },
{
    match converted_body_html(converted) {
        Some(h) => Some(h),
        None => {
            if extension_is(extension, "docx") {
                docx_html(bytes)
            } else {
                None
            }
        },
    }
}


/// Text extracted from a document or a PDF is never empty, starts and ends
/// with characters that are not white space, and is left unchanged by
/// normalising it again.
pub proof fn lemma_extracted_text_normalized(
    extension: Seq<char>,
    bytes: Seq<u8>,
    extracted: Option<Seq<char>>,
)
    ensures
        document_text_of(extension, bytes) matches Ok(t) ==> t.len() > 0 && is_trimmed(t)
            && normalized(t) == t,
        pdf_text_of(extracted) matches Ok(t) ==> t.len() > 0 && is_trimmed(t) && normalized(t)
            == t,
{
    match raw_document_text(extension, bytes) {
        Ok(t) => {
            lemma_normalized_shape(t);
            lemma_normalize_idempotent(t);
        },
        Err(_) => {},
    }
    match extracted {
        Some(t) => {
            lemma_normalized_shape(t);
            lemma_normalize_idempotent(t);
        },
        None => {},
    }
}


/// Each node appends to the text of the nodes before it: a text node its
/// text verbatim, white space included; a `tab` element a tab; `br` and `cr`
/// elements a line feed; a `p` element a line feed unless the text is empty
/// of a final one; every other node nothing.
pub proof fn lemma_xml_node_appends(nodes: Seq<XmlItem>, t: Seq<char>, name: Seq<char>)
    ensures
        xml_text_of(nodes.push(XmlItem::Text(t))) == xml_text_of(nodes) + t,
        xml_text_of(nodes.push(XmlItem::Element("tab"@))) == xml_text_of(nodes).push('\t'),
        xml_text_of(nodes.push(XmlItem::Element("br"@))) == xml_text_of(nodes).push('\n'),
        xml_text_of(nodes.push(XmlItem::Element("cr"@))) == xml_text_of(nodes).push('\n'),
        xml_text_of(nodes.push(XmlItem::Element("p"@))) == (if xml_text_of(nodes).len() > 0
            && xml_text_of(nodes).last() == '\n' {
            xml_text_of(nodes)
        } else {
            xml_text_of(nodes).push('\n')
        }),
        (name != "tab"@ && name != "br"@ && name != "cr"@ && name != "p"@) ==> xml_text_of(
            nodes.push(XmlItem::Element(name)),
        ) == xml_text_of(nodes),
        xml_text_of(nodes.push(XmlItem::Other)) == xml_text_of(nodes),
{
    reveal_strlit("tab");
    reveal_strlit("br");
    reveal_strlit("cr");
    reveal_strlit("p");
    assert("tab"@.len() == 3 && "br"@.len() == 2 && "cr"@.len() == 2 && "p"@.len() == 1);
    assert("br"@[0] != "cr"@[0]);
    assert(nodes.push(XmlItem::Text(t)).drop_last() =~= nodes);
    assert(nodes.push(XmlItem::Element("tab"@)).drop_last() =~= nodes);
    assert(nodes.push(XmlItem::Element("br"@)).drop_last() =~= nodes);
    assert(nodes.push(XmlItem::Element("cr"@)).drop_last() =~= nodes);
    assert(nodes.push(XmlItem::Element("p"@)).drop_last() =~= nodes);
    assert(nodes.push(XmlItem::Element(name)).drop_last() =~= nodes);
    assert(nodes.push(XmlItem::Other).drop_last() =~= nodes);
}

/// The text of text nodes alone is their texts joined, white space
/// included.
pub proof fn lemma_xml_texts_joined(a: Seq<XmlItem>, texts: Seq<Seq<char>>)
    ensures
        xml_text_of(a + texts.map_values(|t: Seq<char>| XmlItem::Text(t))) == xml_text_of(a)
            + texts.fold_left(Seq::<char>::empty(), |acc: Seq<char>, t: Seq<char>| acc + t),
    decreases texts.len(),
{
    let f = |t: Seq<char>| XmlItem::Text(t);
    let g = |acc: Seq<char>, t: Seq<char>| acc + t;
    if texts.len() == 0 {
        assert(a + texts.map_values(f) =~= a);
        assert(texts.fold_left(Seq::<char>::empty(), g) == Seq::<char>::empty());
        assert(xml_text_of(a) + Seq::<char>::empty() =~= xml_text_of(a));
    } else {
        let init = texts.drop_last();
        lemma_xml_texts_joined(a, init);
        assert(a + texts.map_values(f) =~= (a + init.map_values(f)).push(XmlItem::Text(texts.last())));
        lemma_xml_node_appends(a + init.map_values(f), texts.last(), Seq::empty());
        assert(texts.fold_left(Seq::<char>::empty(), g) == g(init.fold_left(Seq::<char>::empty(), g), texts.last()));
        assert(xml_text_of(a) + init.fold_left(Seq::<char>::empty(), g) + texts.last() =~= xml_text_of(a)
            + (init.fold_left(Seq::<char>::empty(), g) + texts.last()));
    }
}

} // verus!
