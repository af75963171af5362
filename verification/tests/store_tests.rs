use std::io::Write;

use viperpad::error::ApiError;
use viperpad::kind::FileKind;
use viperpad::office::{converted_body_html, xml_nodes_text, XmlNode, docx_html, pdf_text, render_document_html, xml_to_text, zipped_xml_text, document_text};
use viperpad::page::{binary_content_type, binary_preview, preview_page, raw_file, render_entry, viewer_page};
use viperpad::remote::{check_declared_length, is_utf8_text, remote_entry, remote_outside_work, remote_file_name, remote_name_and_kind, remote_request_url, RemoteDownload};
use viperpad::store::{outside_work, upload_outside_work, OutsideWork, entry_from_bytes, entry_from_request, request_name_and_kind, FileEntry, FileStore, MAX_FILE_SIZE};
use viperpad::tls::key_file_name;

fn zip_with(member: &str, contents: &[u8]) -> Vec<u8> {
    let mut writer = zip::ZipWriter::new(std::io::Cursor::new(Vec::new()));
    let options = zip::write::SimpleFileOptions::default()
        .compression_method(zip::CompressionMethod::Stored);
    writer.start_file(member, options).unwrap();
    writer.write_all(contents).unwrap();
    writer.finish().unwrap().into_inner()
}

fn text_entry(name: &str, body: &str) -> FileEntry {
    entry_from_bytes(name.to_string(), FileKind::Text, body.as_bytes(), None, None, None).unwrap()
}

#[test]
fn xml_text_keeps_text_tabs_and_breaks() {
    let xml = "<w:document xmlns:w=\"urn:w\"><w:body><w:p><w:r><w:t>One</w:t><w:tab/><w:t>two</w:t></w:r></w:p><w:p><w:r><w:t>Three</w:t><w:br/></w:r></w:p></w:body></w:document>";
    assert_eq!(xml_to_text(xml).unwrap(), "\nOne\ttwo\nThree\n");
    assert_eq!(xml_to_text("<a>unclosed"), Err(ApiError::XmlUnparsable));
}

#[test]
fn docx_text_comes_from_its_document_xml() {
    let archive = zip_with("word/document.xml", b"<d><p>Hello</p><p>World</p></d>");
    assert_eq!(zipped_xml_text(&archive, "word/document.xml").unwrap(), "\nHello\nWorld");
    assert_eq!(document_text("docx", &archive).unwrap(), "Hello\nWorld");
    assert_eq!(document_text("odt", &archive), Err(ApiError::ArchiveMemberMissing));
    assert_eq!(document_text("docx", b"not a zip"), Err(ApiError::ArchiveUnreadable));
    let bad = zip_with("content.xml", b"\xff\xfe");
    assert_eq!(document_text("odt", &bad), Err(ApiError::XmlNotUtf8));
}

#[test]
fn unreadable_pdfs_and_docx_are_refused() {
    assert_eq!(pdf_text(None), Err(ApiError::PdfUnreadable));
    assert_eq!(pdf_text(Some(" \n ".to_string())), Err(ApiError::PdfWithoutText));
    assert!(pdf_extract::extract_text_from_mem(b"not a pdf").is_err());
    assert_eq!(docx_html(b"not a docx"), None);
    assert_eq!(render_document_html("docx", b"not a docx", None), None);
    assert_eq!(render_document_html("odt", b"x", None), None);
}

#[test]
fn converted_html_is_cut_to_its_body() {
    assert_eq!(
        converted_body_html(Some(b"<html><body><p>x</p></body></html>".to_vec())).as_deref(),
        Some("<p>x</p>")
    );
    assert_eq!(converted_body_html(Some(vec![0xff])), None);
    assert_eq!(converted_body_html(None), None);
    assert_eq!(
        render_document_html("odt", b"x", Some(b"<body>Hi</body>".to_vec())).as_deref(),
        Some("Hi")
    );
}

#[test]
fn entries_hold_text_documents_and_pdfs() {
    let entry = text_entry("notes.txt", "hello");
    assert_eq!(entry.body, "hello");
    assert_eq!(entry.kind, FileKind::Text);
    assert!(entry.original_bytes.is_none());
    assert!(matches!(
        entry_from_bytes("x.txt".to_string(), FileKind::Text, &[0xff], None, None, None),
        Err(ApiError::NotUtf8Text)
    ));
    let doc = entry_from_bytes(
        "letter.rtf".to_string(),
        FileKind::Document,
        br"{\rtf1 Dear\par Sir}",
        None,
        Some(b"<body><p>Dear</p></body>".to_vec()),
        None,
    )
    .unwrap();
    assert_eq!(doc.body, "Dear\nSir");
    assert_eq!(doc.rendered_html.as_deref(), Some("<p>Dear</p>"));
    assert!(matches!(
        entry_from_bytes("scan.pdf".to_string(), FileKind::Pdf, b"junk", None, None, None),
        Err(ApiError::PdfUnreadable)
    ));
}

#[test]
fn uploads_read_their_headers() {
    let (name, kind) = request_name_and_kind(Some("My%20notes.md"), None);
    assert_eq!(name, "My notes.md");
    assert_eq!(kind, FileKind::Markdown);
    let (name, kind) = request_name_and_kind(None, Some("code"));
    assert_eq!(name, "Untitled");
    assert_eq!(kind, FileKind::Code);
    let (_, kind) = request_name_and_kind(Some("a.txt"), Some("bogus"));
    assert_eq!(kind, FileKind::Text);
    let entry = entry_from_request(Some("a.html"), None, b"<b>x</b>", None, None).unwrap();
    assert_eq!(entry.kind, FileKind::Html);
    assert!(entry.base_url.is_none());
    let big = vec![b'a'; MAX_FILE_SIZE + 1];
    assert!(matches!(entry_from_request(None, None, &big, None, None), Err(ApiError::FileTooLarge)));
}

#[test]
fn store_gives_back_what_was_written() {
    let mut store = FileStore::new();
    let first = store.create(text_entry("a.txt", "one"));
    let second = store.create(text_entry("b.txt", "two"));
    assert_eq!(first, 1);
    assert_eq!(second, 2);
    assert_eq!(store.get(first).unwrap().body, "one");
    assert_eq!(store.get(second).unwrap().body, "two");
    assert!(store.get(3).is_none());
    assert_eq!(store.update(first, text_entry("a.txt", "changed")), Ok(()));
    assert_eq!(store.get(first).unwrap().body, "changed");
    assert_eq!(store.get(second).unwrap().body, "two");
    assert_eq!(store.update(9, text_entry("z.txt", "z")), Err(ApiError::NotFound));
    assert!(store.get(9).is_none());
}

#[test]
fn errors_have_status_and_message() {
    assert_eq!(ApiError::not_found().status(), 404);
    assert_eq!(ApiError::NotFound.message(), "Viewer URL not found");
    assert_eq!(ApiError::FileTooLarge.status(), 413);
    assert_eq!(ApiError::DocumentWithoutText.status(), 415);
    assert_eq!(ApiError::RemoteDownloadFailed.status(), 502);
    assert_eq!(ApiError::UrlSchemeUnsupported.message(), "Only HTTP and HTTPS URLs are supported");
}

#[test]
fn remote_urls_are_checked() {
    assert_eq!(remote_request_url(b"  https://example.com/a.md \n").unwrap(), "https://example.com/a.md");
    assert_eq!(remote_request_url(b"http://example.com").unwrap(), "http://example.com");
    assert_eq!(remote_request_url(b"ftp://example.com/x"), Err(ApiError::UrlSchemeUnsupported));
    assert_eq!(remote_request_url(b"not a url"), Err(ApiError::UrlInvalid));
    assert_eq!(remote_request_url(&[0xff]), Err(ApiError::UrlNotUtf8));
}

#[test]
fn remote_downloads_stop_at_the_size_limit() {
    assert_eq!(check_declared_length(None), Ok(()));
    assert_eq!(check_declared_length(Some(MAX_FILE_SIZE as u64)), Ok(()));
    assert_eq!(check_declared_length(Some(MAX_FILE_SIZE as u64 + 1)), Err(ApiError::RemoteTooLarge));
    let mut download = RemoteDownload::new();
    assert_eq!(download.push_chunk(b"abc"), Ok(()));
    let big = vec![0u8; MAX_FILE_SIZE - 2];
    assert_eq!(download.push_chunk(&big), Err(ApiError::RemoteTooLarge));
    assert_eq!(download.len(), 3);
    assert_eq!(download.push_chunk(&big[..MAX_FILE_SIZE - 3]), Ok(()));
    assert_eq!(download.len(), MAX_FILE_SIZE);
    assert_eq!(&download.into_bytes()[..3], b"abc");
}

#[test]
fn remote_files_are_named_after_their_path() {
    assert_eq!(remote_file_name("/docs/readme.md"), "readme.md");
    assert_eq!(remote_file_name("/docs/"), "remote.txt");
    assert_eq!(remote_file_name("/"), "remote.txt");
    assert_eq!(remote_file_name("opaque"), "remote.txt");
    let (name, kind) = remote_name_and_kind("/x/report", "application/pdf");
    assert_eq!(name, "report");
    assert_eq!(kind, FileKind::Pdf);
    let entry = remote_entry("/p/page.html", "https://h/p/page.html".to_string(), "", b"<i>x</i>", None, None).unwrap();
    assert_eq!(entry.kind, FileKind::Html);
    assert_eq!(entry.base_url.as_deref(), Some("https://h/p/page.html"));
}

#[test]
fn certificate_files_name_their_keys() {
    assert_eq!(key_file_name("viperpad+3.pem").as_deref(), Some("viperpad+3-key.pem"));
    assert_eq!(key_file_name("a.pem.pem").as_deref(), Some("a-key.pem"));
    assert_eq!(key_file_name("viperpad+3-key.pem"), None);
    assert_eq!(key_file_name("notes.txt"), None);
}

#[test]
fn viewer_pages_wrap_the_preview() {
    let entry = text_entry("a<b>.txt", "x < y");
    assert_eq!(render_entry(&entry, 1), "<pre>x &lt; y</pre>");
    let page = preview_page(&entry, 1);
    assert!(page.starts_with("<!doctype html><html><head>"));
    assert!(page.contains("<title>a&lt;b&gt;.txt</title>"));
    assert!(page.ends_with("<body><pre>x &lt; y</pre></body></html>"));
    assert!(!page.contains("<base"));
    let remote = remote_entry("/r/n.md", "https://h/\"r\"/n.md".to_string(), "", b"# T", None, None).unwrap();
    let page = preview_page(&remote, 7);
    assert!(page.contains("<base href=\"https://h/&quot;r&quot;/n.md\">"));
    assert!(page.contains("<h1>T</h1>"));
    let doc = entry_from_bytes("d.txt".to_string(), FileKind::Document, b"a\n\nb", None, None, None).unwrap();
    assert_eq!(render_entry(&doc, 2), "<p>a</p><p>b</p>");
    assert_eq!(binary_content_type(FileKind::Pdf), "application/pdf");
    assert_eq!(binary_content_type(FileKind::Text), "application/octet-stream");
}

fn minimal_pdf(text: &str) -> Vec<u8> {
    let stream = format!("BT /F1 12 Tf 72 712 Td ({}) Tj ET", text);
    let objects = vec![
        "<< /Type /Catalog /Pages 2 0 R >>".to_string(),
        "<< /Type /Pages /Kids [3 0 R] /Count 1 >>".to_string(),
        "<< /Type /Page /Parent 2 0 R /MediaBox [0 0 612 792] /Contents 4 0 R /Resources << /Font << /F1 5 0 R >> >> >>".to_string(),
        format!("<< /Length {} >>\nstream\n{}\nendstream", stream.len(), stream),
        "<< /Type /Font /Subtype /Type1 /BaseFont /Helvetica >>".to_string(),
    ];
    let mut out = b"%PDF-1.4\n".to_vec();
    let mut offsets = Vec::new();
    for (index, object) in objects.iter().enumerate() {
        offsets.push(out.len());
        out.extend_from_slice(format!("{} 0 obj\n{}\nendobj\n", index + 1, object).as_bytes());
    }
    let xref = out.len();
    out.extend_from_slice(format!("xref\n0 {}\n0000000000 65535 f \n", objects.len() + 1).as_bytes());
    for offset in offsets {
        out.extend_from_slice(format!("{:010} 00000 n \n", offset).as_bytes());
    }
    out.extend_from_slice(
        format!("trailer\n<< /Size {} /Root 1 0 R >>\nstartxref\n{}\n%%EOF\n", objects.len() + 1, xref).as_bytes(),
    );
    out
}

#[test]
fn pdf_text_is_extracted_and_normalized() {
    let pdf = minimal_pdf("Hello PDF");
    let extracted = pdf_extract::extract_text_from_mem(&pdf).ok();
    assert_eq!(pdf_text(extracted.clone()).unwrap(), "Hello PDF");
    let entry =
        entry_from_bytes("scan.pdf".to_string(), FileKind::Pdf, &pdf, None, None, extracted).unwrap();
    assert_eq!(entry.original_bytes.as_deref(), Some(pdf.as_slice()));
    assert!(render_entry(&entry, 5).contains("<p>Hello PDF</p>"));
}

#[test]
fn docx_documents_render_and_yield_text() {
    let mut document = rdocx::Document::new();
    document.add_paragraph("First line");
    document.add_paragraph("Second line");
    let bytes = document.to_bytes().unwrap();
    let html = docx_html(&bytes).unwrap();
    assert!(html.contains("First line"));
    assert!(!html.contains("<body"));
    assert_eq!(render_document_html("docx", &bytes, None), Some(html));
    let text = document_text("docx", &bytes).unwrap();
    assert!(text.contains("First line"));
    assert!(text.contains("Second line"));
}

#[test]
fn remote_files_must_be_utf8_text() {
    assert!(is_utf8_text(b"plain"));
    assert!(!is_utf8_text(&[0xff, 0x61]));
    let refused = remote_entry("/x.doc", "https://h/x.doc".to_string(), "", &[0xff, 0x61, 0x62, 0x63, 0x64], None, None);
    assert!(matches!(refused, Err(ApiError::NotUtf8Text)));
    let accepted = remote_entry("/x.rtf", "https://h/x.rtf".to_string(), "", br"{\rtf1 Hi}", None, None).unwrap();
    assert_eq!(accepted.kind, FileKind::Document);
    assert_eq!(accepted.body, "Hi");
}

#[test]
fn reserved_ids_are_used_up_even_without_a_file() {
    let mut store = FileStore::new();
    let refused = store.reserve_id();
    let kept = store.reserve_id();
    assert_eq!((refused, kept), (1, 2));
    store.insert(kept, text_entry("k.txt", "kept"));
    assert!(store.get(refused).is_none());
    assert_eq!(store.get(kept).unwrap().body, "kept");
    assert_eq!(store.create(text_entry("n.txt", "next")), 3);
}

#[test]
fn store_answers_viewer_binary_and_raw_requests() {
    let mut store = FileStore::new();
    let text_id = store.create(text_entry("t.txt", "body"));
    let pdf = minimal_pdf("Paper");
    let extracted = pdf_extract::extract_text_from_mem(&pdf).ok();
    let pdf_id = store.create(
        entry_from_bytes("p.pdf".to_string(), FileKind::Pdf, &pdf, None, None, extracted).unwrap(),
    );
    assert!(viewer_page(&store, text_id).unwrap().contains("<pre>body</pre>"));
    assert_eq!(viewer_page(&store, 99), Err("This viewer URL is no longer available."));
    assert_eq!(binary_preview(&store, 99), Err("Viewer URL not found"));
    assert_eq!(binary_preview(&store, text_id), Err("No binary preview is available"));
    assert_eq!(binary_preview(&store, pdf_id), Ok(("application/pdf", pdf.clone())));
    assert_eq!(
        raw_file(&store, text_id),
        Ok(("t.txt".to_string(), "text", "body".to_string()))
    );
    assert_eq!(raw_file(&store, 99), Err(ApiError::NotFound));
}

#[test]
fn outside_work_follows_kind_and_text() {
    assert!(matches!(outside_work("a.pdf", FileKind::Pdf, b"x"), OutsideWork::ExtractPdfText));
    match outside_work("Letter.RTF", FileKind::Document, br"{\rtf1 Hi}") {
        OutsideWork::ConvertDocument(extension) => assert_eq!(extension, "rtf"),
        _ => panic!("a document with text is converted"),
    }
    assert!(matches!(outside_work("a.doc", FileKind::Document, b"\x00ab"), OutsideWork::Nothing));
    assert!(matches!(outside_work("a.txt", FileKind::Text, b"x"), OutsideWork::Nothing));
    assert!(matches!(upload_outside_work(Some("a.pdf"), None, b"x"), OutsideWork::ExtractPdfText));
    let big = vec![b'a'; MAX_FILE_SIZE + 1];
    assert!(matches!(upload_outside_work(Some("a.pdf"), None, &big), OutsideWork::Nothing));
    assert!(matches!(remote_outside_work("/a.pdf", "", &[0xff]), OutsideWork::Nothing));
    assert!(matches!(remote_outside_work("/a.pdf", "", b"%PDF"), OutsideWork::ExtractPdfText));
}

#[test]
fn xml_node_text_from_given_nodes() {
    let nodes = vec![
        XmlNode::Other,
        XmlNode::Element("p".to_string()),
        XmlNode::Text("a".to_string()),
        XmlNode::Element("tab".to_string()),
        XmlNode::Element("cr".to_string()),
        XmlNode::Element("p".to_string()),
        XmlNode::Element("br".to_string()),
        XmlNode::Element("other".to_string()),
        XmlNode::Text("b".to_string()),
    ];
    assert_eq!(xml_nodes_text(&nodes), "\na\t\n\nb");
    assert_eq!(xml_nodes_text(&[]), "");
}
