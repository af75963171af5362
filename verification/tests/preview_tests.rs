use viperpad::error::ApiError;
use viperpad::extract::{legacy_binary_text, lossy_utf8_text, normalize_document_text};
use viperpad::header::{header_text, hex_value, percent_decode_header};
use viperpad::html::{escape_html, extract_body_html, render_document, render_markdown, render_pdf};
use viperpad::kind::{file_extension, infer_kind, parse_file_kind, FileKind};
use viperpad::office::document_text;
use viperpad::rtf::rtf_to_text;

#[test]
fn renders_common_markdown() {
    let rendered = render_markdown("# Heading\n\n- [x] done\n\n~~old~~");
    assert!(rendered.contains("<h1>Heading</h1>"));
    assert!(rendered.contains("type=\"checkbox\""));
    assert!(rendered.contains("<del>old</del>"));
}

#[test]
fn escapes_plain_text() {
    assert_eq!(escape_html("<script>\"&"), "&lt;script&gt;&quot;&amp;");
}

#[test]
fn renders_document_paragraphs() {
    let rendered = render_document("First paragraph\ncontinued\n\n<script>");
    assert!(rendered.contains("<p>First paragraph<br>continued</p>"));
    assert!(rendered.contains("<p>&lt;script&gt;</p>"));
}

#[test]
fn extracts_basic_rtf_text() {
    let text = document_text("rtf", br"{\rtf1 Hello\par World}").unwrap();
    assert_eq!(text, "Hello\nWorld");
}

#[test]
fn decodes_percent_encoded_header_text() {
    assert_eq!(
        percent_decode_header("Meeting%20notes%20%E2%80%94%20draft.docx").as_deref(),
        Some("Meeting notes \u{2014} draft.docx")
    );
}

#[test]
fn escaping_leaves_plain_text_alone() {
    assert_eq!(escape_html("plain text 123"), "plain text 123");
    assert_eq!(escape_html(""), "");
    assert_eq!(escape_html("a > b & c"), "a &gt; b &amp; c");
}

#[test]
fn escaped_text_has_no_markup_characters() {
    let escaped = escape_html("<a href=\"x\">&</a>");
    assert!(!escaped.contains('<'));
    assert!(!escaped.contains('>'));
    assert!(!escaped.contains('"'));
}

#[test]
fn document_without_text_renders_an_empty_paragraph() {
    assert_eq!(render_document(""), "<p></p>");
    assert_eq!(render_document("  \n\n \t "), "<p></p>");
}

#[test]
fn document_paragraph_breaks_are_split_left_to_right() {
    assert_eq!(render_document("a\n\n\nb"), "<p>a</p><p>b</p>");
    assert_eq!(render_document(" one \n\ntwo\n"), "<p>one</p><p>two</p>");
}

#[test]
fn pdf_preview_links_the_binary_and_falls_back_to_text() {
    assert_eq!(
        render_pdf(42, "Hi"),
        "<div class=\"pdf-preview\"><object data=\"/api/files/42/binary\" type=\"application/pdf\"><div class=\"pdf-fallback\"><p>Hi</p></div></object></div>"
    );
    assert!(render_pdf(0, "").contains("/api/files/0/binary"));
    assert!(render_pdf(18446744073709551615, "").contains("/api/files/18446744073709551615/binary"));
}

#[test]
fn body_is_taken_from_converted_html() {
    assert_eq!(
        extract_body_html("<html><BODY class=\"x\">\n <p>Hi</p> \n</Body></html>"),
        "<p>Hi</p>"
    );
    assert_eq!(extract_body_html("<p>no body</p>"), "<p>no body</p>");
    assert_eq!(extract_body_html("<body>open ended "), "open ended");
    assert_eq!(extract_body_html("<body"), "<body");
}

#[test]
fn kind_names_round_trip() {
    let kinds = [
        FileKind::Markdown,
        FileKind::Html,
        FileKind::Text,
        FileKind::Document,
        FileKind::Pdf,
        FileKind::Code,
    ];
    for kind in kinds {
        assert_eq!(parse_file_kind(kind.as_str()), Some(kind));
    }
    assert_eq!(FileKind::Document.as_str(), "document");
    assert_eq!(parse_file_kind("Markdown"), None);
    assert_eq!(parse_file_kind(""), None);
}

#[test]
fn file_extensions_follow_path_rules() {
    assert_eq!(file_extension("notes.MD"), "md");
    assert_eq!(file_extension("dir/archive.tar.GZ"), "gz");
    assert_eq!(file_extension(".bashrc"), "");
    assert_eq!(file_extension(".config.toml"), "toml");
    assert_eq!(file_extension("README"), "");
    assert_eq!(file_extension("a/b.txt/"), "txt");
    assert_eq!(file_extension("a/b.txt/."), "txt");
    assert_eq!(file_extension("a/.."), "");
    assert_eq!(file_extension("name."), "");
    assert_eq!(file_extension(""), "");
}

#[test]
fn kinds_are_inferred_from_extension_then_content_type() {
    assert_eq!(infer_kind("a.md", "application/pdf"), FileKind::Markdown);
    assert_eq!(infer_kind("a.HTM", ""), FileKind::Html);
    assert_eq!(infer_kind("a.pdf", ""), FileKind::Pdf);
    assert_eq!(infer_kind("a.odt", ""), FileKind::Document);
    assert_eq!(infer_kind("a.csv", ""), FileKind::Text);
    assert_eq!(infer_kind("a.rs", ""), FileKind::Code);
    assert_eq!(infer_kind("remote", "application/pdf; q=1"), FileKind::Pdf);
    assert_eq!(
        infer_kind("x", "application/vnd.openxmlformats-officedocument.wordprocessingml.document"),
        FileKind::Document
    );
    assert_eq!(infer_kind("x", "application/msword"), FileKind::Document);
    assert_eq!(infer_kind("x", "text/rtf"), FileKind::Document);
    assert_eq!(infer_kind("x", "text/html; charset=utf-8"), FileKind::Html);
    assert_eq!(infer_kind("x", "text/markdown"), FileKind::Markdown);
    assert_eq!(infer_kind("x", "text/plain"), FileKind::Text);
    assert_eq!(infer_kind("x", "charset=x; text/plain"), FileKind::Code);
}

#[test]
fn hex_digits_have_their_values() {
    assert_eq!(hex_value(b'0'), Some(0));
    assert_eq!(hex_value(b'9'), Some(9));
    assert_eq!(hex_value(b'a'), Some(10));
    assert_eq!(hex_value(b'F'), Some(15));
    assert_eq!(hex_value(b'g'), None);
    assert_eq!(hex_value(b'%'), None);
}

#[test]
fn malformed_percent_escapes_are_refused() {
    assert_eq!(percent_decode_header("100%"), None);
    assert_eq!(percent_decode_header("%4"), None);
    assert_eq!(percent_decode_header("%zz"), None);
    assert_eq!(percent_decode_header("%FF"), None);
    assert_eq!(percent_decode_header("plain name.txt").as_deref(), Some("plain name.txt"));
    assert_eq!(header_text("100%"), "100%");
    assert_eq!(header_text("a%2Fb"), "a/b");
}

#[test]
fn rtf_control_words_and_symbols() {
    assert_eq!(rtf_to_text(br"{\b bold}\line x"), "bold\nx");
    assert_eq!(rtf_to_text(br"a\{b\}c"), "a{b}c");
    assert_eq!(rtf_to_text(b"a\r\nb"), "a\nb");
    assert_eq!(rtf_to_text(br"\fs-20 text"), "text");
    assert_eq!(rtf_to_text(br"end\"), "end");
    assert_eq!(rtf_to_text(b"plain"), "plain");
}

#[test]
fn legacy_binary_text_keeps_long_runs() {
    assert_eq!(legacy_binary_text(b"\x00\x01Hello\x00ab\x00World!"), "Hello\nWorld!");
    assert_eq!(legacy_binary_text(b"abc"), "");
    assert_eq!(legacy_binary_text(b"abcd\x00"), "abcd\n");
}

#[test]
fn lossy_text_replaces_invalid_bytes() {
    assert_eq!(lossy_utf8_text(b"ok"), "ok");
    assert_eq!(lossy_utf8_text(b"a\xffb"), "a\u{fffd}b");
}

#[test]
fn normalization_trims_lines_and_the_whole() {
    assert_eq!(normalize_document_text("  a  \r\n b\t\n\n"), "a\n b");
    assert_eq!(normalize_document_text("\n\n x \n"), "x");
    assert_eq!(normalize_document_text(" \u{3000} "), "");
}

#[test]
fn documents_without_text_are_refused() {
    assert_eq!(document_text("txt", b"   \n "), Err(ApiError::DocumentWithoutText));
    assert_eq!(document_text("doc", b"\x00ab\x00"), Err(ApiError::DocumentWithoutText));
    assert_eq!(document_text("md", b" notes "), Ok("notes".to_string()));
}

#[test]
fn percent_encoding_round_trips() {
    let text = "Report 100% — final.docx";
    let mut encoded = String::new();
    for (index, byte) in text.bytes().enumerate() {
        if byte == b'%' || byte >= 0x80 || (byte == b' ' && index % 2 == 0) {
            if index % 3 == 0 {
                encoded.push_str(&format!("%{:02X}", byte));
            } else {
                encoded.push_str(&format!("%{:02x}", byte));
            }
        } else {
            encoded.push(byte as char);
        }
    }
    assert_eq!(percent_decode_header(&encoded).as_deref(), Some(text));
    assert_eq!(header_text(&encoded), text);
}

#[test]
fn rtf_without_backslashes_drops_only_braces_and_returns() {
    assert_eq!(rtf_to_text(b"{a}\r\nb{{c}}"), "a\nbc");
    assert_eq!(rtf_to_text(b"x\xffy{z}"), "x\u{fffd}yz");
}
