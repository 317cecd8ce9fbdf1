use resume_manager::extract::{
    cleanup_text, document_kind, extract_docx_text, extract_pdf_text, extraction_route, ExtractionRoute,
    extract_text_from_document_xml, text_from_xml_events, DocumentKind, ExtractError, XmlEvent,
};
use std::io::Write;

fn docx_with(entries: &[(&str, &str)]) -> Vec<u8> {
    let mut w = zip::ZipWriter::new(std::io::Cursor::new(Vec::new()));
    for (name, body) in entries {
        w.start_file(*name, zip::write::FileOptions::default()).unwrap();
        w.write_all(body.as_bytes()).unwrap();
    }
    w.finish().unwrap().into_inner()
}

const DOC_XML: &str = "<w:document><w:body><w:p><w:r><w:t>Hello</w:t></w:r><w:r><w:t xml:space=\"preserve\"> World</w:t></w:r></w:p><w:p><w:r><w:t>Line2 &amp; more</w:t></w:r></w:p></w:body></w:document>";

#[test]
fn cleanup_normalizes_lines() {
    assert_eq!(cleanup_text("  a \r\nb\u{A0}\n\n c  \n"), "a\nb\n\n c");
    assert_eq!(cleanup_text(""), "");
    assert_eq!(cleanup_text(" \n \r\n "), "");
    assert_eq!(cleanup_text("x\u{A0}\u{A0}y"), "x  y");
}

#[test]
fn cleaned_text_is_trimmed_law_example() {
    let once = cleanup_text("\u{A0} 简历 \r\n 内容 \n");
    assert_eq!(once, "简历\n 内容");
    assert_eq!(once.trim(), once);
}

#[test]
fn document_xml_text_runs() {
    assert_eq!(extract_text_from_document_xml(DOC_XML), "HelloWorld\nLine2 & more");
}

#[test]
fn document_xml_ignores_text_outside_runs() {
    let xml = "<w:body><w:p><w:r>loose<w:t>kept</w:t></w:r></w:p></w:body>";
    assert_eq!(extract_text_from_document_xml(xml), "kept");
}

#[test]
fn events_paragraph_breaks() {
    let events = vec![
        XmlEvent::Start(b"w:p".to_vec()),
        XmlEvent::Start(b"w:t".to_vec()),
        XmlEvent::Text(Some("one".to_string())),
        XmlEvent::End(b"w:t".to_vec()),
        XmlEvent::Text(Some("outside".to_string())),
        XmlEvent::Start(b"w:p".to_vec()),
        XmlEvent::Start(b"w:p".to_vec()),
        XmlEvent::Start(b"w:t".to_vec()),
        XmlEvent::Text(None),
        XmlEvent::Text(Some("two".to_string())),
        XmlEvent::Other,
    ];
    assert_eq!(text_from_xml_events(&events), "one\ntwo");
}

#[test]
fn kinds_by_extension() {
    assert!(matches!(document_kind("PDF"), DocumentKind::Pdf));
    assert!(matches!(document_kind("Docx"), DocumentKind::Docx));
    assert!(matches!(document_kind("doc"), DocumentKind::LegacyDoc));
    assert!(matches!(document_kind("JPEG"), DocumentKind::Image));
    assert!(matches!(document_kind("webp"), DocumentKind::Image));
    assert!(matches!(document_kind("txt"), DocumentKind::Unsupported));
    assert!(matches!(document_kind(""), DocumentKind::Unsupported));
}

#[test]
fn docx_bytes_extracted() {
    let bytes = docx_with(&[("word/document.xml", DOC_XML)]);
    let text = extract_docx_text(&bytes).ok().unwrap();
    assert_eq!(text, "HelloWorld\nLine2 & more");
    assert!(matches!(extraction_route("DOCX"), ExtractionRoute::ReadDocx));
}

#[test]
fn docx_without_document_xml() {
    let bytes = docx_with(&[("word/other.xml", "<a/>")]);
    let e = extract_docx_text(&bytes).err().unwrap();
    assert!(matches!(e, ExtractError::MissingDocumentXml));
    assert_eq!(e.message(), "DOCX 缺少 word/document.xml");
}

#[test]
fn docx_not_an_archive() {
    let e = extract_docx_text(b"plain text").err().unwrap();
    assert!(matches!(e, ExtractError::DocxUnreadable(_)));
    assert!(e.message().starts_with("DOCX 读取失败："));
}

#[test]
fn pdf_garbage_fails() {
    let reading = pdf_extract::extract_text_from_mem(b"not a pdf at all").map_err(|e| e.to_string());
    let e = extract_pdf_text(reading).err().unwrap();
    assert!(matches!(e, ExtractError::PdfFailed(_)));
    assert!(e.message().starts_with("PDF 文本抽取失败："));
}

#[test]
fn refused_kinds_messages() {
    let refused = |ext: &str| match extraction_route(ext) {
        ExtractionRoute::Refused(e) => e.message(),
        _ => panic!("expected a refusal"),
    };
    assert_eq!(refused("doc"), "暂不直接支持 .doc（老 Word）。建议用 Word 另存为 .docx 后再导入。");
    assert_eq!(refused("PNG"), "图片/扫描件 OCR 尚未启用。当前版本请先将图片内容转为文本或 PDF 文本版后再导入。");
    assert_eq!(refused("rtf"), "不支持的文件类型");
    assert!(matches!(extraction_route("Pdf"), ExtractionRoute::ReadPdf));
}

fn minimal_pdf(text: &str) -> Vec<u8> {
    let stream = format!("BT /F1 12 Tf 20 100 Td ({}) Tj ET", text);
    let objects = [
        "<< /Type /Catalog /Pages 2 0 R >>".to_string(),
        "<< /Type /Pages /Kids [3 0 R] /Count 1 >>".to_string(),
        "<< /Type /Page /Parent 2 0 R /MediaBox [0 0 300 200] /Contents 4 0 R /Resources << /Font << /F1 5 0 R >> >> >>"
            .to_string(),
        format!("<< /Length {} >>\nstream\n{}\nendstream", stream.len(), stream),
        "<< /Type /Font /Subtype /Type1 /BaseFont /Helvetica /Encoding /WinAnsiEncoding >>".to_string(),
    ];
    let mut out = b"%PDF-1.4\n".to_vec();
    let mut offsets = Vec::new();
    for (i, body) in objects.iter().enumerate() {
        offsets.push(out.len());
        out.extend_from_slice(format!("{} 0 obj\n{}\nendobj\n", i + 1, body).as_bytes());
    }
    let xref = out.len();
    out.extend_from_slice(format!("xref\n0 {}\n0000000000 65535 f \n", objects.len() + 1).as_bytes());
    for o in offsets {
        out.extend_from_slice(format!("{:010} 00000 n \n", o).as_bytes());
    }
    out.extend_from_slice(
        format!("trailer\n<< /Size {} /Root 1 0 R >>\nstartxref\n{}\n%%EOF\n", objects.len() + 1, xref).as_bytes(),
    );
    out
}

#[test]
fn pdf_text_extracted_and_cleaned() {
    let reading = pdf_extract::extract_text_from_mem(&minimal_pdf("Hello Resume")).map_err(|e| e.to_string());
    assert_eq!(extract_pdf_text(reading).ok().unwrap(), "Hello Resume");
    assert_eq!(extract_pdf_text(Ok("\n  Zhang San \r\n\n".to_string())).ok().unwrap(), "Zhang San");
}
