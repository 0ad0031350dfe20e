//! The trusted boundary, exercised through public functions against the
//! real outside crates: DOCX parsing and byte decoding.

use cortex::extract::DocxExtractor;

/// Flattens a parsed DOCX document part to its paragraphs' run text, the
/// way the process shell does before handing the list to the library.
fn paragraphs_of(docx: docx_rs::Docx) -> Vec<String> {
    let mut out: Vec<String> = Vec::new();
    for child in docx.document.children {
        if let docx_rs::DocumentChild::Paragraph(para) = child {
            let mut s = String::new();
            for pc in para.children {
                if let docx_rs::ParagraphChild::Run(run) = pc {
                    for rc in run.children {
                        if let docx_rs::RunChild::Text(t) = rc {
                            s.push_str(&t.text);
                        }
                    }
                }
            }
            out.push(s);
        }
    }
    out
}

#[test]
fn test_docx_roundtrip() {
    // Build a real DOCX archive, parse it back, and build the record from
    // its paragraphs.
    let mut bytes: Vec<u8> = Vec::new();
    {
        let cursor = std::io::Cursor::new(&mut bytes);
        let doc = docx_rs::Docx::new()
            .add_paragraph(
                docx_rs::Paragraph::new()
                    .add_run(docx_rs::Run::new().add_text("Hello from a document")),
            )
            .add_paragraph(
                docx_rs::Paragraph::new().add_run(docx_rs::Run::new().add_text("Second paragraph")),
            );
        doc.build().pack(cursor).unwrap();
    }
    let parsed = docx_rs::read_docx(&bytes)
        .map(paragraphs_of)
        .map_err(|e| format!("{:?}", e));
    let result = DocxExtractor::from_paragraphs("/tmp/generated.docx", parsed).unwrap();
    assert!(result.text.contains("Hello from a document"));
    assert!(result.text.contains("Second paragraph"));
    assert!(result.word_count >= 6);
}

#[test]
fn test_extract_docx_invalid_bytes() {
    // The parse fails in the shell; the library turns the failure into an
    // extraction error for the path.
    let parsed = docx_rs::read_docx(b"not a zip archive")
        .map(paragraphs_of)
        .map_err(|e| format!("{:?}", e));
    assert!(parsed.is_err());
    let result = DocxExtractor::from_paragraphs("/nonexistent/file.docx", parsed);
    assert!(result.is_err());
}

/// Builds a complete single-page PDF with exact cross-reference offsets.
fn minimal_pdf(text: &str) -> Vec<u8> {
    let header = "%PDF-1.4\n";
    let obj1 = "1 0 obj\n<< /Type /Catalog /Pages 2 0 R >>\nendobj\n";
    let obj2 = "2 0 obj\n<< /Type /Pages /Kids [3 0 R] /Count 1 >>\nendobj\n";
    let obj3 = "3 0 obj\n<< /Type /Page /Parent 2 0 R /MediaBox [0 0 612 792] /Contents 4 0 R /Resources << /Font << /F1 5 0 R >> >> >>\nendobj\n";
    let stream = format!("BT /F1 24 Tf 72 720 Td ({}) Tj ET", text);
    let obj4 = format!(
        "4 0 obj\n<< /Length {} >>\nstream\n{}\nendstream\nendobj\n",
        stream.len(),
        stream
    );
    let obj5 = "5 0 obj\n<< /Type /Font /Subtype /Type1 /BaseFont /Helvetica >>\nendobj\n";

    let mut offsets = Vec::new();
    let mut body = String::new();
    body.push_str(header);
    for part in [obj1, obj2, obj3, obj4.as_str(), obj5] {
        offsets.push(body.len());
        body.push_str(part);
    }
    let xref_at = body.len();
    body.push_str("xref\n0 6\n0000000000 65535 f \n");
    for off in &offsets {
        body.push_str(&format!("{:010} 00000 n \n", off));
    }
    body.push_str(&format!(
        "trailer\n<< /Size 6 /Root 1 0 R >>\nstartxref\n{}\n%%EOF\n",
        xref_at
    ));
    body.into_bytes()
}

#[test]
fn test_pdf_text_extraction() {
    let bytes = minimal_pdf("Hello PDF text");
    let page_text = pdf_extract::extract_text_from_mem(&bytes).map_err(|e| e.to_string());
    let result = cortex::extract::PdfExtractor::from_page_text("/tmp/mini.pdf", page_text);
    match result {
        Ok(content) => {
            assert!(content.text.contains("Hello PDF text"));
        }
        Err(e) => panic!("extraction failed: {:?}", e),
    }
}
