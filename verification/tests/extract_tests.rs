//! Extraction back-ends over bytes, summaries, and the markdown renderer.

use cortex::extract::{ContentExtractor, ExtractedContent, PdfExtractor, TextExtractor};
use cortex::markdown::{markdown_to_text, MarkdownExtractor};
use cortex::stem::porter_stem;

#[test]
fn test_extracted_content_word_count() {
    let content = ExtractedContent::new("Hello world this is a test".to_string());
    assert_eq!(content.word_count, 6);
}

#[test]
fn test_summary_generation() {
    let short = ExtractedContent::new("Short text".to_string());
    assert_eq!(short.summary, Some("Short text".to_string()));

    let long = ExtractedContent::new("a".repeat(250));
    assert!(long.summary.clone().unwrap().ends_with("..."));
    assert!(long.summary.unwrap().len() <= 203);
}

#[test]
fn test_with_warning() {
    let content = ExtractedContent::new("test".to_string())
        .with_warning("Encoding issue".to_string());

    assert_eq!(content.warnings.len(), 1);
    assert_eq!(content.warnings[0], "Encoding issue");
}

#[test]
fn test_extract_utf8_text() {
    let result = TextExtractor::extract_bytes(b"Hello, world!\nThis is a test.");
    assert_eq!(result.text, "Hello, world!\nThis is a test.");
    assert_eq!(result.word_count, 6);
    assert!(result.summary.is_some());
    assert!(result.warnings.is_empty());
}

#[test]
fn test_extract_multiline() {
    let result = TextExtractor::extract_bytes(b"Line 1\nLine 2\nLine 3");
    assert_eq!(result.text, "Line 1\nLine 2\nLine 3");
    assert_eq!(result.word_count, 6);
}

#[test]
fn test_extract_empty_file() {
    let result = TextExtractor::extract_bytes(b"");
    assert_eq!(result.text, "");
    assert_eq!(result.word_count, 0);
    assert_eq!(result.summary, None);
}

#[test]
fn test_encoding_detection() {
    let result = TextExtractor::extract_bytes(b"Hello");
    assert_eq!(result.text, "Hello");
    assert!(result.warnings.is_empty());

    let utf8_bom = b"\xEF\xBB\xBFHello";
    let result = TextExtractor::extract_bytes(utf8_bom);
    assert_eq!(result.text, "Hello");
}

#[test]
fn test_encoding_utf16_fallback() {
    // One accented letter in UTF-16LE behind its byte-order mark: the bytes
    // past the mark are not valid UTF-8, so the best-effort decoder runs in
    // the mark's encoding; the decode is clean, so no warning is recorded.
    let bytes: &[u8] = &[0xFF, 0xFE, 0xE9, 0x00];
    let result = TextExtractor::extract_bytes(bytes);
    assert_eq!(result.text, "\u{e9}");
    assert!(result.warnings.is_empty());
}

#[test]
fn test_encoding_utf16_replacement_warns() {
    // A lone trailing byte behind the UTF-16LE mark cannot decode; the
    // warning names the encoding.
    let bytes: &[u8] = &[0xFF, 0xFE, 0xE9, 0x00, 0xE9];
    let result = TextExtractor::extract_bytes(bytes);
    assert_eq!(result.warnings.len(), 1);
    assert!(result.warnings[0].contains("UTF-16LE"));
}

#[test]
fn test_encoding_invalid_utf8_warns() {
    let bytes: &[u8] = &[0x66, 0x6F, 0x6F, 0xFF, 0xFE, 0x62];
    let result = TextExtractor::extract_bytes(bytes);
    assert_eq!(result.warnings.len(), 1);
    assert!(result.warnings[0].contains("UTF-8"));
    assert!(result.text.starts_with("foo"));
}

#[test]
fn test_clean_pdf_text() {
    let messy = "  Line 1  \n\n  Line 2  \n   \n  Line 3  ";
    let cleaned = PdfExtractor::clean_pdf_text(messy);
    assert_eq!(cleaned, "Line 1\nLine 2\nLine 3");
}

#[test]
fn test_clean_pdf_text_empty_lines() {
    let text = "Content\n\n\n\nMore content";
    let cleaned = PdfExtractor::clean_pdf_text(text);
    assert_eq!(cleaned, "Content\nMore content");
}

#[test]
fn test_extract_invalid_pdf_bytes() {
    // The page extraction fails in the shell; the library turns the failure
    // into an extraction error for the path.
    let page_text = pdf_extract::extract_text_from_mem(b"this is no pdf").map_err(|e| e.to_string());
    assert!(page_text.is_err());
    let result = PdfExtractor::from_page_text("/tmp/not-a-real.pdf", page_text);
    assert!(matches!(
        result,
        Err(cortex::error::CortexError::ExtractionFailed { .. })
    ));
}

#[test]
fn test_extract_simple_markdown() {
    let result = MarkdownExtractor::extract_bytes("/tmp/simple.md", b"# Hello\n\nThis is a **test**.").unwrap();
    assert!(result.text.contains("Hello"));
    assert!(result.text.contains("test"));
    assert!(!result.text.contains("**"));
    assert!(result.word_count > 0);
}

#[test]
fn test_extract_empty_markdown() {
    let result = MarkdownExtractor::extract_bytes("/tmp/empty.md", b"").unwrap();
    assert_eq!(result.text, "");
    assert_eq!(result.word_count, 0);
}

#[test]
fn test_markdown_to_text_heading() {
    let markdown = "# Heading 1\n## Heading 2\n### Heading 3";
    let text = markdown_to_text(markdown);

    assert!(text.contains("Heading 1"));
    assert!(text.contains("Heading 2"));
    assert!(text.contains("Heading 3"));
    assert!(!text.contains("#"));
}

#[test]
fn test_markdown_to_text_lists() {
    let markdown = "- Item 1\n- Item 2\n- Item 3";
    let text = markdown_to_text(markdown);

    assert!(text.contains("\u{2022}"));
    assert!(text.contains("Item 1"));
    assert!(text.contains("Item 2"));
    assert!(text.contains("Item 3"));
}

#[test]
fn test_markdown_to_text_code_block() {
    let markdown = "```rust\nfn main() {\n    println(\"Hello\");\n}\n```";
    let text = markdown_to_text(markdown);

    assert!(text.contains("fn main"));
    assert!(text.contains("println"));
    assert!(!text.contains("```"));
}

#[test]
fn test_markdown_to_text_inline_code() {
    let markdown = "Use `cargo build` to compile.";
    let text = markdown_to_text(markdown);

    assert!(text.contains("cargo build"));
    assert!(!text.contains("`"));
}

#[test]
fn test_markdown_to_text_links() {
    let markdown = "Check [this link](https://example.com) for more.";
    let text = markdown_to_text(markdown);

    assert!(text.contains("this link"));
    assert!(!text.contains("https://example.com"));
}

#[test]
fn test_markdown_preserves_paragraph_structure() {
    let markdown = "First paragraph.\n\nSecond paragraph.";
    let text = markdown_to_text(markdown);

    assert!(text.lines().count() >= 2);
}

#[test]
fn test_markdown_soft_break_becomes_space() {
    let markdown = "first line\nsecond line";
    let text = markdown_to_text(markdown);
    assert_eq!(text, "first line second line");
}

#[test]
fn test_dispatch_unknown_extension_uses_text() {
    let result = ContentExtractor::extract_bytes("/tmp/file.xyz", b"plain words here", None, None).unwrap();
    assert_eq!(result.text, "plain words here");
    assert_eq!(result.word_count, 3);
}

#[test]
fn test_dispatch_markdown() {
    let result = ContentExtractor::extract_bytes("/tmp/notes.md", b"# Title\n\nBody", None, None).unwrap();
    assert!(result.text.contains("Title"));
    assert!(!result.text.contains("#"));
}

#[test]
fn test_dispatch_invalid_markdown_bytes() {
    let result = ContentExtractor::extract_bytes("/tmp/broken.md", &[0xFF, 0xFE, 0x00], None, None);
    assert!(matches!(
        result,
        Err(cortex::error::CortexError::ExtractionFailed { .. })
    ));
}

#[test]
fn test_markdown_hard_break_becomes_newline() {
    // Two trailing spaces ask for a hard break; the lines stay in one
    // paragraph but split with a newline.
    let markdown = "first line  \nsecond line";
    let text = markdown_to_text(markdown);
    assert_eq!(text, "first line\nsecond line");
}

#[test]
fn test_markdown_ordered_list() {
    let markdown = "1. First\n2. Second\n10) Tenth";
    let text = markdown_to_text(markdown);
    assert_eq!(
        text,
        "\u{2022} First\n\u{2022} Second\n\u{2022} Tenth"
    );
}

#[test]
fn test_markdown_underscore_emphasis() {
    let markdown = "some _emphasis_ kept as snake_case words";
    let text = markdown_to_text(markdown);
    assert_eq!(text, "some emphasis kept as snake_case words");
}

#[test]
fn test_porter_stemmer_forms() {
    assert_eq!(porter_stem("caresses"), "caress");
    assert_eq!(porter_stem("ponies"), "poni");
    assert_eq!(porter_stem("cats"), "cat");
    assert_eq!(porter_stem("feed"), "feed");
    assert_eq!(porter_stem("agreed"), "agre");
    assert_eq!(porter_stem("plastered"), "plaster");
    assert_eq!(porter_stem("motoring"), "motor");
    assert_eq!(porter_stem("conflated"), "conflat");
    assert_eq!(porter_stem("hopping"), "hop");
    assert_eq!(porter_stem("falling"), "fall");
    assert_eq!(porter_stem("filing"), "file");
    assert_eq!(porter_stem("happy"), "happi");
    assert_eq!(porter_stem("relational"), "relat");
    assert_eq!(porter_stem("rational"), "ration");
    assert_eq!(porter_stem("callousness"), "callous");
    assert_eq!(porter_stem("hopeful"), "hope");
    assert_eq!(porter_stem("formative"), "form");
    assert_eq!(porter_stem("adjustment"), "adjust");
    assert_eq!(porter_stem("probate"), "probat");
    assert_eq!(porter_stem("controll"), "control");
    assert_eq!(porter_stem("run"), "run");
}
