use zuxi::document::{
    cache_key_text, document_entry, fallback_title, is_visible_entry, kind_for_extension,
    markdown_preview, order_rendered_pages, page_count_from_info, page_number, pdf_page_notice,
    pdf_preview, pdf_render_next, pdf_render_start, sort_documents, DocumentEntry, DocumentKind,
    DocumentPreview, PageFile, PdfPage, PdfPreview, PdfRenderAction, PdfRenderError,
    PdfRenderEvent, PdfRenderState, MAX_PDF_PAGES,
};
use zuxi::document::kind_for_lower_extension;
use zuxi::markdown::{MarkdownBlock, MarkdownBlockKind};
use zuxi::sort::stable_sort_by_keys;
use zuxi::text::{decimal_text, hex16, trimmed};

fn entry(relative_path: &str, title: &str) -> DocumentEntry {
    DocumentEntry {
        path: format!("/docs/{relative_path}"),
        relative_path: relative_path.to_owned(),
        name: relative_path.rsplit('/').next().unwrap().to_owned(),
        title: title.to_owned(),
        kind: DocumentKind::Markdown,
    }
}

#[test]
fn labels_name_the_kind() {
    assert_eq!(DocumentKind::Markdown.label(), "MD");
    assert_eq!(DocumentKind::Pdf.label(), "PDF");
}

#[test]
fn extensions_decide_the_kind_in_any_case() {
    assert_eq!(kind_for_extension("md"), Some(DocumentKind::Markdown));
    assert_eq!(kind_for_extension("MarkDown"), Some(DocumentKind::Markdown));
    assert_eq!(kind_for_extension("PDF"), Some(DocumentKind::Pdf));
    assert_eq!(kind_for_extension("txt"), None);
    assert_eq!(kind_for_extension(""), None);
    assert_eq!(kind_for_extension("mdx"), None);
}

#[test]
fn titles_come_from_the_first_heading_or_the_file_stem() {
    assert_eq!(fallback_title("release_notes-2024"), "release notes 2024");
    let readme = document_entry(
        "/d/readme.md".to_owned(),
        "readme.md".to_owned(),
        "readme.md".to_owned(),
        "readme",
        DocumentKind::Markdown,
        Some("# Read me"),
    );
    assert_eq!(readme.title, "Read me");
    assert_eq!(readme.relative_path, "readme.md");
    let untitled = document_entry(
        "/d/my_notes.md".to_owned(),
        "my_notes.md".to_owned(),
        "my_notes.md".to_owned(),
        "my_notes",
        DocumentKind::Markdown,
        Some("## Only a section"),
    );
    assert_eq!(untitled.title, "my notes");
    let unreadable = document_entry(
        "/d/a-b.md".to_owned(),
        "a-b.md".to_owned(),
        "a-b.md".to_owned(),
        "a-b",
        DocumentKind::Markdown,
        None,
    );
    assert_eq!(unreadable.title, "a b");
    let paper = document_entry(
        "/d/paper.PDF".to_owned(),
        "paper.PDF".to_owned(),
        "paper.PDF".to_owned(),
        "paper",
        DocumentKind::Pdf,
        Some("# Not read"),
    );
    assert_eq!(paper.title, "paper");
    assert_eq!(paper.kind, DocumentKind::Pdf);
}

#[test]
fn build_and_hidden_folders_are_skipped() {
    assert!(is_visible_entry(0, true, ".hidden-root"));
    assert!(is_visible_entry(1, false, ".hidden-file.md"));
    assert!(!is_visible_entry(1, true, "target"));
    assert!(!is_visible_entry(2, true, ".git"));
    assert!(!is_visible_entry(3, true, ".cache"));
    assert!(is_visible_entry(1, true, "notes"));
    assert!(is_visible_entry(1, true, "Target"));
}

#[test]
fn documents_are_sorted_by_lower_case_path_and_stably() {
    let sorted = sort_documents(vec![
        entry("b.md", "first b"),
        entry("A.md", "a"),
        entry("B.md", "second b"),
        entry("sub/c.md", "c"),
        entry("a.md", "another a"),
    ]);
    let order: Vec<&str> = sorted.iter().map(|e| e.title.as_str()).collect();
    assert_eq!(order, vec!["a", "another a", "first b", "second b", "c"]);
    assert!(sort_documents(Vec::new()).is_empty());
}

#[test]
fn page_numbers_come_from_the_stem() {
    assert_eq!(page_number(Some("page-03")), 3);
    assert_eq!(page_number(Some("page-1-12")), 12);
    assert_eq!(page_number(Some("17")), 17);
    assert_eq!(page_number(Some("page-+7")), 7);
    assert_eq!(page_number(Some("page-")), usize::MAX);
    assert_eq!(page_number(Some("page")), usize::MAX);
    assert_eq!(page_number(Some("page--4")), 4);
    assert_eq!(page_number(Some("page-4x")), usize::MAX);
    assert_eq!(page_number(Some("page-99999999999999999999999")), usize::MAX);
    assert_eq!(page_number(None), usize::MAX);
}

fn page_file(path: &str, extension: Option<&str>, stem: Option<&str>) -> PageFile {
    PageFile {
        path: path.to_owned(),
        extension: extension.map(str::to_owned),
        stem: stem.map(str::to_owned),
    }
}

#[test]
fn rendered_pages_are_png_files_in_page_order() {
    let pages = order_rendered_pages(vec![
        page_file("c/page-10.png", Some("png"), Some("page-10")),
        page_file("c/page-02.png", Some("png"), Some("page-02")),
        page_file("c/notes.txt", Some("txt"), Some("notes")),
        page_file("c/page-01.PNG", Some("PNG"), Some("page-01")),
        page_file("c/odd.png", Some("png"), Some("odd")),
        page_file("c/page-1.png", Some("png"), Some("page-1")),
        page_file("c/README", None, Some("README")),
    ]);
    assert_eq!(pages, vec!["c/page-1.png", "c/page-02.png", "c/page-10.png", "c/odd.png"]);
}

#[test]
fn page_counts_come_from_the_pages_line() {
    assert_eq!(page_count_from_info("Title: x\nPages:          12\nEncrypted: no\n"), Some(12));
    assert_eq!(page_count_from_info("Pages: 3\r\n"), Some(3));
    assert_eq!(page_count_from_info("Producer: y\nPages:7"), Some(7));
    assert_eq!(page_count_from_info("Pages: many\nPages: 3\n"), None);
    assert_eq!(page_count_from_info("Title: Pages: 4\n"), None);
    assert_eq!(page_count_from_info(" Pages: 4\n"), None);
    assert_eq!(page_count_from_info(""), None);
}

#[test]
fn cache_keys_are_sixteen_hex_digits() {
    assert_eq!(cache_key_text(0xab), "00000000000000ab");
    assert_eq!(cache_key_text(u64::MAX), "ffffffffffffffff");
    assert_eq!(cache_key_text(0x0123_4567_89ab_cdef), "0123456789abcdef");
    assert_eq!(hex16(0), "0000000000000000");
}

#[test]
fn text_helpers_trim_and_count() {
    assert_eq!(trimmed(" \t\u{a0}middle  text\u{3000}\n"), "middle  text");
    assert_eq!(trimmed("   "), "");
    assert_eq!(decimal_text(0), "0");
    assert_eq!(decimal_text(4096), "4096");
    assert_eq!(decimal_text(usize::MAX), usize::MAX.to_string());
}

#[test]
fn previews_report_what_went_wrong() {
    match markdown_preview("notes/a.md", Ok("# Read me\n\nbody".to_owned())) {
        DocumentPreview::Markdown(blocks) => {
            assert_eq!(
                blocks,
                vec![
                    MarkdownBlock { kind: MarkdownBlockKind::Heading(1), text: "Read me".into() },
                    MarkdownBlock { kind: MarkdownBlockKind::Paragraph, text: "body".into() },
                ]
            );
        }
        preview => panic!("expected Markdown preview, got {preview:?}"),
    }
    assert_eq!(
        markdown_preview("notes/a.md", Err("permission denied".to_owned())),
        DocumentPreview::Error("Could not read notes/a.md: permission denied".to_owned())
    );
    assert_eq!(
        pdf_preview("p.pdf", Err(PdfRenderError::NotFound)),
        DocumentPreview::Error(
            "PDF rendering requires Poppler. Install it with `brew install poppler`, then restart Zuxi."
                .to_owned()
        )
    );
    assert_eq!(
        pdf_preview("p.pdf", Err(PdfRenderError::Failed("bad file".to_owned()))),
        DocumentPreview::Error("Could not render p.pdf: bad file".to_owned())
    );
    let preview = PdfPreview {
        pages: vec![PdfPage { path: "c/page-1.png".into(), size: Some((600, 800)) }],
        total_pages: Some(1),
    };
    assert_eq!(pdf_preview("p.pdf", Ok(preview.clone())), DocumentPreview::Pdf(preview));
}

#[test]
fn notices_mention_hidden_pages() {
    assert_eq!(
        pdf_page_notice(MAX_PDF_PAGES, Some(30)),
        Some("Showing the first 24 of 30 pages.".to_owned())
    );
    assert_eq!(pdf_page_notice(24, Some(24)), None);
    assert_eq!(pdf_page_notice(3, Some(2)), None);
    assert_eq!(pdf_page_notice(3, None), None);
}

#[test]
fn rendering_runs_the_renderer_only_for_an_empty_cache() {
    assert_eq!(pdf_render_start(), (PdfRenderState::ListingCache, PdfRenderAction::ListPages));
    let cached = vec!["c/page-1.png".to_owned()];
    assert_eq!(
        pdf_render_next(PdfRenderState::ListingCache, PdfRenderEvent::Listed(cached.clone())),
        (PdfRenderState::Finished, PdfRenderAction::UsePages(cached.clone()))
    );
    assert_eq!(
        pdf_render_next(PdfRenderState::ListingCache, PdfRenderEvent::Listed(Vec::new())),
        (PdfRenderState::Rendering, PdfRenderAction::RunRenderer)
    );
    assert_eq!(
        pdf_render_next(
            PdfRenderState::Rendering,
            PdfRenderEvent::RendererExited { success: true, stderr: String::new() }
        ),
        (PdfRenderState::ListingRendered, PdfRenderAction::ListPages)
    );
    assert_eq!(
        pdf_render_next(
            PdfRenderState::Rendering,
            PdfRenderEvent::RendererExited { success: false, stderr: " Syntax Error \n".into() }
        ),
        (PdfRenderState::Finished, PdfRenderAction::Fail("Syntax Error".into()))
    );
    assert_eq!(
        pdf_render_next(
            PdfRenderState::Rendering,
            PdfRenderEvent::RendererExited { success: false, stderr: "\n".into() }
        ),
        (
            PdfRenderState::Finished,
            PdfRenderAction::Fail("pdftoppm exited without producing an image".into())
        )
    );
    assert_eq!(
        pdf_render_next(PdfRenderState::ListingRendered, PdfRenderEvent::Listed(Vec::new())),
        (
            PdfRenderState::Finished,
            PdfRenderAction::Fail("the PDF contained no renderable pages".into())
        )
    );
    assert_eq!(
        pdf_render_next(PdfRenderState::ListingRendered, PdfRenderEvent::Listed(cached.clone())),
        (PdfRenderState::Finished, PdfRenderAction::UsePages(cached))
    );
}

#[test]
fn lower_case_extensions_and_keyed_sorting() {
    assert_eq!(kind_for_lower_extension("markdown"), Some(DocumentKind::Markdown));
    assert_eq!(kind_for_lower_extension("PDF"), None);
    assert_eq!(
        stable_sort_by_keys(vec!["c", "a", "b", "a2"], vec![3usize, 1, 2, 1]),
        vec!["a", "a2", "b", "c"]
    );
    assert_eq!(
        stable_sort_by_keys(vec![1, 2, 3], vec![vec!['b'], vec!['a', 'z'], vec!['a']]),
        vec![3, 2, 1]
    );
}
