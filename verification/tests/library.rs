use zuxi::document::{DocumentEntry, DocumentKind};
use zuxi::library::Library;

fn entry(path: &str) -> DocumentEntry {
    DocumentEntry {
        path: format!("/docs/{path}"),
        relative_path: path.to_owned(),
        name: path.to_owned(),
        title: format!("Title of {path}"),
        kind: if path.ends_with(".pdf") { DocumentKind::Pdf } else { DocumentKind::Markdown },
    }
}

#[test]
fn a_new_library_selects_its_first_document() {
    let library = Library::new(vec![entry("a.md"), entry("b.pdf")]);
    assert_eq!(library.selected(), Some(0));
    assert_eq!(library.selected_entry().map(|e| e.path.as_str()), Some("/docs/a.md"));
    assert_eq!(library.document_count_label(), "2 documents");

    let empty = Library::new(Vec::new());
    assert_eq!(empty.selected(), None);
    assert!(empty.selected_entry().is_none());
    assert_eq!(empty.document_count_label(), "0 documents");
    assert_eq!(
        empty.toolbar_summary(),
        ("No document selected".to_owned(), String::new(), "\u{2014}")
    );
}

#[test]
fn selecting_the_selected_document_changes_nothing() {
    let mut library = Library::new(vec![entry("a.md"), entry("b.pdf")]);
    assert!(!library.select(0));
    assert!(library.select(1));
    assert!(!library.select(1));
    assert_eq!(library.selected(), Some(1));
    assert_eq!(
        library.toolbar_summary(),
        ("Title of b.pdf".to_owned(), "b.pdf".to_owned(), "PDF")
    );
}

#[test]
fn reloading_keeps_the_selected_document() {
    let mut library = Library::new(vec![entry("b.md"), entry("c.md")]);
    library.select(1);
    library.reload(vec![entry("a.md"), entry("b.md"), entry("c.md")]);
    assert_eq!(library.selected(), Some(2));
    assert_eq!(library.selected_entry().map(|e| e.path.as_str()), Some("/docs/c.md"));
    assert_eq!(library.documents().len(), 3);
}

#[test]
fn reloading_without_the_selected_document_selects_the_first() {
    let mut library = Library::new(vec![entry("b.md"), entry("c.md")]);
    library.select(1);
    library.reload(vec![entry("x.md"), entry("y.md")]);
    assert_eq!(library.selected(), Some(0));
    library.reload(Vec::new());
    assert_eq!(library.selected(), None);
    library.reload(vec![entry("z.md")]);
    assert_eq!(library.selected(), Some(0));
}
