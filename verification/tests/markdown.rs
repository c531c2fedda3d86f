use zuxi::markdown::{
    blocks_from_events, flush, markdown_events, merge_event_parts, parse, title,
    title_from_blocks, BlockTag, ContentEvent, MarkdownBlock, MarkdownBlockKind, MarkdownEvent,
    TagEvent,
};

#[test]
fn parses_common_markdown_blocks() {
    let blocks = parse(
        "# Title\n\nA paragraph with `code`.\n\n- first\n- second\n\n```rust\nfn main() {}\n```",
    );

    assert_eq!(blocks[0].kind, MarkdownBlockKind::Heading(1));
    assert_eq!(blocks[0].text, "Title");
    assert!(blocks.iter().any(|block| {
        block.kind == MarkdownBlockKind::Paragraph && block.text.contains("code")
    }));
    assert_eq!(
        blocks
            .iter()
            .filter(|block| block.kind == MarkdownBlockKind::ListItem)
            .count(),
        2
    );
    assert!(blocks.iter().any(|block| {
        block.kind == MarkdownBlockKind::Code && block.text.contains("fn main")
    }));
}

#[test]
fn uses_the_first_level_one_heading_as_the_title() {
    assert_eq!(
        title("A preface.\n\n# Document title\n\nContents"),
        Some("Document title".to_owned())
    );
    assert_eq!(title("## Section only"), None);
}

fn block(kind: MarkdownBlockKind, text: &str) -> MarkdownBlock {
    MarkdownBlock { kind, text: text.to_owned() }
}

#[test]
fn parses_every_block_kind_in_order() {
    let blocks = parse("## Sub\n\nText\nmore\n\n> quoted\n\n---\n\n1. one\n\n```\ncode  \n```\n");
    assert_eq!(
        blocks,
        vec![
            block(MarkdownBlockKind::Heading(2), "Sub"),
            block(MarkdownBlockKind::Paragraph, "Text more"),
            block(MarkdownBlockKind::Quote, "quoted"),
            block(MarkdownBlockKind::Rule, ""),
            block(MarkdownBlockKind::ListItem, "one"),
            block(MarkdownBlockKind::Code, "code"),
        ]
    );
}

#[test]
fn heading_levels_follow_the_markers() {
    let blocks = parse("# a\n## b\n### c\n#### d\n##### e\n###### f\n");
    let levels: Vec<MarkdownBlockKind> = blocks.iter().map(|b| b.kind.clone()).collect();
    assert_eq!(
        levels,
        vec![
            MarkdownBlockKind::Heading(1),
            MarkdownBlockKind::Heading(2),
            MarkdownBlockKind::Heading(3),
            MarkdownBlockKind::Heading(4),
            MarkdownBlockKind::Heading(5),
            MarkdownBlockKind::Heading(6),
        ]
    );
}

#[test]
fn task_list_markers_and_hard_breaks_become_text() {
    let blocks = parse("- [x] done\n- [ ] open\n\nline  \nbreak\n");
    assert_eq!(blocks[0], block(MarkdownBlockKind::ListItem, "\u{2611} done"));
    assert_eq!(blocks[1], block(MarkdownBlockKind::ListItem, "\u{2610} open"));
    assert_eq!(blocks[2], block(MarkdownBlockKind::Paragraph, "line\nbreak"));
}

#[test]
fn empty_documents_have_no_blocks_and_no_title() {
    assert!(parse("").is_empty());
    assert!(parse("   \n\n  ").is_empty());
    assert_eq!(title(""), None);
}

#[test]
fn html_and_inline_code_are_kept_as_text() {
    let blocks = parse("Some <b>bold</b> and `x`\n");
    assert_eq!(blocks, vec![block(MarkdownBlockKind::Paragraph, "Some <b>bold</b> and x")]);
}

#[test]
fn folds_event_streams() {
    let events = vec![
        MarkdownEvent::Text("  loose ".to_owned()),
        MarkdownEvent::Start(BlockTag::Paragraph),
        MarkdownEvent::SoftBreak,
        MarkdownEvent::Code("text".to_owned()),
        MarkdownEvent::End(BlockTag::Paragraph),
        MarkdownEvent::Start(BlockTag::Heading(3)),
        MarkdownEvent::Html("<i>h</i>".to_owned()),
        MarkdownEvent::End(BlockTag::Heading(3)),
        MarkdownEvent::Start(BlockTag::Item),
        MarkdownEvent::TaskListMarker(false),
        MarkdownEvent::End(BlockTag::Item),
        MarkdownEvent::Rule,
        MarkdownEvent::Start(BlockTag::BlockQuote),
        MarkdownEvent::InlineHtml("q".to_owned()),
        MarkdownEvent::Other,
    ];
    assert_eq!(
        blocks_from_events(&events),
        vec![
            block(MarkdownBlockKind::Paragraph, "loose  text"),
            block(MarkdownBlockKind::Heading(3), "<i>h</i>"),
            block(MarkdownBlockKind::ListItem, "\u{2610}"),
            block(MarkdownBlockKind::Rule, ""),
            block(MarkdownBlockKind::Quote, "q"),
        ]
    );
}

#[test]
fn flush_keeps_only_blocks_with_text() {
    let mut blocks = Vec::new();
    let mut kind = Some(MarkdownBlockKind::Quote);
    let mut text = String::from("  \n ");
    flush(&mut blocks, &mut kind, &mut text);
    assert!(blocks.is_empty());
    assert_eq!(kind, None);
    assert_eq!(text, "");

    let mut kind = Some(MarkdownBlockKind::Code);
    let mut text = String::from("\tx y\n");
    flush(&mut blocks, &mut kind, &mut text);
    assert_eq!(blocks, vec![block(MarkdownBlockKind::Code, "x y")]);

    let mut kind = None;
    let mut text = String::from("stray");
    flush(&mut blocks, &mut kind, &mut text);
    assert_eq!(blocks.len(), 1);
    assert_eq!(text, "");
}

#[test]
fn title_comes_from_the_first_level_one_heading_block() {
    let blocks = vec![
        block(MarkdownBlockKind::Heading(2), "Second"),
        block(MarkdownBlockKind::Heading(1), "First"),
        block(MarkdownBlockKind::Heading(1), "Later"),
    ];
    assert_eq!(title_from_blocks(&blocks), Some("First".to_owned()));
    assert_eq!(title_from_blocks(&blocks[..1].to_vec()), None);
}

#[test]
fn event_parts_merge_into_events() {
    let tags = vec![TagEvent::Start(BlockTag::Heading(2)), TagEvent::NotTag, TagEvent::End(BlockTag::Heading(2))];
    let contents = vec![
        ContentEvent::Tag,
        ContentEvent::Text("x".to_owned()),
        ContentEvent::Tag,
        ContentEvent::Tag,
        ContentEvent::TaskListMarker(true),
    ];
    assert_eq!(
        merge_event_parts(&tags, &contents),
        vec![
            MarkdownEvent::Start(BlockTag::Heading(2)),
            MarkdownEvent::Text("x".to_owned()),
            MarkdownEvent::End(BlockTag::Heading(2)),
            MarkdownEvent::Other,
            MarkdownEvent::TaskListMarker(true),
        ]
    );
}

#[test]
fn the_parser_reports_its_events() {
    assert_eq!(
        markdown_events("# Hi\n\n---\n"),
        vec![
            MarkdownEvent::Start(BlockTag::Heading(1)),
            MarkdownEvent::Text("Hi".to_owned()),
            MarkdownEvent::End(BlockTag::Heading(1)),
            MarkdownEvent::Rule,
        ]
    );
    assert_eq!(
        markdown_events("*a*"),
        vec![
            MarkdownEvent::Start(BlockTag::Paragraph),
            MarkdownEvent::Start(BlockTag::Other),
            MarkdownEvent::Text("a".to_owned()),
            MarkdownEvent::End(BlockTag::Other),
            MarkdownEvent::End(BlockTag::Paragraph),
        ]
    );
}
