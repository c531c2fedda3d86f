//! Markdown to a flat list of blocks.
//!
//! `pulldown-cmark` reads the source and reports a stream of events; this
//! module models that stream as [`MarkdownEvent`] values and folds it into
//! [`MarkdownBlock`]s: headings, paragraphs, code blocks, quotes, list items
//! and rules. Inline structure is flattened into the text of its block.

use pulldown_cmark::{Event, Options, Parser, TagEnd};
use vstd::prelude::*;

use crate::text::{lemma_trim_idempotent, push_char, trim, trimmed};

verus! {

/// The kind of a block of a Markdown document.
#[derive(Clone, Copy, Debug, PartialEq, Eq, Structural)]
pub enum MarkdownBlockKind {
    Heading(u8),
    Paragraph,
    Code,
    Quote,
    ListItem,
    Rule,
}

/// One block of a Markdown document and its flattened, trimmed text.
#[derive(Clone, Debug, PartialEq, Eq)]
pub struct MarkdownBlock {
    pub kind: MarkdownBlockKind,
    pub text: String,
}

/// A block as the specifications see it: its kind and its characters.
pub type BlockView = (MarkdownBlockKind, Seq<char>);

impl View for MarkdownBlock {
    type V = BlockView;

    open spec fn view(&self) -> BlockView {
        (self.kind, self.text@)
    }
}

/// The views of a sequence of blocks.
pub open spec fn block_views(blocks: Seq<MarkdownBlock>) -> Seq<BlockView> {
    blocks.map_values(|b: MarkdownBlock| b@)
}

/// The block-level element that a start or end event opens or closes, as far
/// as the block model tells them apart.
#[derive(Clone, Copy, Debug, PartialEq, Eq, Structural)]
pub enum BlockTag {
    Paragraph,
    Heading(u8),
    BlockQuote,
    CodeBlock,
    Item,
    Other,
}

/// A heading tag carries a level from 1 to 6.
pub open spec fn tag_level_ok(t: BlockTag) -> bool {
    t matches BlockTag::Heading(l) ==> 1 <= l <= 6
}

/// What an event of the parser opens or closes, if it is a start or end event.
#[derive(Clone, Copy, Debug, PartialEq, Eq, Structural)]
pub enum TagEvent {
    Start(BlockTag),
    End(BlockTag),
    NotTag,
}

/// The heading level of a start or end event is from 1 to 6.
pub open spec fn tag_event_level_ok(t: TagEvent) -> bool {
    match t {
        TagEvent::Start(tag) => tag_level_ok(tag),
        TagEvent::End(tag) => tag_level_ok(tag),
        TagEvent::NotTag => true,
    }
}

/// The content of an event of the parser; `Tag` for start and end events.
#[derive(Clone, Debug, PartialEq, Eq)]
pub enum ContentEvent {
    Tag,
    Text(String),
    Code(String),
    Html(String),
    InlineHtml(String),
    SoftBreak,
    HardBreak,
    Rule,
    TaskListMarker(bool),
    Other,
}

/// One event of the parser's stream.
#[derive(Clone, Debug, PartialEq, Eq)]
pub enum MarkdownEvent {
    Start(BlockTag),
    End(BlockTag),
    Text(String),
    Code(String),
    Html(String),
    InlineHtml(String),
    SoftBreak,
    HardBreak,
    Rule,
    TaskListMarker(bool),
    Other,
}

// ---------------------------------------------------------------------------
// The parser
// ---------------------------------------------------------------------------

/// The start and end events that `pulldown_cmark` reports for `source`, one
/// entry per event of its stream.
pub uninterp spec fn markdown_tags_of(source: Seq<char>) -> Seq<TagEvent>;

/// The contents of the events that `pulldown_cmark` reports for `source`, one
/// entry per event of its stream.
pub uninterp spec fn markdown_contents_of(source: Seq<char>) -> Seq<ContentEvent>;

/// Runs `pulldown_cmark::Parser::new_ext` on `source` with strikethrough,
/// tables, task lists and footnotes enabled, and reports for each event
/// whether it starts or ends an element and which one (`Tag::to_end` gives the
/// element of a start event; a heading keeps its level, which the crate's
/// `HeadingLevel` numbers 1 to 6). Elements other than paragraphs, headings,
/// block quotes, code blocks and list items are reported as `Other`. The
/// contract claims that the result is determined by `source` (it is named, not
/// stated) and that heading levels lie from 1 to 6.
#[verifier::external_body]
fn markdown_tag_events(source: &str) -> (tags: Vec<TagEvent>)
    ensures
        tags@ == markdown_tags_of(source@),
        forall|i: int| 0 <= i < tags@.len() ==> tag_event_level_ok(#[trigger] tags@[i]),
{
    let options = Options::ENABLE_STRIKETHROUGH | Options::ENABLE_TABLES | Options::ENABLE_TASKLISTS | Options::ENABLE_FOOTNOTES;
    let tag = |end: TagEnd| match end {
        TagEnd::Paragraph => BlockTag::Paragraph,
        TagEnd::Heading(level) => BlockTag::Heading(level as u8),
        TagEnd::BlockQuote(_) => BlockTag::BlockQuote,
        TagEnd::CodeBlock => BlockTag::CodeBlock,
        TagEnd::Item => BlockTag::Item,
        _ => BlockTag::Other,
    };
    Parser::new_ext(source, options).map(|event| match event {
        Event::Start(start) => TagEvent::Start(tag(start.to_end())),
        Event::End(end) => TagEvent::End(tag(end)),
        _ => TagEvent::NotTag,
    }).collect()
}

/// Runs `pulldown_cmark::Parser::new_ext` on `source` with the same options
/// as `markdown_tag_events` and reports the content of each event: `Tag` for
/// start and end events, the text of text, inline code and HTML events, the
/// flag of a task list marker, and `Other` for footnote references (and for
/// math, which these options never produce). The contract claims only that
/// the result is determined by `source`: it is named, not stated.
#[verifier::external_body]
fn markdown_content_events(source: &str) -> (contents: Vec<ContentEvent>)
    ensures
        contents@ == markdown_contents_of(source@),
{
    let options = Options::ENABLE_STRIKETHROUGH | Options::ENABLE_TABLES | Options::ENABLE_TASKLISTS | Options::ENABLE_FOOTNOTES;
    Parser::new_ext(source, options).map(|event| match event {
        Event::Start(_) | Event::End(_) => ContentEvent::Tag,
        Event::Text(text) => ContentEvent::Text(text.into_string()),
        Event::Code(text) => ContentEvent::Code(text.into_string()),
        Event::Html(text) => ContentEvent::Html(text.into_string()),
        Event::InlineHtml(text) => ContentEvent::InlineHtml(text.into_string()),
        Event::SoftBreak => ContentEvent::SoftBreak,
        Event::HardBreak => ContentEvent::HardBreak,
        Event::Rule => ContentEvent::Rule,
        Event::TaskListMarker(checked) => ContentEvent::TaskListMarker(checked),
        _ => ContentEvent::Other,
    }).collect()
}

/// The event made of the tag part and the content part of one event.
pub open spec fn merge_event(tag: TagEvent, content: ContentEvent) -> MarkdownEvent {
    match content {
        ContentEvent::Tag => match tag {
            TagEvent::Start(t) => MarkdownEvent::Start(t),
            TagEvent::End(t) => MarkdownEvent::End(t),
            TagEvent::NotTag => MarkdownEvent::Other,
        },
        ContentEvent::Text(s) => MarkdownEvent::Text(s),
        ContentEvent::Code(s) => MarkdownEvent::Code(s),
        ContentEvent::Html(s) => MarkdownEvent::Html(s),
        ContentEvent::InlineHtml(s) => MarkdownEvent::InlineHtml(s),
        ContentEvent::SoftBreak => MarkdownEvent::SoftBreak,
        ContentEvent::HardBreak => MarkdownEvent::HardBreak,
        ContentEvent::Rule => MarkdownEvent::Rule,
        ContentEvent::TaskListMarker(c) => MarkdownEvent::TaskListMarker(c),
        ContentEvent::Other => MarkdownEvent::Other,
    }
}

/// The tag part of event `i`, `NotTag` past the end of `tags`.
pub open spec fn tag_at(tags: Seq<TagEvent>, i: int) -> TagEvent {
    if 0 <= i < tags.len() {
        tags[i]
    } else {
        TagEvent::NotTag
    }
}

/// The events made of the two parts, one per content entry.
pub open spec fn merge_events(tags: Seq<TagEvent>, contents: Seq<ContentEvent>) -> Seq<
    MarkdownEvent,
> {
    Seq::new(contents.len(), |i: int| merge_event(tag_at(tags, i), contents[i]))
}

/// The event stream of `source`.
pub open spec fn events_of(source: Seq<char>) -> Seq<MarkdownEvent> {
    merge_events(markdown_tags_of(source), markdown_contents_of(source))
}

fn merged_event(tag: TagEvent, content: &ContentEvent) -> (event: MarkdownEvent)
    ensures
        event == merge_event(tag, *content),
{
    match content {
        ContentEvent::Tag => match tag {
            TagEvent::Start(t) => MarkdownEvent::Start(t),
            TagEvent::End(t) => MarkdownEvent::End(t),
            TagEvent::NotTag => MarkdownEvent::Other,
        },
        ContentEvent::Text(s) => MarkdownEvent::Text(s.clone()),
        ContentEvent::Code(s) => MarkdownEvent::Code(s.clone()),
        ContentEvent::Html(s) => MarkdownEvent::Html(s.clone()),
        ContentEvent::InlineHtml(s) => MarkdownEvent::InlineHtml(s.clone()),
        ContentEvent::SoftBreak => MarkdownEvent::SoftBreak,
        ContentEvent::HardBreak => MarkdownEvent::HardBreak,
        ContentEvent::Rule => MarkdownEvent::Rule,
        ContentEvent::TaskListMarker(c) => MarkdownEvent::TaskListMarker(*c),
        ContentEvent::Other => MarkdownEvent::Other,
    }
}

/// The heading level of an event is from 1 to 6.
pub open spec fn event_level_ok(e: MarkdownEvent) -> bool {
    match e {
        MarkdownEvent::Start(tag) => tag_level_ok(tag),
        MarkdownEvent::End(tag) => tag_level_ok(tag),
        _ => true,
    }
}

/// The events made of their tag parts and their content parts, one per
/// content entry.
pub fn merge_event_parts(tags: &Vec<TagEvent>, contents: &Vec<ContentEvent>) -> (events: Vec<
    MarkdownEvent,
>)
    ensures
        events@ == merge_events(tags@, contents@),
{
    let mut events: Vec<MarkdownEvent> = Vec::new();
    let mut i: usize = 0;
    while i < contents.len()
        invariant
            i <= contents.len(),
            events@ == merge_events(tags@, contents@).take(i as int),
        decreases contents.len() - i,
    {
        let tag = if i < tags.len() {
            tags[i]
        } else {
            TagEvent::NotTag
        };
        let event = merged_event(tag, &contents[i]);
        events.push(event);
        assert(merge_events(tags@, contents@).take(i + 1) == merge_events(tags@, contents@).take(
            i as int,
        ).push(event));
        i = i + 1;
    }
    assert(merge_events(tags@, contents@).take(i as int) == merge_events(tags@, contents@));
    events
}

/// The event stream that `pulldown_cmark` reports for `source`; its headings
/// have levels from 1 to 6.
pub fn markdown_events(source: &str) -> (events: Vec<MarkdownEvent>)
    ensures
        events@ == events_of(source@),
        forall|i: int| 0 <= i < events@.len() ==> event_level_ok(#[trigger] events@[i]),
{
    let tags = markdown_tag_events(source);
    let contents = markdown_content_events(source);
    let events = merge_event_parts(&tags, &contents);
    assert forall|k: int| 0 <= k < events@.len() implies event_level_ok(#[trigger] events@[k]) by {
        if 0 <= k < tags@.len() {
            assert(tag_event_level_ok(tags@[k]));
        }
    }
    events
}

// ---------------------------------------------------------------------------
// Folding events into blocks
// ---------------------------------------------------------------------------

/// The state of the fold: the blocks so far, the kind of the open block, and
/// the text gathered for it.
pub type FoldState = (Seq<BlockView>, Option<MarkdownBlockKind>, Seq<char>);

/// `blocks` after closing the open block: it is kept when its trimmed text is
/// not empty.
pub open spec fn flushed(
    blocks: Seq<BlockView>,
    kind: Option<MarkdownBlockKind>,
    text: Seq<char>,
) -> Seq<BlockView> {
    match kind {
        Some(k) => if trim(text).len() > 0 {
            blocks.push((k, trim(text)))
        } else {
            blocks
        },
        None => blocks,
    }
}

/// The state after closing the open block: nothing is open, no text is kept.
pub open spec fn close_block(s: FoldState) -> FoldState {
    (flushed(s.0, s.1, s.2), None, Seq::empty())
}

/// The state after closing the open block and opening one of `kind`.
pub open spec fn open_block(s: FoldState, kind: MarkdownBlockKind) -> FoldState {
    (flushed(s.0, s.1, s.2), Some(kind), Seq::empty())
}

/// The state after gathering `t`; text outside any block opens a paragraph.
pub open spec fn gather(s: FoldState, t: Seq<char>) -> FoldState {
    (s.0, if s.1.is_none() { Some(MarkdownBlockKind::Paragraph) } else { s.1 }, s.2 + t)
}

/// The text that a task list marker stands for: a ballot box, checked or not,
/// and a space.
pub open spec fn task_marker(checked: bool) -> Seq<char> {
    if checked {
        seq!['\u{2611}', ' ']
    } else {
        seq!['\u{2610}', ' ']
    }
}

/// One step of the fold.
pub open spec fn step(s: FoldState, event: MarkdownEvent) -> FoldState {
    match event {
        MarkdownEvent::Start(tag) => match tag {
            BlockTag::Heading(level) => open_block(s, MarkdownBlockKind::Heading(level)),
            BlockTag::Paragraph => if s.1.is_none() {
                (s.0, Some(MarkdownBlockKind::Paragraph), s.2)
            } else {
                s
            },
            BlockTag::CodeBlock => open_block(s, MarkdownBlockKind::Code),
            BlockTag::BlockQuote => open_block(s, MarkdownBlockKind::Quote),
            BlockTag::Item => open_block(s, MarkdownBlockKind::ListItem),
            BlockTag::Other => s,
        },
        MarkdownEvent::End(tag) => match tag {
            BlockTag::Paragraph => if s.1 == Some(MarkdownBlockKind::Paragraph) {
                close_block(s)
            } else {
                s
            },
            BlockTag::Other => s,
            _ => close_block(s),
        },
        MarkdownEvent::Text(t) => gather(s, t@),
        MarkdownEvent::Code(t) => gather(s, t@),
        MarkdownEvent::Html(t) => gather(s, t@),
        MarkdownEvent::InlineHtml(t) => gather(s, t@),
        MarkdownEvent::SoftBreak => (s.0, s.1, s.2.push(' ')),
        MarkdownEvent::HardBreak => (s.0, s.1, s.2.push('\n')),
        MarkdownEvent::TaskListMarker(checked) => (s.0, s.1, s.2 + task_marker(checked)),
        MarkdownEvent::Rule => (
            flushed(s.0, s.1, s.2).push((MarkdownBlockKind::Rule, Seq::empty())),
            None,
            Seq::empty(),
        ),
        MarkdownEvent::Other => s,
    }
}

/// The state after folding all of `events`, starting with no blocks.
pub open spec fn fold_events(events: Seq<MarkdownEvent>) -> FoldState
    decreases events.len(),
{
    if events.len() == 0 {
        (Seq::empty(), None, Seq::empty())
    } else {
        step(fold_events(events.drop_last()), events.last())
    }
}

/// The blocks of an event stream: the fold, then the last block closed.
pub open spec fn blocks_of_events(events: Seq<MarkdownEvent>) -> Seq<BlockView> {
    let s = fold_events(events);
    flushed(s.0, s.1, s.2)
}

/// The blocks of a Markdown source.
pub open spec fn blocks_of(source: Seq<char>) -> Seq<BlockView> {
    blocks_of_events(events_of(source))
}

proof fn lemma_block_views_push(blocks: Seq<MarkdownBlock>, b: MarkdownBlock)
    ensures
        block_views(blocks.push(b)) == block_views(blocks).push(b@),
{
    assert(block_views(blocks.push(b)) =~= block_views(blocks).push(b@));
}

/// Closes the open block: it is appended to `blocks` when its trimmed text is
/// not empty; afterwards no block is open and no text is gathered.
pub fn flush(
    blocks: &mut Vec<MarkdownBlock>,
    current_kind: &mut Option<MarkdownBlockKind>,
    current_text: &mut String,
)
    ensures
        block_views(final(blocks)@) == flushed(
            block_views(old(blocks)@),
            *old(current_kind),
            old(current_text)@,
        ),
        *final(current_kind) == None::<MarkdownBlockKind>,
        final(current_text)@ == Seq::<char>::empty(),
{
    if let Some(kind) = current_kind.take() {
        let text = trimmed(current_text.as_str());
        if !text.as_str().is_empty() {
            let block = MarkdownBlock { kind, text };
            proof {
                lemma_block_views_push(blocks@, block);
            }
            blocks.push(block);
        }
    }
    *current_text = String::new();
}

/// Appends `t` to the gathered text; text outside any block opens a paragraph.
fn gather_text(current_kind: &mut Option<MarkdownBlockKind>, current_text: &mut String, t: &str)
    ensures
        *final(current_kind) == (if old(current_kind).is_none() {
            Some(MarkdownBlockKind::Paragraph)
        } else {
            *old(current_kind)
        }),
        final(current_text)@ == old(current_text)@ + t@,
{
    if current_kind.is_none() {
        *current_kind = Some(MarkdownBlockKind::Paragraph);
    }
    current_text.append(t);
}

/// One step of the fold over the mutable state.
fn apply_event(
    blocks: &mut Vec<MarkdownBlock>,
    current_kind: &mut Option<MarkdownBlockKind>,
    current_text: &mut String,
    event: &MarkdownEvent,
)
    ensures
        (block_views(final(blocks)@), *final(current_kind), final(current_text)@) == step(
            (block_views(old(blocks)@), *old(current_kind), old(current_text)@),
            *event,
        ),
{
    match event {
        MarkdownEvent::Start(tag) => match tag {
            BlockTag::Heading(level) => {
                flush(blocks, current_kind, current_text);
                *current_kind = Some(MarkdownBlockKind::Heading(*level));
            },
            BlockTag::Paragraph => {
                if current_kind.is_none() {
                    *current_kind = Some(MarkdownBlockKind::Paragraph);
                }
            },
            BlockTag::CodeBlock => {
                flush(blocks, current_kind, current_text);
                *current_kind = Some(MarkdownBlockKind::Code);
            },
            BlockTag::BlockQuote => {
                flush(blocks, current_kind, current_text);
                *current_kind = Some(MarkdownBlockKind::Quote);
            },
            BlockTag::Item => {
                flush(blocks, current_kind, current_text);
                *current_kind = Some(MarkdownBlockKind::ListItem);
            },
            BlockTag::Other => {},
        },
        MarkdownEvent::End(tag) => match tag {
            BlockTag::Paragraph => {
                if *current_kind == Some(MarkdownBlockKind::Paragraph) {
                    flush(blocks, current_kind, current_text);
                }
            },
            BlockTag::Other => {},
            _ => {
                flush(blocks, current_kind, current_text);
            },
        },
        MarkdownEvent::Text(t) => gather_text(current_kind, current_text, t.as_str()),
        MarkdownEvent::Code(t) => gather_text(current_kind, current_text, t.as_str()),
        MarkdownEvent::Html(t) => gather_text(current_kind, current_text, t.as_str()),
        MarkdownEvent::InlineHtml(t) => gather_text(current_kind, current_text, t.as_str()),
        MarkdownEvent::SoftBreak => push_char(current_text, ' '),
        MarkdownEvent::HardBreak => push_char(current_text, '\n'),
        MarkdownEvent::TaskListMarker(checked) => {
            push_char(current_text, if *checked { '\u{2611}' } else { '\u{2610}' });
            push_char(current_text, ' ');
            assert(task_marker(*checked) =~= seq![
                if *checked { '\u{2611}' } else { '\u{2610}' },
                ' ',
            ]);
        },
        MarkdownEvent::Rule => {
            flush(blocks, current_kind, current_text);
            let rule = MarkdownBlock { kind: MarkdownBlockKind::Rule, text: String::new() };
            proof {
                lemma_block_views_push(blocks@, rule);
            }
            blocks.push(rule);
        },
        MarkdownEvent::Other => {},
    }
}

/// Folds an event stream into blocks.
pub fn blocks_from_events(events: &Vec<MarkdownEvent>) -> (blocks: Vec<MarkdownBlock>)
    ensures
        block_views(blocks@) == blocks_of_events(events@),
{
    let mut blocks: Vec<MarkdownBlock> = Vec::new();
    let mut current_kind: Option<MarkdownBlockKind> = None;
    let mut current_text = String::new();
    let mut i: usize = 0;
    assert(block_views(blocks@) =~= Seq::<BlockView>::empty());
    while i < events.len()
        invariant
            i <= events.len(),
            (block_views(blocks@), current_kind, current_text@) == fold_events(
                events@.take(i as int),
            ),
        decreases events.len() - i,
    {
        apply_event(&mut blocks, &mut current_kind, &mut current_text, &events[i]);
        assert(events@.take(i + 1).drop_last() == events@.take(i as int));
        i = i + 1;
    }
    assert(events@.take(i as int) == events@);
    flush(&mut blocks, &mut current_kind, &mut current_text);
    blocks
}

/// A block is well formed: a rule has no text; any other block has text that
/// is not empty and has no white space at either end.
pub open spec fn well_formed_block(b: BlockView) -> bool {
    if b.0 == MarkdownBlockKind::Rule {
        b.1.len() == 0
    } else {
        b.1.len() > 0 && trim(b.1) == b.1
    }
}

/// A heading block has a level from 1 to 6.
pub open spec fn kind_level_ok(k: MarkdownBlockKind) -> bool {
    k matches MarkdownBlockKind::Heading(l) ==> 1 <= l <= 6
}

proof fn lemma_flushed_keeps(blocks: Seq<BlockView>, kind: Option<MarkdownBlockKind>, text: Seq<char>)
    requires
        forall|i: int| 0 <= i < blocks.len() ==> well_formed_block(#[trigger] blocks[i]),
        kind != Some(MarkdownBlockKind::Rule),
    ensures
        forall|i: int|
            0 <= i < flushed(blocks, kind, text).len() ==> well_formed_block(
                #[trigger] flushed(blocks, kind, text)[i],
            ),
        forall|i: int|
            0 <= i < flushed(blocks, kind, text).len() ==> (#[trigger] flushed(blocks, kind, text)[i]
                == blocks[i] || kind == Some(flushed(blocks, kind, text)[i].0)),
{
    lemma_trim_idempotent(text);
}

proof fn lemma_fold_invariant(events: Seq<MarkdownEvent>)
    ensures
        forall|i: int|
            0 <= i < fold_events(events).0.len() ==> well_formed_block(
                #[trigger] fold_events(events).0[i],
            ),
        fold_events(events).1 != Some(MarkdownBlockKind::Rule),
        (forall|j: int| 0 <= j < events.len() ==> event_level_ok(#[trigger] events[j])) ==> ((
        forall|i: int|
            0 <= i < fold_events(events).0.len() ==> kind_level_ok(
                (#[trigger] fold_events(events).0[i]).0,
            )) && (fold_events(events).1 matches Some(k) ==> kind_level_ok(k))),
    decreases events.len(),
{
    if events.len() > 0 {
        let prefix = events.drop_last();
        lemma_fold_invariant(prefix);
        let s = fold_events(prefix);
        lemma_flushed_keeps(s.0, s.1, s.2);
        if forall|j: int| 0 <= j < events.len() ==> event_level_ok(#[trigger] events[j]) {
            assert forall|j: int| 0 <= j < prefix.len() implies event_level_ok(
                #[trigger] prefix[j],
            ) by {
                assert(prefix[j] == events[j]);
            }
            assert(event_level_ok(events[events.len() - 1]));
        }
    }
}

/// Whether an event stays inside the open block: text, inline code, HTML,
/// and the start or end of an inline element (emphasis, strong text, a link,
/// strikethrough, ...).
pub open spec fn is_inline_event(e: MarkdownEvent) -> bool {
    match e {
        MarkdownEvent::Text(_) => true,
        MarkdownEvent::Code(_) => true,
        MarkdownEvent::Html(_) => true,
        MarkdownEvent::InlineHtml(_) => true,
        MarkdownEvent::Start(BlockTag::Other) => true,
        MarkdownEvent::End(BlockTag::Other) => true,
        _ => false,
    }
}

/// The characters an event contributes to its block's text.
pub open spec fn event_text(e: MarkdownEvent) -> Seq<char> {
    match e {
        MarkdownEvent::Text(t) => t@,
        MarkdownEvent::Code(t) => t@,
        MarkdownEvent::Html(t) => t@,
        MarkdownEvent::InlineHtml(t) => t@,
        _ => Seq::empty(),
    }
}

/// The concatenated text of a run of events.
pub open spec fn inline_text(events: Seq<MarkdownEvent>) -> Seq<char>
    decreases events.len(),
{
    if events.len() == 0 {
        Seq::empty()
    } else {
        inline_text(events.drop_last()) + event_text(events.last())
    }
}

/// The kind of block that a block-level start tag opens.
pub open spec fn opened_kind(tag: BlockTag) -> MarkdownBlockKind {
    match tag {
        BlockTag::Paragraph => MarkdownBlockKind::Paragraph,
        BlockTag::Heading(l) => MarkdownBlockKind::Heading(l),
        BlockTag::CodeBlock => MarkdownBlockKind::Code,
        BlockTag::BlockQuote => MarkdownBlockKind::Quote,
        BlockTag::Item => MarkdownBlockKind::ListItem,
        BlockTag::Other => MarkdownBlockKind::Paragraph,
    }
}

/// The start or the end of an inline element changes nothing: folding it
/// leaves the state as it was, so it neither closes nor opens a block.
pub proof fn lemma_inline_elements_change_nothing(events: Seq<MarkdownEvent>)
    ensures
        fold_events(events.push(MarkdownEvent::End(BlockTag::Other))) == fold_events(events),
        fold_events(events.push(MarkdownEvent::Start(BlockTag::Other))) == fold_events(events),
{
    assert(events.push(MarkdownEvent::End(BlockTag::Other)).drop_last() == events);
    assert(events.push(MarkdownEvent::Start(BlockTag::Other)).drop_last() == events);
}

proof fn lemma_open_block_gathers(open: BlockTag, inner: Seq<MarkdownEvent>, k: int)
    requires
        open != BlockTag::Other,
        0 <= k <= inner.len(),
        forall|i: int| 0 <= i < inner.len() ==> is_inline_event(#[trigger] inner[i]),
    ensures
        fold_events(seq![MarkdownEvent::Start(open)] + inner.take(k)) == (
            Seq::<BlockView>::empty(),
            Some(opened_kind(open)),
            inline_text(inner.take(k)),
        ),
    decreases k,
{
    let first = seq![MarkdownEvent::Start(open)];
    if k == 0 {
        assert(first + inner.take(0) == first);
        assert(first.drop_last() == Seq::<MarkdownEvent>::empty());
        assert(fold_events(Seq::<MarkdownEvent>::empty()) == (
            Seq::<BlockView>::empty(),
            None::<MarkdownBlockKind>,
            Seq::<char>::empty(),
        ));
        assert(flushed(Seq::<BlockView>::empty(), None, Seq::<char>::empty())
            == Seq::<BlockView>::empty());
        assert(inner.take(0) == Seq::<MarkdownEvent>::empty());
    } else {
        lemma_open_block_gathers(open, inner, k - 1);
        let e = inner[k - 1];
        assert(is_inline_event(e));
        assert((first + inner.take(k)).drop_last() == first + inner.take(k - 1));
        assert((first + inner.take(k)).last() == e);
        assert(inner.take(k).drop_last() == inner.take(k - 1));
        assert(inner.take(k).last() == e);
        let prev = inline_text(inner.take(k - 1));
        assert(inline_text(inner.take(k)) == prev + event_text(e));
        if event_text(e) == Seq::<char>::empty() {
            assert(prev + event_text(e) =~= prev);
        }
    }
}

/// A block whose content is text and inline elements is one block: its text
/// is the concatenation of the texts of its events, trimmed; it is dropped
/// when that is empty. Inline formatting never splits a block.
pub proof fn lemma_block_text_is_inline_text(open: BlockTag, inner: Seq<MarkdownEvent>)
    requires
        open != BlockTag::Other,
        forall|i: int| 0 <= i < inner.len() ==> is_inline_event(#[trigger] inner[i]),
    ensures
        fold_events(seq![MarkdownEvent::Start(open)] + inner) == (
            Seq::<BlockView>::empty(),
            Some(opened_kind(open)),
            inline_text(inner),
        ),
        blocks_of_events(seq![MarkdownEvent::Start(open)] + inner + seq![MarkdownEvent::End(open)])
            == if trim(inline_text(inner)).len() > 0 {
            seq![(opened_kind(open), trim(inline_text(inner)))]
        } else {
            Seq::<BlockView>::empty()
        },
{
    lemma_open_block_gathers(open, inner, inner.len() as int);
    assert(inner.take(inner.len() as int) == inner);
    let all = seq![MarkdownEvent::Start(open)] + inner + seq![MarkdownEvent::End(open)];
    assert(all.drop_last() == seq![MarkdownEvent::Start(open)] + inner);
    assert(all.last() == MarkdownEvent::End(open));
}

/// Every block of every event stream is well formed.
pub proof fn lemma_blocks_well_formed(events: Seq<MarkdownEvent>)
    ensures
        forall|i: int|
            0 <= i < blocks_of_events(events).len() ==> well_formed_block(
                #[trigger] blocks_of_events(events)[i],
            ),
{
    lemma_fold_invariant(events);
    let s = fold_events(events);
    lemma_flushed_keeps(s.0, s.1, s.2);
}

/// When the headings of an event stream have levels from 1 to 6, so have the
/// heading blocks made of it.
pub proof fn lemma_heading_levels(events: Seq<MarkdownEvent>)
    requires
        forall|j: int| 0 <= j < events.len() ==> event_level_ok(#[trigger] events[j]),
    ensures
        forall|i: int|
            0 <= i < blocks_of_events(events).len() ==> kind_level_ok(
                (#[trigger] blocks_of_events(events)[i]).0,
            ),
{
    lemma_fold_invariant(events);
    let s = fold_events(events);
    lemma_flushed_keeps(s.0, s.1, s.2);
}

/// The blocks of a Markdown document. Every block is well formed and every
/// heading has a level from 1 to 6.
pub fn parse(source: &str) -> (blocks: Vec<MarkdownBlock>)
    ensures
        block_views(blocks@) == blocks_of(source@),
        forall|i: int| 0 <= i < blocks@.len() ==> well_formed_block(#[trigger] blocks@[i]@),
        forall|i: int| 0 <= i < blocks@.len() ==> kind_level_ok(#[trigger] blocks@[i].kind),
{
    let events = markdown_events(source);
    let blocks = blocks_from_events(&events);
    proof {
        lemma_blocks_well_formed(events@);
        lemma_heading_levels(events@);
        assert forall|i: int| 0 <= i < blocks@.len() implies well_formed_block(
            #[trigger] blocks@[i]@,
        ) by {
            assert(block_views(blocks@)[i] == blocks@[i]@);
        }
        assert forall|i: int| 0 <= i < blocks@.len() implies kind_level_ok(
            #[trigger] blocks@[i].kind,
        ) by {
            assert(block_views(blocks@)[i] == blocks@[i]@);
        }
    }
    blocks
}


// ---------------------------------------------------------------------------
// Title
// ---------------------------------------------------------------------------

/// The text of the first level-one heading among `blocks`.
pub open spec fn first_title(blocks: Seq<BlockView>) -> Option<Seq<char>>
    decreases blocks.len(),
{
    if blocks.len() == 0 {
        None
    } else if blocks[0].0 == MarkdownBlockKind::Heading(1) {
        Some(blocks[0].1)
    } else {
        first_title(blocks.drop_first())
    }
}

/// The title is the text of the first level-one heading, and there is none
/// when no block is a level-one heading.
pub proof fn lemma_first_title(blocks: Seq<BlockView>)
    ensures
        first_title(blocks) is Some ==> exists|i: int|
            0 <= i < blocks.len() && #[trigger] blocks[i] == (
                MarkdownBlockKind::Heading(1),
                first_title(blocks)->0,
            ) && forall|j: int| 0 <= j < i ==> blocks[j].0 != MarkdownBlockKind::Heading(1),
        first_title(blocks) is None ==> forall|i: int|
            0 <= i < blocks.len() ==> (#[trigger] blocks[i]).0 != MarkdownBlockKind::Heading(1),
    decreases blocks.len(),
{
    if blocks.len() > 0 && blocks[0].0 != MarkdownBlockKind::Heading(1) {
        let rest = blocks.drop_first();
        lemma_first_title(rest);
        if first_title(blocks) is Some {
            let i = choose|i: int|
                0 <= i < rest.len() && #[trigger] rest[i] == (
                    MarkdownBlockKind::Heading(1),
                    first_title(rest)->0,
                ) && forall|j: int| 0 <= j < i ==> rest[j].0 != MarkdownBlockKind::Heading(1);
            assert(blocks[i + 1] == rest[i]);
            assert forall|j: int| 0 <= j < i + 1 implies blocks[j].0 != MarkdownBlockKind::Heading(
                1,
            ) by {
                if j > 0 {
                    assert(blocks[j] == rest[j - 1]);
                }
            }
        } else {
            assert forall|i: int| 0 <= i < blocks.len() implies (
            #[trigger] blocks[i]).0 != MarkdownBlockKind::Heading(1) by {
                if i > 0 {
                    assert(blocks[i] == rest[i - 1]);
                }
            }
        }
    } else if blocks.len() > 0 {
        assert(blocks[0] == (MarkdownBlockKind::Heading(1), first_title(blocks)->0));
    }
}

/// The text of the first level-one heading among `blocks`, if there is one.
pub fn title_from_blocks(blocks: &Vec<MarkdownBlock>) -> (title: Option<String>)
    ensures
        match first_title(block_views(blocks@)) {
            Some(t) => title is Some && title->0@ == t,
            None => title is None,
        },
{
    let mut i: usize = 0;
    assert(block_views(blocks@).skip(0) == block_views(blocks@));
    while i < blocks.len()
        invariant
            i <= blocks.len(),
            first_title(block_views(blocks@)) == first_title(block_views(blocks@).skip(i as int)),
        decreases blocks.len() - i,
    {
        let ghost views = block_views(blocks@).skip(i as int);
        assert(views[0] == blocks@[i as int]@);
        if blocks[i].kind == MarkdownBlockKind::Heading(1) {
            return Some(blocks[i].text.clone());
        }
        assert(views.drop_first() == block_views(blocks@).skip(i + 1));
        i = i + 1;
    }
    None
}

/// The title of a Markdown document: the text of its first level-one heading.
pub fn title(source: &str) -> (title: Option<String>)
    ensures
        match first_title(blocks_of(source@)) {
            Some(t) => title is Some && title->0@ == t,
            None => title is None,
        },
{
    let blocks = parse(source);
    title_from_blocks(&blocks)
}

} // verus!
