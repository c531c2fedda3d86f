//! Documents of the library: which files count, how they are named and
//! ordered, what their previews hold, and the bookkeeping of PDF rendering.
//! Walking folders, reading files and running the Poppler tools are left to
//! the caller, which hands the results in as plain values.

use vstd::prelude::*;

use crate::markdown::{blocks_of, first_title, parse, title, MarkdownBlock, block_views};
use crate::sort::{is_permutation, sorted_by_keys, stable_sort_by_keys};
use crate::text::{
    append_str, chars_of, decimal, decimal_text, has_prefix, hex16, hex_digits, lowercase_of,
    parse_usize, parse_usize_at, push_char, same_chars, starts_with_at, text_le, to_lowercase,
    string_from_range, trim, trim_bounds, is_white_space, is_digit, digits_value,
    lemma_trim_around,
};

verus! {

/// The most pages of a PDF that are rendered for its preview.
pub const MAX_PDF_PAGES: usize = 24;

/// The kinds of documents that the library shows.
#[derive(Clone, Copy, Debug, Eq, PartialEq, Structural)]
pub enum DocumentKind {
    Markdown,
    Pdf,
}

impl DocumentKind {
    /// The text of the badge of this kind.
    pub open spec fn label_text(self) -> Seq<char> {
        match self {
            DocumentKind::Markdown => "MD"@,
            DocumentKind::Pdf => "PDF"@,
        }
    }

    /// The short badge shown next to a document of this kind.
    pub fn label(self) -> (label: &'static str)
        ensures
            label@ == self.label_text(),
    {
        match self {
            DocumentKind::Markdown => "MD",
            DocumentKind::Pdf => "PDF",
        }
    }
}

/// A document found in the library folder.
#[derive(Clone, Debug, Eq, PartialEq)]
pub struct DocumentEntry {
    /// The full path of the file, as text.
    pub path: String,
    /// The path below the library folder.
    pub relative_path: String,
    /// The file name.
    pub name: String,
    /// The title shown for the document.
    pub title: String,
    pub kind: DocumentKind,
}

// ---------------------------------------------------------------------------
// Which files count, and their names
// ---------------------------------------------------------------------------

/// The kind of document that a lower-case extension names.
pub open spec fn kind_of_lower_extension(e: Seq<char>) -> Option<DocumentKind> {
    if e == seq!['m', 'd'] || e == seq!['m', 'a', 'r', 'k', 'd', 'o', 'w', 'n'] {
        Some(DocumentKind::Markdown)
    } else if e == seq!['p', 'd', 'f'] {
        Some(DocumentKind::Pdf)
    } else {
        None
    }
}

/// The kind of document that a file extension names, in any case: `md` and
/// `markdown` are Markdown, `pdf` is PDF; other files are not documents.
pub fn kind_for_extension(extension: &str) -> (kind: Option<DocumentKind>)
    ensures
        kind == kind_of_lower_extension(lowercase_of(extension@)),
{
    let lower = to_lowercase(extension);
    kind_for_lower_extension(lower.as_str())
}

/// The kind of document that a lower-case extension names.
pub fn kind_for_lower_extension(lower: &str) -> (kind: Option<DocumentKind>)
    ensures
        kind == kind_of_lower_extension(lower@),
{
    let chars = chars_of(lower);
    if same_chars(&chars, &vec!['m', 'd']) || same_chars(
        &chars,
        &vec!['m', 'a', 'r', 'k', 'd', 'o', 'w', 'n'],
    ) {
        Some(DocumentKind::Markdown)
    } else if same_chars(&chars, &vec!['p', 'd', 'f']) {
        Some(DocumentKind::Pdf)
    } else {
        None
    }
}

/// The title made of a file stem: underscores and hyphens become spaces.
pub open spec fn fallback_title_of(stem: Seq<char>) -> Seq<char> {
    stem.map_values(|c: char| if c == '_' || c == '-' { ' ' } else { c })
}

/// Every underscore and every hyphen of the stem becomes a space, wherever it
/// stands; every other character is kept in its place.
pub proof fn lemma_fallback_title_chars(stem: Seq<char>)
    ensures
        fallback_title_of(stem).len() == stem.len(),
        forall|i: int|
            0 <= i < stem.len() ==> #[trigger] fallback_title_of(stem)[i] == (if stem[i] == '_'
                || stem[i] == '-' {
                ' '
            } else {
                stem[i]
            }),
        forall|i: int|
            0 <= i < stem.len() ==> (#[trigger] fallback_title_of(stem)[i] != '_'
                && fallback_title_of(stem)[i] != '-'),
{
}

/// The title made of a file stem: underscores and hyphens become spaces.
pub fn fallback_title(stem: &str) -> (title: String)
    ensures
        title@ == fallback_title_of(stem@),
        title@.len() == stem@.len(),
        forall|i: int|
            0 <= i < stem@.len() ==> #[trigger] title@[i] == (if stem@[i] == '_' || stem@[i]
                == '-' {
                ' '
            } else {
                stem@[i]
            }),
{
    proof {
        lemma_fallback_title_chars(stem@);
    }
    let chars = chars_of(stem);
    let mut title = String::new();
    let mut i: usize = 0;
    while i < chars.len()
        invariant
            i <= chars.len(),
            chars@ == stem@,
            title@ == fallback_title_of(stem@).take(i as int),
        decreases chars.len() - i,
    {
        let c = chars[i];
        push_char(&mut title, if c == '_' || c == '-' { ' ' } else { c });
        assert(fallback_title_of(stem@).take(i + 1) == fallback_title_of(stem@).take(i as int).push(
            if c == '_' || c == '-' { ' ' } else { c },
        ));
        i = i + 1;
    }
    assert(fallback_title_of(stem@).take(i as int) == fallback_title_of(stem@));
    title
}

/// The title of a document: for Markdown whose source could be read, its
/// first level-one heading; otherwise the title made of the file stem.
pub open spec fn entry_title(
    kind: DocumentKind,
    markdown_source: Option<Seq<char>>,
    stem: Seq<char>,
) -> Seq<char> {
    match markdown_source {
        Some(source) => if kind == DocumentKind::Markdown && first_title(blocks_of(source)) is Some {
            first_title(blocks_of(source))->0
        } else {
            fallback_title_of(stem)
        },
        None => fallback_title_of(stem),
    }
}

/// The entry for a document file. `markdown_source` is the text of a Markdown
/// file when it could be read; it is not consulted for other kinds.
pub fn document_entry(
    path: String,
    relative_path: String,
    name: String,
    stem: &str,
    kind: DocumentKind,
    markdown_source: Option<&str>,
) -> (entry: DocumentEntry)
    ensures
        entry.path == path,
        entry.relative_path == relative_path,
        entry.name == name,
        entry.kind == kind,
        entry.title@ == entry_title(
            kind,
            match markdown_source {
                Some(s) => Some(s@),
                None => None,
            },
            stem@,
        ),
{
    let found = match markdown_source {
        Some(source) => if kind == DocumentKind::Markdown {
            title(source)
        } else {
            None
        },
        None => None,
    };
    let title = match found {
        Some(t) => t,
        None => fallback_title(stem),
    };
    DocumentEntry { path, relative_path, name, title, kind }
}

/// Whether the folder walk enters or keeps an entry: the root and anything
/// that is not a directory are kept; directories named `target` or `.git`,
/// and hidden directories (whose name begins with a dot), are skipped.
pub open spec fn visible_entry(depth: nat, is_dir: bool, name: Seq<char>) -> bool {
    depth == 0 || !is_dir || (name != seq!['t', 'a', 'r', 'g', 'e', 't'] && name != seq![
        '.',
        'g',
        'i',
        't',
    ] && !(name.len() > 0 && name[0] == '.'))
}

/// Whether the folder walk enters or keeps an entry.
pub fn is_visible_entry(depth: usize, is_dir: bool, name: &str) -> (visible: bool)
    ensures
        visible == visible_entry(depth as nat, is_dir, name@),
{
    if depth == 0 || !is_dir {
        return true;
    }
    let chars = chars_of(name);
    !same_chars(&chars, &vec!['t', 'a', 'r', 'g', 'e', 't']) && !same_chars(
        &chars,
        &vec!['.', 'g', 'i', 't'],
    ) && !(chars.len() > 0 && chars[0] == '.')
}

/// Below the root, a directory is skipped exactly when it is `target`, `.git`
/// or hidden (its name begins with a dot): any other name is entered, whatever characters (dots among them) follow its first one. The
/// root and every entry that is not a directory are always kept.
pub proof fn lemma_visible_directories(depth: nat, name: Seq<char>)
    ensures
        visible_entry(0, true, name),
        visible_entry(depth, false, name),
        depth > 0 && !(name.len() > 0 && name[0] == '.') && name != seq![
            't',
            'a',
            'r',
            'g',
            'e',
            't',
        ] ==> visible_entry(depth, true, name),
        depth > 0 && name.len() > 0 && name[0] == '.' ==> !visible_entry(depth, true, name),
        depth > 0 ==> !visible_entry(depth, true, seq!['t', 'a', 'r', 'g', 'e', 't']),
        depth > 0 ==> !visible_entry(depth, true, seq!['.', 'g', 'i', 't']),
{
    if name.len() > 0 && name[0] != '.' {
        assert(name != seq!['.', 'g', 'i', 't']) by {
            if name == seq!['.', 'g', 'i', 't'] {
                assert(name[0] == '.');
            }
        }
    }
}

// ---------------------------------------------------------------------------
// Order of the library
// ---------------------------------------------------------------------------

/// The key by which documents are ordered: the lower-case relative path.
pub open spec fn document_key(entry: DocumentEntry) -> Seq<char> {
    lowercase_of(entry.relative_path@)
}

/// `sorted` is `documents` sorted stably by their lower-case relative paths.
pub open spec fn sorted_by_path(documents: Seq<DocumentEntry>, sorted: Seq<DocumentEntry>) -> bool {
    exists|order: Seq<int>|
        #![trigger is_permutation(order, documents.len())]
        is_permutation(order, documents.len()) && sorted.len() == documents.len() && (forall|
            i: int,
        |
            0 <= i < sorted.len() ==> #[trigger] sorted[i] == documents[order[i]]) && (forall|
            i: int,
            j: int,
        |
            #![trigger order[i], order[j]]
            0 <= i < j < order.len() ==> text_le(
                document_key(documents[order[i]]),
                document_key(documents[order[j]]),
            ) && (text_le(document_key(documents[order[j]]), document_key(documents[order[i]]))
                ==> order[i] < order[j]))
}

/// Orders documents by their lower-case relative paths, keeping the order of
/// documents whose keys are equal.
pub fn sort_documents(documents: Vec<DocumentEntry>) -> (sorted: Vec<DocumentEntry>)
    ensures
        sorted_by_path(documents@, sorted@),
{
    let mut keys: Vec<Vec<char>> = Vec::new();
    let mut i: usize = 0;
    while i < documents.len()
        invariant
            i <= documents.len(),
            keys.len() == i,
            forall|k: int| 0 <= k < i ==> (#[trigger] keys@[k])@ == document_key(documents@[k]),
        decreases documents.len() - i,
    {
        let lower = to_lowercase(documents[i].relative_path.as_str());
        keys.push(chars_of(lower.as_str()));
        i = i + 1;
    }
    let ghost all = documents@;
    let ghost all_keys = keys@;
    let sorted = stable_sort_by_keys(documents, keys);
    proof {
        let order = choose|order: Seq<int>|
            #![trigger is_permutation(order, all.len())]
            is_permutation(order, all.len()) && crate::sort::stably_sorted(all_keys, order)
                && sorted@.len() == all.len() && forall|i: int|
                0 <= i < sorted@.len() ==> #[trigger] sorted@[i] == all[order[i]];
        assert forall|i: int, j: int|
            #![trigger order[i], order[j]]
            0 <= i < j < order.len() implies text_le(
                document_key(all[order[i]]),
                document_key(all[order[j]]),
            ) && (text_le(document_key(all[order[j]]), document_key(all[order[i]])) ==> order[i]
                < order[j]) by {
            assert(all_keys[order[i]]@ == document_key(all[order[i]]));
            assert(all_keys[order[j]]@ == document_key(all[order[j]]));
        }
    }
    sorted
}

// ---------------------------------------------------------------------------
// Rendered PDF pages
// ---------------------------------------------------------------------------

/// A file found in a PDF's page cache.
#[derive(Clone, Debug, Eq, PartialEq)]
pub struct PageFile {
    pub path: String,
    /// The file's extension, when it has one.
    pub extension: Option<String>,
    /// The file's stem, when it has one that is valid UTF-8.
    pub stem: Option<String>,
}

/// The part of `s` after its last hyphen; all of `s` when it has none.
pub open spec fn after_last_hyphen(s: Seq<char>) -> Seq<char>
    decreases s.len(),
{
    if s.len() == 0 {
        s
    } else if s.last() == '-' {
        Seq::empty()
    } else {
        after_last_hyphen(s.drop_last()).push(s.last())
    }
}

/// The page number of a rendered page: the number after the last hyphen of
/// its stem; `usize::MAX` when there is none, so that such files come last.
pub open spec fn page_number_of(stem: Option<Seq<char>>) -> usize {
    match stem {
        Some(s) => match parse_usize(after_last_hyphen(s)) {
            Some(n) => n,
            None => usize::MAX,
        },
        None => usize::MAX,
    }
}

proof fn lemma_after_last_hyphen(s: Seq<char>, from: int)
    requires
        0 <= from <= s.len(),
        forall|k: int| from <= k < s.len() ==> #[trigger] s[k] != '-',
        from == 0 || s[from - 1] == '-',
    ensures
        after_last_hyphen(s) == s.skip(from),
    decreases s.len(),
{
    if s.len() == from {
        if from > 0 {
            assert(s.last() == '-');
        }
    } else {
        lemma_after_last_hyphen(s.drop_last(), from);
        assert(s.drop_last().skip(from).push(s.last()) == s.skip(from));
    }
}

/// The page number of a rendered page file, from its stem.
pub fn page_number(stem: Option<&str>) -> (n: usize)
    ensures
        n == page_number_of(
            match stem {
                Some(s) => Some(s@),
                None => None,
            },
        ),
{
    match stem {
        None => usize::MAX,
        Some(s) => {
            let chars = chars_of(s);
            let mut from = chars.len();
            while from > 0 && chars[from - 1] != '-'
                invariant
                    from <= chars.len(),
                    forall|k: int| from <= k < chars.len() ==> #[trigger] chars@[k] != '-',
                decreases from,
            {
                from = from - 1;
            }
            proof {
                lemma_after_last_hyphen(chars@, from as int);
            }
            match parse_usize_at(&chars, from) {
                Some(n) => n,
                None => usize::MAX,
            }
        },
    }
}

/// Whether a cache file is a rendered page: its extension is exactly `png`.
pub open spec fn is_png(file: PageFile) -> bool {
    file.extension matches Some(e) && e@ == seq!['p', 'n', 'g']
}

/// The rendered pages among the cache files, in the order found.
pub open spec fn png_files(files: Seq<PageFile>) -> Seq<PageFile>
    decreases files.len(),
{
    if files.len() == 0 {
        Seq::empty()
    } else if is_png(files.last()) {
        png_files(files.drop_last()).push(files.last())
    } else {
        png_files(files.drop_last())
    }
}

/// The page numbers of files.
pub open spec fn page_numbers(files: Seq<PageFile>) -> Seq<usize> {
    files.map_values(
        |f: PageFile|
            page_number_of(
                match f.stem {
                    Some(s) => Some(s@),
                    None => None,
                },
            ),
    )
}

/// The paths of files.
pub open spec fn page_paths(files: Seq<PageFile>) -> Seq<String> {
    files.map_values(|f: PageFile| f.path)
}

/// The paths of the rendered pages among the cache files, ordered by page
/// number; files whose numbers are equal keep the order in which they were
/// found.
pub fn order_rendered_pages(files: Vec<PageFile>) -> (pages: Vec<String>)
    ensures
        sorted_by_keys(page_paths(png_files(files@)), page_numbers(png_files(files@)), pages@),
{
    let mut paths: Vec<String> = Vec::new();
    let mut keys: Vec<usize> = Vec::new();
    let mut i: usize = 0;
    while i < files.len()
        invariant
            i <= files.len(),
            paths@ == page_paths(png_files(files@.take(i as int))),
            keys@ == page_numbers(png_files(files@.take(i as int))),
        decreases files.len() - i,
    {
        let file = &files[i];
        assert(files@.take(i + 1).drop_last() == files@.take(i as int));
        let png = match &file.extension {
            Some(e) => same_chars(&chars_of(e.as_str()), &vec!['p', 'n', 'g']),
            None => false,
        };
        if png {
            let ghost before = png_files(files@.take(i as int));
            paths.push(file.path.clone());
            keys.push(
                page_number(
                    match &file.stem {
                        Some(s) => Some(s.as_str()),
                        None => None,
                    },
                ),
            );
            assert(page_paths(before.push(*file)) == page_paths(before).push(file.path));
            assert(page_numbers(before.push(*file)) == page_numbers(before).push(
                page_number_of(
                    match file.stem {
                        Some(s) => Some(s@),
                        None => None,
                    },
                ),
            ));
        }
        i = i + 1;
    }
    assert(files@.take(i as int) == files@);
    stable_sort_by_keys(paths, keys)
}

// ---------------------------------------------------------------------------
// PDF details from the Poppler tools
// ---------------------------------------------------------------------------

/// The first line of `text`: everything before its first line feed.
pub open spec fn first_line(text: Seq<char>) -> Seq<char>
    decreases text.len(),
{
    if text.len() == 0 || text[0] == '\n' {
        Seq::empty()
    } else {
        seq![text[0]] + first_line(text.drop_first())
    }
}

/// Facts about the first line of a text: it is a prefix without line feeds,
/// followed by one when it is not the whole text.
pub proof fn lemma_first_line_len(text: Seq<char>)
    ensures
        first_line(text).len() <= text.len(),
        first_line(text) == text.take(first_line(text).len() as int),
        first_line(text).len() < text.len() ==> text[first_line(text).len() as int] == '\n',
        forall|k: int| 0 <= k < first_line(text).len() ==> #[trigger] text[k] != '\n',
    decreases text.len(),
{
    if text.len() > 0 && text[0] != '\n' {
        lemma_first_line_len(text.drop_first());
        let rest = first_line(text.drop_first());
        assert(first_line(text) == seq![text[0]] + rest);
        assert(text.take(rest.len() + 1 as int) == seq![text[0]] + text.drop_first().take(
            rest.len() as int,
        ));
        assert forall|k: int| 0 <= k < first_line(text).len() implies #[trigger] text[k] != '\n' by {
            if k > 0 {
                assert(text[k] == text.drop_first()[k - 1]);
            }
        }
    } else {
        assert(text.take(0) == Seq::<char>::empty());
    }
}

/// The prefix of the line that `pdfinfo` prints with the page count.
pub open spec fn pages_label() -> Seq<char> {
    seq!['P', 'a', 'g', 'e', 's', ':']
}

/// The rest of the first line of `text` that begins with `Pages:`.
pub open spec fn pages_field(text: Seq<char>) -> Option<Seq<char>>
    decreases text.len(),
{
    let line = first_line(text);
    if has_prefix(line, pages_label()) {
        Some(line.skip(6))
    } else if line.len() < text.len() {
        proof {
            lemma_first_line_len(text);
        }
        pages_field(text.skip(line.len() + 1 as int))
    } else {
        None
    }
}

/// The page count in the output of `pdfinfo`: the number on its first line
/// that begins with `Pages:`, around which white space is ignored (a carriage
/// return that ends the line among it). There is none when no line begins
/// so, or when that line does not hold a number.
pub open spec fn page_count_of(info: Seq<char>) -> Option<usize> {
    match pages_field(info) {
        Some(rest) => parse_usize(trim(rest)),
        None => None,
    }
}

/// The page count in the output of `pdfinfo`.
pub fn page_count_from_info(info: &str) -> (count: Option<usize>)
    ensures
        count == page_count_of(info@),
{
    let chars = chars_of(info);
    let label = vec!['P', 'a', 'g', 'e', 's', ':'];
    let mut start: usize = 0;
    assert(chars@.skip(0) == chars@);
    while start < chars.len()
        invariant
            start <= chars.len(),
            label@ == pages_label(),
            pages_field(info@) == pages_field(chars@.skip(start as int)),
            chars@ == info@,
        decreases chars.len() - start,
    {
        let ghost text = chars@.skip(start as int);
        proof {
            lemma_first_line_len(text);
        }
        let mut end = start;
        while end < chars.len() && chars[end] != '\n'
            invariant
                start <= end <= chars.len(),
                text == chars@.skip(start as int),
                forall|k: int| start <= k < end ==> #[trigger] chars@[k] != '\n',
                end - start <= first_line(text).len(),
            decreases chars.len() - end,
        {
            assert(text[end - start] == chars@[end as int]);
            proof {
                lemma_first_line_len(text);
            }
            end = end + 1;
        }
        assert(first_line(text).len() == end - start) by {
            if end < chars.len() {
                assert(text[end - start] == '\n');
            }
        }
        let ghost line = first_line(text);
        assert(line == chars@.subrange(start as int, end as int));
        if starts_with_at(&chars, start, &label) && 6 <= end - start {
            assert(has_prefix(line, pages_label())) by {
                assert(line.take(6) == chars@.skip(start as int).take(6));
            }
            let rest = string_from_range(&chars, start + 6, end);
            let rest_chars = chars_of(rest.as_str());
            let (from, to) = trim_bounds(&rest_chars);
            assert(line.skip(6) == rest_chars@);
            let number = string_from_range(&rest_chars, from, to);
            let number_chars = chars_of(number.as_str());
            assert(number_chars@.skip(0) == number_chars@);
            return parse_usize_at(&number_chars, 0);
        }
        assert(!has_prefix(line, pages_label())) by {
            if has_prefix(line, pages_label()) {
                assert(line.take(6) == chars@.skip(start as int).take(6));
            }
        }
        if end == chars.len() {
            return None;
        }
        assert(text.skip(line.len() + 1 as int) == chars@.skip(end + 1));
        start = end + 1;
    }
    assert(chars@.skip(start as int).len() == 0);
    assert(first_line(chars@.skip(start as int)) == Seq::<char>::empty());
    None
}


/// The first line of a line without line feeds, followed by a line feed and
/// anything, is that line.
proof fn lemma_first_line_of_line(line: Seq<char>, rest: Seq<char>)
    requires
        forall|k: int| 0 <= k < line.len() ==> #[trigger] line[k] != '\n',
    ensures
        first_line(line + seq!['\n'] + rest) == line,
    decreases line.len(),
{
    let text = line + seq!['\n'] + rest;
    if line.len() == 0 {
        assert(text[0] == '\n');
    } else {
        assert(text[0] == line[0]);
        assert forall|k: int| 0 <= k < line.drop_first().len() implies #[trigger] line.drop_first()[k]
            != '\n' by {
            assert(line.drop_first()[k] == line[k + 1]);
        }
        lemma_first_line_of_line(line.drop_first(), rest);
        assert(text.drop_first() == line.drop_first() + seq!['\n'] + rest);
        assert(line == seq![line[0]] + line.drop_first());
    }
}

/// A `Pages:` line of `pdfinfo` output gives exactly the number written on
/// it, whatever white space (other than a line feed) surrounds the number and
/// whatever lines follow: no larger count is cut down, none is rounded.
pub proof fn lemma_page_count_reads_number(
    lead: Seq<char>,
    digits: Seq<char>,
    trail: Seq<char>,
    rest: Seq<char>,
)
    requires
        forall|k: int| 0 <= k < lead.len() ==> is_white_space(#[trigger] lead[k]) && lead[k] != '\n',
        forall|k: int|
            0 <= k < trail.len() ==> is_white_space(#[trigger] trail[k]) && trail[k] != '\n',
        digits.len() > 0,
        forall|k: int| 0 <= k < digits.len() ==> is_digit(#[trigger] digits[k]),
        digits_value(digits) <= usize::MAX,
    ensures
        page_count_of(pages_label() + lead + digits + trail + seq!['\n'] + rest) == Some(
            digits_value(digits) as usize,
        ),
{
    let line = pages_label() + lead + digits + trail;
    assert forall|k: int| 0 <= k < line.len() implies #[trigger] line[k] != '\n' by {
        if k < 6 {
        } else if k < 6 + lead.len() {
            assert(line[k] == lead[k - 6]);
        } else if k < 6 + lead.len() + digits.len() {
            assert(line[k] == digits[k - 6 - lead.len()]);
            assert(is_digit(digits[k - 6 - lead.len()]));
        } else {
            assert(line[k] == trail[k - 6 - lead.len() - digits.len()]);
        }
    }
    lemma_first_line_of_line(line, rest);
    assert(line.take(6) == pages_label());
    assert(line.skip(6) == lead + digits + trail);
    assert(is_digit(digits[0]));
    assert(is_digit(digits.last()));
    lemma_trim_around(lead, digits, trail);
    assert(trim(line.skip(6)) == digits);
}

/// A line that does not begin with `Pages:` is passed over: the page count
/// is read from the lines after it.
pub proof fn lemma_page_count_skips_other_line(line: Seq<char>, rest: Seq<char>)
    requires
        forall|k: int| 0 <= k < line.len() ==> #[trigger] line[k] != '\n',
        !has_prefix(line, pages_label()),
    ensures
        page_count_of(line + seq!['\n'] + rest) == page_count_of(rest),
{
    let text = line + seq!['\n'] + rest;
    lemma_first_line_of_line(line, rest);
    assert(text.skip(line.len() + 1 as int) == rest);
}

/// The name of a PDF's page cache folder, made of the hash of its path, size
/// and modification time: sixteen lower-case hexadecimal digits.
pub fn cache_key_text(hash: u64) -> (key: String)
    ensures
        key@ == hex_digits(hash as nat, 16),
{
    hex16(hash)
}

// ---------------------------------------------------------------------------
// Previews
// ---------------------------------------------------------------------------

/// A rendered page of a PDF: the image file and, when it could be read, its
/// width and height in pixels.
#[derive(Clone, Debug, Eq, PartialEq)]
pub struct PdfPage {
    pub path: String,
    pub size: Option<(usize, usize)>,
}

/// The rendered pages of a PDF, and its page count when `pdfinfo` gave one.
#[derive(Clone, Debug, Eq, PartialEq)]
pub struct PdfPreview {
    pub pages: Vec<PdfPage>,
    pub total_pages: Option<usize>,
}

/// What the preview pane shows.
#[derive(Clone, Debug, Eq, PartialEq)]
pub enum DocumentPreview {
    Empty,
    Markdown(Vec<MarkdownBlock>),
    Pdf(PdfPreview),
    Error(String),
}

/// Why rendering a PDF failed: a file or program was not found (most often
/// the Poppler tools), or anything else, with its message.
#[derive(Clone, Debug, Eq, PartialEq)]
pub enum PdfRenderError {
    NotFound,
    Failed(String),
}

/// The preview of a Markdown document, from the outcome of reading it.
pub fn markdown_preview(relative_path: &str, source: Result<String, String>) -> (preview:
    DocumentPreview)
    ensures
        match source {
            Ok(s) => preview matches DocumentPreview::Markdown(blocks) && block_views(blocks@)
                == blocks_of(s@),
            Err(e) => preview matches DocumentPreview::Error(m) && m@ == "Could not read "@
                + relative_path@ + ": "@ + e@,
        },
{
    match source {
        Ok(s) => DocumentPreview::Markdown(parse(s.as_str())),
        Err(e) => {
            let mut message = String::new();
            append_str(&mut message, "Could not read ");
            append_str(&mut message, relative_path);
            append_str(&mut message, ": ");
            append_str(&mut message, e.as_str());
            assert(Seq::<char>::empty() + "Could not read "@ == "Could not read "@);
            DocumentPreview::Error(message)
        },
    }
}

/// The message shown when PDF rendering finds no program or file.
pub open spec fn poppler_missing_message() -> Seq<char> {
    "PDF rendering requires Poppler. Install it with `brew install poppler`, then restart Zuxi."@
}

/// The preview of a PDF document, from the outcome of rendering it.
pub fn pdf_preview(relative_path: &str, rendered: Result<PdfPreview, PdfRenderError>) -> (preview:
    DocumentPreview)
    ensures
        match rendered {
            Ok(p) => preview == DocumentPreview::Pdf(p),
            Err(PdfRenderError::NotFound) => preview matches DocumentPreview::Error(m) && m@
                == poppler_missing_message(),
            Err(PdfRenderError::Failed(e)) => preview matches DocumentPreview::Error(m) && m@
                == "Could not render "@ + relative_path@ + ": "@ + e@,
        },
{
    match rendered {
        Ok(p) => DocumentPreview::Pdf(p),
        Err(PdfRenderError::NotFound) => {
            let mut message = String::new();
            append_str(
                &mut message,
                "PDF rendering requires Poppler. Install it with `brew install poppler`, then restart Zuxi.",
            );
            assert(Seq::<char>::empty() + poppler_missing_message() == poppler_missing_message());
            DocumentPreview::Error(message)
        },
        Err(PdfRenderError::Failed(e)) => {
            let mut message = String::new();
            append_str(&mut message, "Could not render ");
            append_str(&mut message, relative_path);
            append_str(&mut message, ": ");
            append_str(&mut message, e.as_str());
            assert(Seq::<char>::empty() + "Could not render "@ == "Could not render "@);
            DocumentPreview::Error(message)
        },
    }
}

/// The note under a PDF preview that shows fewer pages than the document has:
/// `Showing the first N of M pages.`; none when every page is shown or the
/// page count is unknown.
pub fn pdf_page_notice(shown: usize, total_pages: Option<usize>) -> (notice: Option<String>)
    ensures
        match total_pages {
            Some(total) => if total > shown {
                notice matches Some(n) && n@ == "Showing the first "@ + decimal(shown as nat)
                    + " of "@ + decimal(total as nat) + " pages."@
            } else {
                notice is None
            },
            None => notice is None,
        },
{
    match total_pages {
        Some(total) => if total > shown {
            let mut notice = String::new();
            append_str(&mut notice, "Showing the first ");
            let count = decimal_text(shown);
            append_str(&mut notice, count.as_str());
            append_str(&mut notice, " of ");
            let all = decimal_text(total);
            append_str(&mut notice, all.as_str());
            append_str(&mut notice, " pages.");
            assert(Seq::<char>::empty() + "Showing the first "@ == "Showing the first "@);
            Some(notice)
        } else {
            None
        },
        None => None,
    }
}

// ---------------------------------------------------------------------------
// Rendering a PDF
// ---------------------------------------------------------------------------

/// Where rendering a PDF stands.
#[derive(Clone, Copy, Debug, Eq, PartialEq, Structural)]
pub enum PdfRenderState {
    /// Listing the pages already in the cache.
    ListingCache,
    /// Waiting for `pdftoppm` to finish.
    Rendering,
    /// Listing the pages that `pdftoppm` wrote.
    ListingRendered,
    /// Done: the last action was final.
    Finished,
}

/// What the caller observed after the last action.
#[derive(Clone, Debug, Eq, PartialEq)]
pub enum PdfRenderEvent {
    /// The rendered pages in the cache, in page order.
    Listed(Vec<String>),
    /// `pdftoppm` finished; whether it succeeded, and what it wrote to stderr.
    RendererExited { success: bool, stderr: String },
}

/// What the caller does next.
#[derive(Clone, Debug, Eq, PartialEq)]
pub enum PdfRenderAction {
    /// List the rendered pages in the cache.
    ListPages,
    /// Run `pdftoppm` on the first `MAX_PDF_PAGES` pages.
    RunRenderer,
    /// Show these pages.
    UsePages(Vec<String>),
    /// Give up with this message.
    Fail(String),
}

/// The message when `pdftoppm` fails: what it wrote to stderr, trimmed, or a
/// fixed message when that is empty.
pub open spec fn renderer_failure_message(stderr: Seq<char>) -> Seq<char> {
    if trim(stderr).len() > 0 {
        trim(stderr)
    } else {
        "pdftoppm exited without producing an image"@
    }
}

/// The message when the cache holds no pages after rendering.
pub open spec fn no_pages_message() -> Seq<char> {
    "the PDF contained no renderable pages"@
}

/// Which event each state waits for.
pub open spec fn expected_event(state: PdfRenderState, event: PdfRenderEvent) -> bool {
    match state {
        PdfRenderState::ListingCache => event is Listed,
        PdfRenderState::Rendering => event is RendererExited,
        PdfRenderState::ListingRendered => event is Listed,
        PdfRenderState::Finished => false,
    }
}

/// The first state and action: list what the cache already holds.
pub fn pdf_render_start() -> (start: (PdfRenderState, PdfRenderAction))
    ensures
        start == (PdfRenderState::ListingCache, PdfRenderAction::ListPages),
{
    (PdfRenderState::ListingCache, PdfRenderAction::ListPages)
}

/// The next state and action. Cached pages are used as they are; an empty
/// cache is filled by running `pdftoppm`; a failed run, or a cache that is
/// still empty after a successful one, ends in failure. The renderer is asked
/// for only from the first listing, and no step returns to it, so it runs at
/// most once.
pub fn pdf_render_next(state: PdfRenderState, event: PdfRenderEvent) -> (next: (
    PdfRenderState,
    PdfRenderAction,
))
    requires
        expected_event(state, event),
    ensures
        match event {
            PdfRenderEvent::Listed(pages) => if pages.len() > 0 {
                next == (PdfRenderState::Finished, PdfRenderAction::UsePages(pages))
            } else if state == PdfRenderState::ListingCache {
                next == (PdfRenderState::Rendering, PdfRenderAction::RunRenderer)
            } else {
                &&& next.0 == PdfRenderState::Finished
                &&& next.1 matches PdfRenderAction::Fail(m) && m@ == no_pages_message()
            },
            PdfRenderEvent::RendererExited { success, stderr } => if success {
                next == (PdfRenderState::ListingRendered, PdfRenderAction::ListPages)
            } else {
                &&& next.0 == PdfRenderState::Finished
                &&& next.1 matches PdfRenderAction::Fail(m) && m@ == renderer_failure_message(
                    stderr@,
                )
            },
        },
        next.1 is RunRenderer ==> state == PdfRenderState::ListingCache,
        next.0 != PdfRenderState::ListingCache,
{
    match event {
        PdfRenderEvent::Listed(pages) => {
            if pages.len() > 0 {
                (PdfRenderState::Finished, PdfRenderAction::UsePages(pages))
            } else if state == PdfRenderState::ListingCache {
                (PdfRenderState::Rendering, PdfRenderAction::RunRenderer)
            } else {
                let mut message = String::new();
                append_str(&mut message, "the PDF contained no renderable pages");
                assert(Seq::<char>::empty() + no_pages_message() == no_pages_message());
                (PdfRenderState::Finished, PdfRenderAction::Fail(message))
            }
        },
        PdfRenderEvent::RendererExited { success, stderr } => {
            if success {
                (PdfRenderState::ListingRendered, PdfRenderAction::ListPages)
            } else {
                let message = crate::text::trimmed(stderr.as_str());
                if message.as_str().is_empty() {
                    let mut fixed = String::new();
                    append_str(&mut fixed, "pdftoppm exited without producing an image");
                    assert(Seq::<char>::empty() + "pdftoppm exited without producing an image"@
                        == "pdftoppm exited without producing an image"@);
                    (PdfRenderState::Finished, PdfRenderAction::Fail(fixed))
                } else {
                    (PdfRenderState::Finished, PdfRenderAction::Fail(message))
                }
            }
        },
    }
}

} // verus!
