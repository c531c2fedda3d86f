# Zuxi

A Markdown and PDF viewer. The `zuxi` library (`src/`) holds the document
model and every decision the viewer makes, each with a Verus contract:

- `markdown`: the `pulldown-cmark` event stream and its fold into headings,
  paragraphs, code blocks, quotes, list items and rules; document titles.
- `document`: which files are documents, their titles and order, rendered
  PDF page order, `pdfinfo` page counts, preview messages, and the steps of
  rendering a PDF with Poppler.
- `library`: the discovered documents and the selection, kept across reloads.
- `theme`, `tokens`, `components`: semantic colours of the light and dark
  themes and the colours each component variant uses.
- `text`, `sort`: trimming, decimal and hexadecimal text, lexicographic order
  and a stable sort by keys.

`app/` is the GPUI program around it: the window, drawing, folder walking,
file reading and the Poppler subprocesses.
