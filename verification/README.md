# ogham

Ogham manages EPUB novels: it unpacks a book into a standardized workspace
(`OEBPS/Text`, `Styles`, `Images`, `Fonts`, with `content.opf`, `nav.xhtml`
and `toc.ncx`), keeps the table of contents, converts text between
Simplified and Traditional Chinese, downloads remote images into the book,
indexes resources and their references, and packs the workspace again.

## Layout

- `src/` is the library, verified with Verus. Every public function states
  its result in `ensures` over spec functions and views: the analysis of a
  package and the discovery of files its manifest leaves out, the standard
  paths and the rewriting of references between files, the table-of-contents
  parsers and renderers, the OPF reader and writer, the resource index, and
  the step functions of the image and conversion runs.
- `src/` calls outside crates only through small trusted items whose
  contracts describe them: `regex` (matching), `quick-xml` (reading the
  package document), `zhconv` (Chinese conversion) and `base64`.
- `tests/` exercises the library on concrete values.
- `app/` is the command-line program around the library: it reads and
  writes the files, opens the EPUB archive (`epub`, `zip`), downloads images
  (`reqwest`), and prints results as JSON (`serde`, `serde_json`). It drives
  the image and conversion runs of the library step by step.
