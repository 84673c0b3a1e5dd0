# aozora-flavored-markdown-epub

Builds EPUB 3.3 books from Aozora Flavored Markdown manuscripts, with the
packaging logic verified by Verus.

- `src/` is the verified library: source selection and path handling
  (`paths`), metadata validation (`metadata`), decoding and the chapter
  documents (`render`), the XML writer interface (`xml`), the container,
  package and navigation documents (`compose`), the ZIP layout
  (`package`), ADR numbering and scaffolding (`adr`), and properties that
  span several of them (`laws`).
- `app/` is the command line around it: reading `book.toml` and the
  manuscript from disk, rendering Markdown to HTML, and writing the ZIP.
- `tests/` runs the library on concrete manuscripts.
