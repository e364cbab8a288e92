# adocpdf

Renders AsciiDoc to PDF, with Typst as the layout engine.

```
adocpdf <INPUT> <OUTPUT> [--project-root DIR] [--date YYYY-MM-DD]
```

## Layout

- `src/` is the library, verified with Verus: the document model, the
  mapping from the parser's tree to that model, the inline marker encoding
  and its decoder, theme planning, the project-root sandbox, the markup the
  engine is given, the refusals at the parse boundary, the calendar, and the
  wording of every message and report. Each public function states what it
  returns in its contract; the laws that relate functions are public proof
  functions beside them.
- `app/` is the program around it: the command line, the filesystem, the
  upstream parser's inline renderer and the conversion of its tree, the
  engine's world and PDF export, and the page and type measurements, which
  are floating point.
- `tests/` runs the library on concrete values.
