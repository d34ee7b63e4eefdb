# typst_docx

A visually faithful DOCX exporter for Typst paged documents. Every page
element (text line segment, shape, image) becomes an absolutely positioned
DrawingML object on its page, so that Word 2013 and later shows the document
as Typst's PDF output does. The result is not meant to be edited.

## Layout

- `src/` — the verified library, written in Verus:
  - `xml.rs`: the streaming XML builder, modelled as a tree that it
    serializes; anchored drawing runs; colors; control-character stripping.
  - `parse.rs`: a reader for written XML, and the law that what the
    builder writes reads back as the tree it built.
  - `font.rs`: font references, the font table, embedding permissions,
    deterministic GUIDs and ODTTF obfuscation.
  - `image.rs`: the media collection and anchored pictures.
  - `paint.rs`: solid colors and native linear/radial gradient fills.
  - `shape.rs`: rectangles, lines and curves as `wps:wsp` shapes.
  - `text.rs`: text boxes with an exact baseline, and the choice of the
    vertical metrics a line is laid out with.
  - `page.rs`: one section per page, carrier paragraphs, page backgrounds,
    and the batching of a page's items.
  - `package.rs`: the OPC parts and the ZIP package.
  - `args.rs`: command-line arguments and `--input key=value` parsing.
- `app/` — the command-line program: compiling Typst sources, walking the
  laid-out frames, and the floating-point geometry (unit conversion,
  transform classification, glyph fragmenting and segment merging) that
  hands the library integer positions.
- `tests/` — tests of the library.
