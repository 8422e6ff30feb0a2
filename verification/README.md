# touch_markdown

Verified decision logic of two UI pieces:

- `touch_emu`: single-touch to mouse emulation. `TouchMouseEmulator::step`
  turns one touch update into the mouse events to synthesize and says whether
  the touch update still reaches the app. Laws: every run of updates yields a
  well-formed press / move / release stream; a second finger hands the gesture
  back; a finger left over from a pinch is never adopted.
- `slug`: GitHub-style heading anchors (`heading_slug`) with numeric suffixes
  that keep every anchor of a document distinct. On ASCII text a slug ignores
  letter case and the length of whitespace runs, and is its own slug.
- `events`: the markdown events the layout reads, produced by `pulldown_cmark`.
- `layout`: the layout state machine — for each event, the text flow
  operations to perform and the next state (block gaps, list numbering,
  heading anchors, code/splash blocks, math, tables, inline `<sub>`/`<sup>`).
- `markdown`: the widget as values (text, heading anchors, scroll position,
  streaming animation), its possibly empty handles, links, and the driver
  `Markdown::process_markdown_doc` that lays a document out on a
  `LayoutSurface`: the surface receives exactly the layout operations of the
  events, is asked for each heading's position right after its start, and
  the anchors are named by successive `heading_slug` calls.
  `RecordingSurface` is a surface that keeps every call.
- `text`: the character classes and string operations of the standard library
  used above, with what their documentation promises.

`app/` holds the floating-point geometry (font scales, alignments, scroll
clamping) that the verified part leaves to the text flow, and `FlowSurface`,
which performs the layout operations on a drawing text flow.
