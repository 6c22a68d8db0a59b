# theywork_render

Parts of the presentation logic of a terminal "virtual office" for coding
agents, written in Verus: every function in `src/` carries a contract and is
proved to meet it. The library holds the text, geometry, pixel drawing,
search, reading, command-panel and layout logic; composing whole views into
a terminal frame, and the character sprites, are not part of it.

## Layout

- `src/` — the verified library.
  - Text: `text` (safe display, wrapping, widths, elision, durations),
    `sign` (project labels, sign lines, plate names), `finder` (searching
    the project directory), `work` (activity and outcome wording, work
    records and briefs), `markers` (bounded reading markers), `reading` and
    `inspector` (reading position and inspector state), `input` (text
    fields), `control` and `panel` (the command panel: requests, answers,
    drafts and the commands handed to the host), `keyed` (small text-keyed
    maps), `counts` (worker tallies), `views` (projections, channels,
    tabs), `cameras` (the plan of one camera tile).
  - Geometry: `layout` (terminal rectangles, camera grid, desk pages,
    windows), `room` (flat rooms, figure sizes), `iso` (the isometric grid,
    painting order, the manager's walk), `plates` (name plate placement),
    `tower` (tower cells and the city outside), `meeting` (teams from
    delegation links), `motion` (idle walks).
  - Pixels: `canvas` (the pixel canvas), `shapes` (lines, outlines,
    diamonds), `polygon` (scanline fill), `floor`, `backdrop`, `furniture`,
    `sky`, `scene` and `title` (the parts of a room), `color` (blending,
    sky, palettes).
- `tests/` — tests run against the compiled library.
- `app/` — glue to ratatui, crossterm and serde_json: colour, rectangle and
  key conversions, request responses between JSON values and text, painting a canvas into a frame, and the stored form of the
  reading markers.
