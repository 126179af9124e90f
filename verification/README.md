# h7cad

The file-I/O layer of the H7CAD drawing editor as a Verus-verified library:
the text formats, codes, reports and decisions behind opening, exporting and
publishing drawings, each with a contract that Verus proves.

## Layout

- `src/` — the verified library.
  - `text`, `string_map` — character-level helpers and a string map with a
    sorted listing.
  - `cui` — the CUI key/value format (parse and serialise, with their round
    trip).
  - `diagnostics`, `open_error` — open notices, their counts and messages,
    and the classification of reader errors.
  - `native_codes`, `leader_roots`, `mtext` — the code tables between the
    native model and acadrust, multileader root splitting, MText code
    stripping.
  - `svg_export`, `pdf_export`, `color_policy` — the integer and text parts
    of the exporters (escaping, base64, colour tables, options).
  - `pid_store`, `pid_verify`, `pid_report` — the cache of opened PID
    packages, stream comparison, metadata edits and reports.
  - `pid_publish`, `publish_xml` — the SPPID publish bundle: writing the
    Data/Meta XML and object graph, and reading them back.
  - `preview_index`, `pid_layout`, `pid_panels` — how the PID preview indexes
    its entities, classifies layout glyphs and fills its text panels.
  - `raster` — integer rasterisation (Bresenham lines, midpoint circles,
    crosses) of the preview screenshot into an `image` buffer.
- `tests/` — tests run against the compiled library with the real outside
  crates.
- `app/` — the command-line front end: file I/O, acadrust document reading,
  and the floating-point geometry the library leaves out.
