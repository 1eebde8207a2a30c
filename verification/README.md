# wzlib-rs

Reading, decoding, editing and converting MapleStory WZ image data, with
the behaviour of each function stated as a contract and proved by Verus.

- `src/` — the verified library: the binary reader and key stream
  (`reader`, `crypto`), the property grammar and its parsers (`grammar`,
  `parse`, `path`, `lazy`, `lookup`), canvas decoding and inflation
  (`pixel`, `dxt`, `image`, `inflate`, `canvas_png`), the XML export and
  import (`xml`, `export`, `attrs`, `xml_import`, `b64`) with the laws that
  tie them together (`xml_laws`), reading and
  editing a property tree (`tree`, `node`, `json`, `typed`), directories
  (`directory`), region versions (`version`) and the input checks callers
  need (`limits`).
- `tests/` — tests of the library on concrete data.
- `app/` — the Python bindings (PyO3), the float text handling of the
  XML export and import, and the decoding of RGBA32Float canvases.

Canvas formats: every WZ pixel format is decoded except BC7, which is
reported as `UnsupportedPngFormat(4098)`; RGBA32Float holds floating-point
channels and is decoded by the bindings in `app/`. Video properties keep
their data bytes; the MCV header at their start is not parsed.
