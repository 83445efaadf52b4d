# gt_core

Reading, editing and writing vMix GT Title Designer packages (`.gtzip`,
`.gtxml`), and converting titles to HTML.

- `src/` is the library, verified with Verus: the package container and its
  text encodings, the document's structure and attributes, brushes and
  colours, data fields, storyboard edits, warnings, the HTML helpers that hold
  no geometry, and the writer of documents and packages. Each public function
  states what it returns in its contract; the laws of the library (round trips
  of colours, kind names, base64 and written packages, what edits keep) are
  proof functions beside the code they speak of.
- `app/` is the command-line tool and the MCP server around the library: file
  and network I/O, JSON, the model with its floating-point geometry, the
  animation evaluator and the HTML layout.
- `tests/` runs the library on concrete titles.
