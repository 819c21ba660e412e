# pdf2clipboard

A viewer that shows the pages of a PDF document as thumbnails and copies a
chosen page, rendered at a chosen resolution, to the system clipboard as an
image. It runs as a desktop program and in a browser.

The library (`src/`) is verified with Verus:

- `pdf_date` and `calendar`: PDF date strings (`D:YYYYMMDDHHmmSSOHH'mm'`) read
  as seconds since the Unix epoch, against a day count of the proleptic
  Gregorian calendar.
- `text` and `converters`: character-level text handling (whitespace, trimming,
  lines), the rejoining of key-value pairs split across lines in
  extracted page text, and the choice of output converter by format name.
- `viewer`: the viewer's decisions: thumbnail sizes, interface language,
  thumbnail render order, keyboard navigation, download sources, file names,
  and what loaded data is taken as a PDF.
- `session`: the state of a viewing session and how user actions and finished
  background jobs change it; results of superseded work are dropped by
  generation counters.
- `clipboard_image`: the byte layouts a page image is handed to the
  clipboard in (RGBA rows, or a bottom-up 24-bit bitmap with its header).

The program around it (`app/`) does the rendering, threads, downloads, the
clipboard calls and the user interface; `tests/` runs the library.
