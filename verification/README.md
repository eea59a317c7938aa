# exif-catcher

A static photo-album generator: it lists the photos of a directory (optionally
recursively), extracts an EXIF summary of each, converts them to lossy WebP,
and writes one `exif.json` per album, optionally removing originals that were
converted.

- `src/` is the verified library (Verus): file-name rules, text parsing, the
  EXIF summary, WebP planning, path ordering, grouping into albums, output
  layout, totals, cleanup selection, command-line decisions and the
  interactive setup as a state machine. The EXIF block itself is read by the
  `kamadak-exif` crate behind one trusted wrapper (`exif_reader.rs`).
- `app/` is the command-line program around it: argument parsing, prompts,
  file system access, image decoding/scaling and WebP encoding, parallelism,
  progress bars and JSON output.
- `tests/` exercises the library on concrete values.
