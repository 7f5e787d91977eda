# mgr

A local web reader for `.cbz` manga volumes, with Mokuro OCR support.

- `src/` is the library, verified with Verus: image header parsing
  (`image`), path rules (`path`), natural ordering of names (`natural`),
  zip archive listing and volumes and their pages (`cbz`), mangas and read-list checks (`manga`,
  `readlist`), the flat page index (`global_index`), the page cache and
  prefetch window (`window`), and the decisions of the HTTP routes
  (`routes`).
- `app/` is the program around it: command line, file access, TOML and
  JSON encoding, and the HTTP server. Archives are read into memory and
  listed by the library.
- The reader's web files (`index.html` and the rest) are not built into the
  binary: they are served from an `assets` directory beside the executable,
  or else from one in the current directory. Without it, every asset request
  answers 404.
- `tests/` runs the library on concrete inputs.
