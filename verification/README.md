# anyflipdl

Downloads documents published on Anyflip and saves them as PDF or EPUB.

- `src/` is the verified library (Verus): URL validation and parsing,
  reading a document's `config.js` (old and new shapes), probing for the
  page count, page URLs and page response checks, the download queue,
  settings, temporary page storage, output file naming, update checks,
  preparing page images for the PDF, building the EPUB, and the decisions
  taken between the phases of a download.
- `app/` is the command-line program around it: HTTP, files, PDF layout,
  and the tasks that run downloads.
- `tests/` holds the tests of the library.
