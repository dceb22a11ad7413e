# zotero_cli

A verified library for a command-line client of the Zotero reference manager: the logic of its
commands, stated in `requires`/`ensures` contracts and proved with Verus.

- `src/` is the library. It holds the document model and its XML reading and writing
  (`xml`, `xml_events`, `xml_read`), the Word document conversion and rendering (`docx_*`,
  `static_render`, `csl`), the import pipeline (`import_*`, `attachment_*`, `add_file`,
  `add_import`), the catalog reads over rows already fetched (`catalog`, `db`, `select`),
  library hygiene, the audit log, the doctor report and the JSON value model (`json`).
  Calls into std and outside crates (regex, html-escape, sha2, quick-xml, serde_json) sit
  behind small trusted wrappers whose contracts name what the call returns. The requests made
  of Zotero's bridge, connector and web services go through logging clients
  (`LoggedBridge`, `LoggedConnector`, `LoggedFetcher`), so the contracts of the import and add
  commands state each request and what follows from its answer. The laws that span functions
  are in `laws` and `bibtex_laws`.
- `tests/` runs the library on concrete values.
- `app/` is the program around it: file, archive, database and network I/O, the conversion
  between the library's JSON values and `serde_json`, and the commands it runs (audit tail,
  style list, docx fields, app launch, and importing a file or JSON through the connector).
