# sadhana_frontend

The logic of a practice-tracking web app (a daily diary of spiritual
practices, charts and grids of reports, and yatras: groups that practise
together), written in Verus with its behaviour stated in contracts and
proved.

- `src/` is the verified library: report definitions and the graph editor,
  chart data and averages, colour zones and their preview, the duration and
  time input masks, the diary's checks and dropdowns, CSV export and import,
  yatra statistics and practice links, the release channel cookie, the API's
  paths and how a response becomes an error.
- `tests/` runs the library on concrete values.
- `app/` is the browser side: cookies, local storage, requests with
  `reqwest`, reading an import file, and the JSON forms of the report types.

Calls into `chrono`, `csv` and `urlencoding` stand behind small trusted
functions whose contracts say what those crates do.
