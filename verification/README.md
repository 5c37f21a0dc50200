# based_scrapper

Collects the job postings that a set of employers publish for Romania and
writes each employer's postings to a JSON file of its own (title, link,
company, country, city, and an id).

- `src/` is the verified library (Verus). One module per employer reads the
  postings out of what its careers site answers, HTML or JSON, and says which
  pages to ask for; `job`, `json`, `html`, `pattern`, `text`, `paging`,
  `feed` and `transliterate` hold the shared model and helpers. HTML parsing
  and CSS selection (`scraper`), regular expressions (`regex`), ASCII
  transliteration (`unidecode`), title case (`titlecase`), xxHash
  (`twox-hash`) and JSON string escaping (`serde_json`) are called through
  small trusted functions; their contracts name the results, except for
  JSON string escaping, which is stated in full.
- `app/` is the program: HTTP requests (`reqwest`, `tokio`, `futures`),
  JSON decoding into the library's model, output files and timing.
- `tests/` runs the library on concrete pages and feeds.
