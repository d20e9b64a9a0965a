# gh_projects_web

The logic of the GH Projects web front end (dashboards of `gh` query tiles,
private notes, war rooms, release calendars), as a Verus-verified library.

`src/` holds the verified library, by topic:

- `gh_query`, `table`: expanding a tile's commands, reading the repository,
  number and key of result rows, columns (with the derived `authorGroup`
  column), hidden columns, the priority order and its edits, column filters
  and the sort controls.
- `field_extractors`, `settings`: what a cell shows, and the merge of default,
  global and per-tile extractors; author groups and stage emojis.
- `war_room`, `slack_summary`: stages, group rollup status, mirrors, the
  Slack update, and how its summary form relates to the detailed one.
- `calendar`, `datetime`: calendar arithmetic, status and countdown badges,
  month navigation and day cells.
- `markdown`, `api`, `backup`, `dashboard`, `display`, `forms`, `releases`:
  rendering, request paths and error messages, backup file names and restore
  bookkeeping, the dashboard grid, small display rules, dialog submissions,
  release tags, scoreboard totals.
- `text`, `text_map`, `json`, `types`: strings, a sorted map, a JSON value and
  the API's plain data types.

`app/` is the browser side: HTTP calls, local storage, JSON decoding into the
library's types, and the computations on floating point or the clock.
`tests/` exercises the library on concrete values.
