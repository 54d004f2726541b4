# stars

A Hertzsprung-Russell diagram explorer for the terminal: every named star
of the HYG catalog with a usable parallax, plotted by effective temperature
and luminosity, with its numbers, its Wikipedia article and schematic
evolutionary tracks.

The project is split in two.

## `src/`: the verified library

Everything the explorer decides is written in Verus and proved against
its contracts:

- `browser`: the explorer's state and what every key does to it
  (`App::on_key`), with laws proved over the key model: the color modes
  form a cycle, `t` walks the tracks and comes back to off, `?` and `C`
  toggle their views, ESC returns to the article or quits, `n`/`p` and
  Tab/Shift-Tab undo each other.
- `grid`: which stars land in which plot cell (a `HashMap` keyed by the
  cell's number) and how the arrow keys walk to the nearest star in a
  direction.
- `catalog`: reading the catalog's header and rows, percent-encoding with
  its law (well-formed output, decoding gives the bytes back, unchanged
  exactly when nothing needs escaping), the Wikidata query, merging
  measured values ("first value wins, gaps filled"), and the retry policy
  for article downloads.
- `csv`: splitting and writing CSV lines, with the round-trip law.
- `article`: the layout of an article (no doubled blank lines, no
  reference sections).
- `data`, `display`, `search`, `order`, `text`: spectral and luminosity
  classes, colors, legends, panel layout, star search, stable ordering
  and the text helpers underneath.

The only trusted items are std's `String::push` and `str::to_lowercase`.

## `app/`: the program around it

`app/` holds what cannot be verified: the terminal drawing, file and
network I/O, the threads that download the articles, and every
computation on floating-point numbers (plot positions, temperatures and
luminosities derived from magnitudes and colors, color ramps). It calls
the library for every decision and checks each precondition before the
call.

The assistant feature runs the command named by the `STARS_ASSISTANT`
environment variable with the star's data and article as context.

## Tests

`tests/` runs the library on concrete values: one test per law, the edge
cases of each parser, and each error.
