# wse_trader

Ranks companies listed on the Warsaw Stock Exchange: it reads their ratings
from a rating page, keeps those whose Altman rating and Piotroski F-score are
accepted, reads their indicators (P/E, ROE, P/BV, P/BVG) from each company's
indicators page, and keeps those whose indicators meet the requirements.

- `src/` is the verified library: the text patterns that pick values out of
  the pages (`patterns`, `text`), the links to the indicator pages and their
  rewriting (`urls`), the records exchanged (`shared_types`), the ranking
  (`ranked_companies`), the page of results (`frontend`), the tables of a page
  (`tables`) and the command line (`cli`).
- `app/` holds the services around it: the back end, the web front end and a
  command-line ranking, with their HTTP, file and single-precision work.
- `tests/` exercises the library, among others against the regular
  expressions that the patterns stand for.
