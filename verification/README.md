# rustdate

A parser for the date and time layouts that turn up in practice, written in Verus: every
function of the library has a contract, and the contracts are proved. Four calls, into
std and rayon, are trusted to do what is stated beside them.

| Layout | Examples |
|---|---|
| ISO 8601 | `2026-09-06`, `2026-09-06T14:23`, `2026-09-06T14:23:45.123456Z` |
| ISO 8601 with an offset | `...+05:30`, `...+0530`, `...-07:00`, `Z` |
| Numeric | `06/09/2026 14:23:45`, `12-25-2026 8:05 AM` (`dayfirst` flips the order) |
| With a month name | `Sep 6 2026`, `Sep 6, 2026`, `6 Sep 2026`, with or without a time |
| HTTP and e-mail | `Sun, 06 Sep 2026 14:23:45 GMT` (the weekday is skipped) |
| Named zones | GMT, UTC, Z, UT, EST, EDT, CST, CDT, MST, MDT, PST, PDT, IST (+05:30) |

`parse` reads one text and `parse_many` a list of them, in parallel, up to the first text
that cannot be parsed.

## Modules

- `text`, `token`: characters, strings, and the tokens of a text
- `read`, `names`, `offset`, `clock`, `calendar`, `date`: the parts of a date and time
- `parser`, `batch`: one text, and many
- `debug`: what std's `Debug` writes, for messages
- `laws`, `layout`, `invariance`: what holds of the parser as a whole. `layout::law_layouts`
  says what a text in a supported layout is parsed into; `invariance` says what makes no
  difference to that (a weekday, white space, the case of letters).

Functions that take tokens ask for tokens as `tokenize` makes them.

`app/` is the Python module around the library, made with pyo3.
