# fetchly

A shopping-list service that keeps each item on a Todoist list pointed at the
cheapest matching product among the price lists that Croatian grocery chains
publish daily.

## Layout

- `src/` — the library, verified with Verus:
  - `pricelist`, `columns`, `archive`: reading the chains' CSV price lists
    (delimiter detection, header matching, usable rows, ZIP archives);
  - `links`, `stores`: where each chain publishes its list for a day;
  - `catalog`: the normalised search form, the full-text query, and the
    removal of rows listed twice;
  - `search`: semantic selection, brand blacklist and the stable
    cheapest-first ordering;
  - `todoist`, `sync`, `api`: the metadata block in a task's description,
    the description text of a product and its reading, the section cache;
  - `gemini`: the question put to the language model and the reading of its answer;
  - `units`, `ui`, `text`: pack sizes, page decisions, character primitives.
- `tests/` — tests of the library on concrete values.
- `app/` — the program: HTTP server, database, HTTP clients, and the number
  parsing and formatting of prices.
