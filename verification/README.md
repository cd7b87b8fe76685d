# switchyard

A capability router for agentic workflows: it classifies each prompt of an
OpenAI-compatible chat request, picks the backend for its category (or the
fallback), forwards the request, and logs the decision for a dashboard.

## Layout

- `src/` — the router's own logic, verified with Verus:
  - `config`, `proxy` — the configuration, backend lookup and the changes the
    dashboard makes to the list of backends;
  - `env_file`, `keys` — the `.env` file that holds the backends' API keys:
    reading, writing (sorted), and the keys of each backend, with the laws that
    a written file reads back as the keys it was written from;
  - `chat` — the prompt that a chat request is routed by;
  - `forward` — what the router answers and logs for each outcome of
    forwarding a request to a backend;
  - `weights`, `labels` — the classifier's weight file layout and label file;
  - `vector` — the example store's model names, seed examples and pruning;
  - `cli`, `dashboard` — what the command line and the dashboard show of a
    route event;
  - `text` — character-level helpers (Unicode whitespace, trimming, search).
- `app/` — the program around it: the command line, the HTTP server, SQLite,
  embeddings, the float arithmetic of the classifier, and file I/O.
- `tests/` — tests of the library.

Floats (scores, thresholds, prices) are carried through the library as their
bit patterns and are only computed with in `app/`.
