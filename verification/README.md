# http_server_lib

A small HTTP/1.1 server. The library in `src/` holds its logic, verified
with Verus:

- `text` — whitespace tokens, splitting on a character, lines, trimming,
  header-line splitting;
- `decimal` — writing and reading decimal numerals (`Content-Length`);
- `headers` — the header map of a request;
- `body` — request bodies (text when UTF-8, bytes otherwise);
- `response` — framing of responses (length, blank line, body);
- `segmented` — requests whose path is split into segments, the byte
  templates, and the routing of the thread-per-connection server;
- `raw_path` — requests that keep the raw path, the text templates, and the
  routing of the thread-pool server;
- `args` — the `--directory` command-line option.

`app/` holds the program: sockets, threads, the thread pool, file access,
and a hyper-based variant.
