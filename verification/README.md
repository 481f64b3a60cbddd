# claw_ql

A JSON client for a SQL database. Collections and links between them are
declared at run time; requests arrive as JSON values
(`{"op": ..., "body": ...}`) and are answered with `{"output": ...}` or
`{"error": ...}`.

The library in `src/` is written in Verus. Every function in it is verified
against its contract, except a handful of small trusted wrappers around
`convert_case` and std calls, whose contracts are stated in their doc
comments:

- `registry` holds the declared collections and links, refuses duplicate
  declarations and produces the migrations (`CREATE TABLE`, `ALTER TABLE`,
  junction tables, timestamp triggers);
- `request` decodes request bodies; `filters`, `query`, `statements` and
  `data` build SQL text and bound values;
- `insert`, `fetch`, `fetch_many`, `update` and `delete` plan each operation
  and, as a `Session`, hand out the statements to run and turn the rows that
  come back into the response;
- `json` and `json_text` write and read JSON text; `json_roundtrip` proves
  that what is written reads back as the same value;
- `client` dispatches a request, given as a value or as text, to all of the
  above;
- `json_value_cmp` matches values against patterns, and proves that a value
  matches the pattern written from it;
- `sub_arc`, `clear_double_space` and `utils_some_is_err` are small
  utilities: substrings of shared text, collapsing runs of spaces, turning
  an optional error into a result;
- `json_client_v1`, `json_client_channel` and `partial_serde` hold the rules
  of the channel clients: declaration checks, page-query planning, and
  substrings of shared text.

The crate under `app/` is ordinary Rust: it runs the statements that a
session hands out on SQLite through `sqlx`, reads the rows back by the
column types the library gives, and returns the response text.
