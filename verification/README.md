# fastmail_cli

A command-line client and MCP server for Fastmail's JMAP API, whose logic is
a library verified with Verus.

- `src/` — the verified library: the data model, JSON as JMAP carries it, the
  method calls sent and the reading of their answers, composing (body
  structure, recipients of replies, threading headers, forwarded text), the
  confirmation tokens that guard sending from the MCP server, vCard and
  CardDAV multistatus parsing, attachment names and types, and the text
  helpers all of these rest on. Calls into `html2text`, `roxmltree`,
  `base64`, `uuid` and a few std functions stand behind small trusted
  wrappers whose contracts say what the library relies on.
- `app/` — the program around it: the command line (clap), HTTP (reqwest),
  the configuration file (toml), image resizing (image), document text
  extraction (kreuzberg) and the MCP server (rmcp, async-graphql).
- `tests/` — tests of the library.

The properties proved of the library as a whole are its public `law_*`
proof functions.
