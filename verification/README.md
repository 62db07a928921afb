# chat_cli

A terminal client for chat models. The rules of the client are a library that Verus verifies;
the program around it does the talking to files, terminals, processes and the network.

- `src/` is the library. Every function states what it returns, and Verus proves it. Among the
  modules are the markdown and stream renderers (`render`, `stream`), the decoding of replies
  (`sse`, `reply`), the requests (`provider`), the sessions (`session`, `session_log`,
  `transcript`), the tools (`tools`, `actions`, `edit`, `diff`, `shell`, `skills`, `paths`), the review of
  tool calls (`audit`), servers of tools (`mcp`, `mcp_search`) and the interactive editor
  (`editor`, `composer`, `popup`, `screen`, `panels`).
- `tests/` runs the library on concrete values.
- `app/` is the program `chat`. The environment variable `CHAT_CLI_SKILLS_DIR` names the directory
  of skills, by its path below a project and below the home of the user; the library takes it as an
  argument.

Properties that relate several functions are proof functions whose names begin with `law_`.
