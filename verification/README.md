# aura

A shell wrapper that runs the user's shell inside a pseudo-terminal, captures the output of
each command, and shows it either verbatim or summarized by a local language model.

- `src/` is the verified library: the capture state machine (`pty`), configuration and its
  validation (`cfg`), the summarizing decisions and displayed bytes (`compress`,
  `summarize`), the framing of terminal content inside model prompts (`fence`), the
  control-line commands and replies (`cmd`, `cli_server`, `server`), chunk selection,
  batching and naming for the semantic memory (`ingest`, `rag`, `aura::help`), and the
  character-level text operations they share (`text`). Each public function carries a
  contract that Verus checks; the `lemma_*` proof functions state the properties that hold
  across calls.
- `app/` is the program around it: PTY and terminal I/O, the sockets, the model clients,
  and the floating-point similarity search.
