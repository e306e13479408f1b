# venus

The logic of the `venus` coding-assistant command line, written in Verus and
proved against its contracts: text and prompt editing, completion and fuzzy
ranking, markdown rendering and wrapping, permission rules, hooks, cron
schedules and the job scheduler, server-sent events and the assembly of a
streamed reply, request retries, conversation compaction (its plan, summary
retries and circuit breaker), the token breakdown of a conversation's context,
slash-command dispatch and the arguments of built-in commands, the layout of
the transcript (tool-output trees, diff rows, dividers, user cards), tasks,
skills, plugins, the LSP wire format and responses, and the JSON that is sent
to the API.

Layout:

- `src/` — the verified library. Each module states its behaviour with spec
  functions over plain values (`Seq`, `int`, views of strings and vectors);
  public proof functions named `law_*` state properties that span calls.
  The few calls into other crates (`regex`, `unicode-width`, `serde_json`,
  `chrono`, `uuid` and some of `std`) sit behind small trusted wrappers whose
  doc comments say what is assumed of them.
- `tests/` — tests run against the compiled library.
- `app/` — the program around the library: argument handling, terminal and
  file I/O, the clock loop of the scheduler, and JSON parsing.
