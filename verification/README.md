# koala

An extensible terminal agent. Its library, which holds the agent's decisions,
is verified with Verus.

- `src/` is the library, every function of it verified: configuration and
  localization, the chat-completions stream parser and aggregator, prompt
  assembly, tool gating and permissions, the ReAct turn and each tool call as
  state machines (budgets, rounds, hooks, approvals, one result per call),
  context compaction, background tasks, the session graph, transcripts and
  the work journal, file reading and search windows, skills and todos, the
  extension host (registration, answer checks, hook middleware, manifests,
  declarative UI), images, and the memory knowledge base (tokenization and
  BM25 statistics, chunking, distillation, dreaming, store queries).
  Calls into `serde_json`, `pulldown-cmark`, `glob`, `regex`, `image`,
  `base64` and `url` go through small trusted wrappers whose
  contracts name or state what those crates return.
- `app/` is the `koala` command: configuration files, the HTTP stream, the
  loop that performs what the turn and call machines ask for (requests,
  compaction through the model, shell hooks, extension tools, approvals on the
  terminal), extension processes and installation, and BM25 ranking (floating
  point). It offers the model the extensions' tools; the built-in file, shell
  and search tools are not wired into the command.
- `tests/` exercises the library on concrete values.
