# gac

A commit message generator for llama-swap: it reads the staged diff, picks
how much of it the model can see, builds the prompts, streams the reply,
checks it against Conventional Commits and commits after approval.

- `src/` is the verified library (Verus): diff parsing and priority
  ordering, strategy choice, prompt texts, commit message validation and
  repair, scope detection, configuration rules, API key sealing, the
  event-stream reader and the decisions of a run.
- `app/` is the command line around it: arguments, files, git processes,
  HTTP, terminal output and dialogs.
- `tests/` runs the library on concrete inputs.
