# karakuri

A small coding agent for the terminal, with its decision logic verified in Verus.

- `src/` is the library. It is pure: it decides which commands may run, where paths may lead,
  what a model's reply means, what a tool needs next, how a turn of the conversation goes on, and
  how text is drawn. Each function states in its contract what it returns.
- `app/` is the program around it. It reads the environment, talks to the model over HTTP,
  performs the operations that the library asks for, and hands the outcomes back.
- `tests/` runs the library on concrete values, with files held in memory.

## The library

| Module | What it decides |
| --- | --- |
| `text`, `number`, `path` | text as sequences of characters, decimal numbers, Unix paths |
| `exec` | which commands the `exec` tool may run |
| `tool`, `json` | how tools are described to the model, how its calls are read |
| `tool_run`, `listing`, `world` | how a tool runs step by step, and what comes of it as a whole |
| `agent`, `message`, `capabilities` | a turn from the user's words to the model's answer |
| `model` | requests, whole replies and streamed replies |
| `runtime`, `nix_runtime`, `sandbox`, `ssh_runtime`, `base64` | local, Nix, sandboxed and remote execution |
| `markdown`, `ui` | answers on the terminal |
| `config`, `cli`, `session`, `prompt`, `error` | settings, input, the conversation on disk, errors |

Functions whose names begin with `law_` state what holds of several functions together.

What the library takes from elsewhere without proof stands in three places: `text` (four
functions of the standard library), `runtime` (one) and `json` (`serde_json`).
