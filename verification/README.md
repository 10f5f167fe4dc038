# coding_agent

A terminal coding agent: it streams answers from an OpenAI-compatible chat
endpoint, shows them in a terminal interface, and runs the tools the model
asks for (read a file, write a file, run a shell command).

The decisions are a Verus-verified library under `src/`:

- `json` — a model of JSON values with a mathematical view, and accessors.
- `stream` — what a streamed response brings, chunk by chunk: finish reason,
  content, reasoning, and tool calls gathered by index.
- `agent` — the conversation: user, assistant and tool messages, the request
  body, how a round ends, and what to do with each tool call.
- `tools` — the arguments each tool takes, and how a shell command's run is answered.
- `specs` — the tool descriptions offered to the model.
- `events` — what the agent reports to the interface.
- `interface` — the interface's state: history blocks, the prompt being typed,
  prompts waiting for the agent, keys, clicks, and the layout of the history.
- `laws` — properties that relate several operations.

`app/` holds the program around it: the network client, the terminal, the
file system and the process runner, and the loops that wait on them.
