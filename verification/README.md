# ds

`ds` is a DeepSeek chat agent for the terminal: it streams the model's
replies as Markdown, lets the model list, read and write files in the
directory where it starts, and runs shell commands the user approves.

The decisions of the program live in `src/`, a library verified with Verus:

- `config` — the configuration file's path, text format and parsing
  (what is saved is what is loaded back);
- `deepseek` — the streamed chat completion: event lines, each event's
  JSON chunk, content and fragmented tool calls;
- `models` — the model names read from the `/models` response body;
- `agent` — key and model selection, prompt commands, and the state
  machine of one request: after each reply or tool outcome it decides the
  next step (ask again, run the next call, finish, or fail at the round
  limit), and it keeps the transcript in shape: every call of a reply is
  answered in order, a finished request ends with a reply that asks for no
  tool, and a failed one leaves the transcript as it was;
- `tools` — the tools offered to the model and the state machine that
  carries out a call, from the JSON text of its arguments: paths stay
  relative (Unix paths) and inside the working directory, and every write
  and command waits for the user's approval;
- `terminal` — Codex-style bullets, the separator, escaping, prompts,
  confirmations, the API key check and the model menu;
- `guidance` — which `.deep` files are given to the model (Markdown, UTF-8,
  at most 1 MB), in what order, and the message they make;
- `order` — `String`'s order, and sorting by a text key (the listing
  and the guidance files are sorted with it);
- `text` — characters, whitespace, lines and numbers.

`app/` is the program around it: terminal input and output, HTTP, the
JSON of the requests it sends, the file system and the shell. It carries
out the steps the library decides and hands back what came of them.
