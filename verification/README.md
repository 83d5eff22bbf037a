# adventurer

Live D&D session companion: a server that records the table's speech,
transcribes it, and keeps scene panels and a structured game state up to
date with a local LLM; plus the benches and worker processes around the
two inference engines.

- `src/` — the verified library (Verus): transcript, panels and state of a
  session and their deep merge, the LLM prompts and the parsing of the
  model's answers, the worker line protocol, the GitHub push sequence, the
  join link, the socket decisions, the numbering and event records of the
  audio archive, and the bookkeeping of generation.
- `tests/` — tests of the library on concrete values.
- `app/` — the program around it: HTTP and WebSocket serving, child
  processes, files, clocks, the inference engines and the benches.

The state prompt template is read at start-up from `--state-prompt`
(default `prompts/state.txt`); the stage UI is served from the assets
bundled from `/opt/adventurer/assets/client/` at build time.
