# localagent

The core of LocalAgent, an offline AI chat desktop app, as a library verified
with Verus, and the desktop shell around it.

- `src/` is the verified library: the model catalog, the installed-model
  registry, download planning and archive-path sanitising, the Hugging Face
  quant picker, chat message encoding for the engines, prompt templates, the
  streaming generation state machine with its stop strings, page-text
  extraction for browsing, session summaries and ordering, and the state
  machine that guards loading, unloading, inference and shutdown.
  Calls into `serde_json`, `scraper`, `chrono` and a few std functions stand
  behind small trusted functions whose contracts say what the outside code
  does.
- `app/` is the Tauri application: commands, file and network I/O, the
  llama.cpp and Cactus engines, and serde copies of the library's types.
- `tests/` runs the library on concrete inputs.
