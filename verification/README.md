# SpeakAgent core

SpeakAgent is an offline desktop transcriber: speech recognition and speaker separation of
audio and video files, push-to-talk dictation, meeting summaries by a local language model
(or a cloud provider), a history of recordings, and a local MCP server for code agents.

This crate holds its logic as a library verified with Verus:

- `src/` — the verified library. Each module states in `requires`/`ensures` what its
  functions return, over mathematical models (`Seq`, `Map`, spec functions, views):
  - `store` — the history (settings, jobs, artefacts, dictations) as keyed tables;
  - `models` — the catalogue of models, where files resolve, what is missing;
  - `asr`, `collect`, `diarize`, `punct` — word assembly, segment plans, the in-order
    collector of parallel decoding, speaker attribution and replicas, punctuation windows
    and labels;
  - `llm`, `chat`, `prompts` — summary plans, chunking, cleanup of replies, the local
    server's lifecycle and the cloud provider's replies;
  - `decode`, `audio`, `pdf`, `gpu`, `keys`, `dictation`, `control`, `mcp`, `text` — the
    remaining decisions of the application.
  Public proof functions named `law_*` state properties that hold across calls.
- `tests/` — tests of the library on concrete values.
- `app/` — the I/O around the library: SQLite, downloads and archives, audio decoding,
  the recognizer and diarizer runtime, the language-model server process, the MCP HTTP
  server, PDF rendering, the microphone and the platform key hooks.
