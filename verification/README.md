# ai_career_copilot

Backend of a multi-turn job-hunting assistant: chat sessions stored in SQLite,
replies streamed from an OpenAI-compatible LLM over Server-Sent Events, resume
attachments (PDF, DOCX, TXT, Markdown) turned into plain text, Lazycat OIDC
login.

- `src/` is the library, verified with Verus: configuration from environment
  values, settings rules, text extraction and normalization, the SSE decoder
  for the LLM stream, prompt assembly, reply recording, the OIDC callback
  checks, attachment rules and headers. Every public function states its
  result in its `ensures`; the `law_*` proof functions state the properties
  that span several functions.
- `app/` is the HTTP server (axum, sqlx, reqwest): it reads requests, talks to
  SQLite and to the outside services, and hands plain values to the library.
- `tests/` runs the library on concrete inputs.
