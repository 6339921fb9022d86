# parrot

A local-first meeting assistant: it transcribes recordings (ffmpeg and
whisper), asks a local language model (Ollama) for summaries, action items,
decisions and follow-ups, lays out documents, captures screenshots at a
moment found in a transcript, and manages models and MCP servers.

- `src/` is the library, verified with Verus: prompts and document layouts,
  timestamp parsing, transcript search, the settings and the MCP server
  table, the Obsidian note builder, the NotebookLM output parser, model
  aliases, and the argument lists handed to external tools. Each public
  function states what it returns; the laws that span functions are public
  proof functions named `law_*`.
- `app/` is the `parrot-cli` program around it: command-line parsing, the
  settings file, processes, HTTP requests and the file system.
- `tests/` runs the library on concrete inputs.
