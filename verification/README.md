# work_buddy

A work-tracking assistant around a chat model. The model runs in a
[llama.cpp](https://github.com/ggml-org/llama.cpp) server; the assistant keeps the chat, hands the
model tools for tasks, worklogs, knowledge, files and web searches, and shows everything on a
terminal.

## Layout

- `src/` is the library, written in [Verus](https://github.com/verus-lang/verus): what the
  assistant decides and computes, with contracts that are proved.
  - the model: `line_format`, `client`, `delta`, `newline_split`, `streaming`, `streamed_answer`,
    `call_round`, `agent`
  - the chat: `history`, `ui`, `chat_agent`, `work_buddy_agent`, `prefill`, `session_log`
  - the terminal: `wrap`, `terminal`
  - the tools: `todo`, `tasks`, `knowledge`, `worklog`, `files`, `web_search`
  - shared: `text`, `string_map`, `failure`, `helpers`, `clock`, `program`
- `tests/` runs the library.
- `app/` is what surrounds it: the programs, the network, files, JSON, and the terminal. The name
  that the program is called by (`work-buddy`, `work-buddy-classic`, `work-buddy-greeting`, `lemon`)
  tells which of them is run.

## Reading the proofs

Every public function of the library says in its `ensures` what it returns or changes, over spec
functions on sequences, maps and numbers. What holds of several functions together stands in public
`proof fn`s, whose doc comments say it in words.

What comes from other crates is behind functions marked `#[verifier::external_body]`, and is not
proved. Their doc comments name the function that is called, and say what is claimed of it. Where a
result takes too long to describe, it only has a name (a `pub uninterp spec fn`): it is known to
depend on nothing but the arguments.
