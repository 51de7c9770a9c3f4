# agentero

The decision logic of a research-paper vault, verified with Verus.

- `src/notes.rs`, `src/frontmatter.rs`: NOTES.md under a new title; aliases in YAML frontmatter.
  What holds of them together is stated in `src/notes_laws.rs`.
- `src/urls.rs`: canonical URLs of papers.
- `src/skill.rs`, `src/github.rs`, `src/fetch.rs`: skills from GitHub, from the discovery of a
  source to the steps of its installation.
- `src/translate.rs`: prompts, requests and replies of an OpenAI-compatible endpoint.
- `src/latex.rs`: which LaTeX engines can compile, and how.
- `src/store.rs`: sync storage on S3 or WebDAV.
- `src/warm.rs`: agent warm-up as a state machine.
- `src/text.rs`: text operations over sequences of characters.
- `src/json.rs`, `src/outside.rs`: the calls into other crates, each behind a stated contract.

Functions whose name starts with `law_` state what holds of several functions together.

`app/` is the shell around the library: files, processes, HTTP and agents.
