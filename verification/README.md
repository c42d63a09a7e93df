# Codex++ core

The rules of Codex++, a companion of the Codex desktop application, as a library that Verus verifies,
and the program around it.

- `src/` holds the rules. Text is handled as sequences of characters (`text`, `number`, `file_name`),
  documents as JSON values (`json`, `json_order`), values under keys as tables (`table`).
  - `codex_hooks`, `hook_reinstall`, `hook_trust`, `hook_event`, `ai_shell`: the hooks that Codex++
    installs and answers.
  - `memory`, `memory_text`, `memory_rank`, `memory_context`, `embeddings`, `embedding_cache`: the
    memories that belong to a prompt.
  - `app_server`, `official_remote`, `remote_control`, `login_session`, `server_message`, `settings`:
    logging in and the remote control.
  - `config_backup`, `config_import`: backups of the whole configuration.
  - `update`, `codex_auto_update`, `codex_config_reload`, `proxy`: updates and the rest.
- `app/` is the program: files, processes, the network, and the two scores that need floating point.
- `tests/` runs the library, with the crates that it calls.

Functions named `law_..` state what holds of several functions together. The items that call other crates
carry a contract that is not proved; the comment above each says what it claims.
