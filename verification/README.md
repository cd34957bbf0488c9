# multiplex

The decisions behind Multiplex's desktop app, command line and phone routing, as a library
verified with Verus: public functions state in `requires`/`ensures` what they return, and the
properties that span several functions are proof functions Verus checks. Where an answer comes
from outside the program (the system credential store), a function states exactly which calls it
made, in what order, and what it made of each possible answer, not what the answer will be.

## Layout

- `src/` — the verified library.
  - `routes/` — how a phone orders and times its attempts to reach a paired computer, the
    network fingerprint it remembers routes by, and what it tells the person after a race.
  - `terminal_profiles.rs`, `profile_laws.rs` — the "Multiplex" profile in Windows Terminal,
    iTerm2 and VS Code, previewed as file changes; the VS Code block goes in and comes out again
    character for character.
  - `update.rs`, `update_flow.rs`, `update_laws.rs`, `updater.rs` — which release to offer,
    checksum files, the staged package, the interface's update states and the updater's request.
  - `split_tree.rs` — the panes of a workspace as a binary split tree.
  - `protocol.rs` — the Controller listener's command and response rules.
  - `keychain.rs`, `credentials.rs`, `relay_secrets.rs`, `store_laws.rs` — secrets in the
    system credential store, under current and earlier service names.
  - `shell.rs`, `console_sessions.rs`, `ipc.rs`, `background_service.rs`, `tray.rs`,
    `assets.rs`, `panes.rs`, `about.rs`, `env_names.rs`, `sas_anchor.rs` — the smaller pieces.
  - `text.rs`, `paths.rs`, `digest.rs` — text, paths as text, and SHA-256 with hexadecimal.
- `tests/` — tests of the library on concrete values.
- `app/` — the `multiplex` command: files, processes and the environment around the library.

Calls into `sha2`, `hkdf`, `base64`, `serde_json` and `zeroize` go through small trusted
wrappers whose contracts say what those crates' documentation promises. The `keyring` wrappers
promise nothing of what the platform's store answers: every `CredentialStore` keeps a ghost
record of the calls made of it, the credential functions state what they add to it, and
`store_laws.rs` states what follows for a store that keeps what it is given.
