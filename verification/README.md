# termua

The rules of the termua terminal, as a Rust library whose behaviour is stated
in `requires` / `ensures` contracts and proved with Verus.

- `src/` — the verified library: the assistant conversation and reply
  processing, web sharing access control and frames, share keys, the lock
  screen's idle timer, the session store's row model, the credential names,
  tab labels, SSH messages and `known_hosts` editing, the terminal
  environment, update checks, command history, built-in command suggestions,
  the sessions tree, serial ports, the footbar, and the cast player's rules.
  Laws that relate several operations are public proof functions named
  `law_*`.
- `tests/` — tests of the library on concrete values.
- `app/` — the `termua` program around the library: the cast player loop,
  SQLite storage of sessions, the system credential manager, files on disk
  and the command line.
