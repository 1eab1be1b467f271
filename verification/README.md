# nalarch

A TUI package manager for Arch Linux: see what a transaction is about to
change, move around in it, decide, then apply. libalpm reads the system,
paru carries out every action inside an embedded terminal, and nalarch
retells what paru does.

## Layout

- `src/` — the library, verified with Verus. Everything nalarch decides
  lives here, each function with its contract:
  - `data` — reading what pacman, paru, paccache and the configuration files
    say (dry-run listings, `IgnorePkg`, `RemoveMake`, `PACCACHE_ARGS`,
    keep.list);
  - `snapshot` — the installed packages, the pending updates and the frozen
    ones, put together from the local database and what the sync databases
    and update listings say of each package;
  - `plan` — the plan of an upgrade, a removal, a rollback, and the upgrade
    command;
  - `risks` — the points of attention of a plan, most severe first;
  - `history` — pacman's log read into transactions, and their inverse;
  - `journal` — paru's output read line by line into what happened;
  - `exec` — the byte stream of the terminal cut into lines, questions,
    progress;
  - `search`, `changelog` — ranking search results, laying out what an update
    changes;
  - `app` — the table screen (tabs, cursor, checked names) and the plans it
    opens;
  - `ui`, `theme`, `icons`, `i18n`, `text` — what fits on screen, sizes,
    glyphs, messages in English and French, and the text primitives;
  - `json` — the two reads of JSON documents (one value, one column of an
    array) that the AUR answers and release notes need, made with serde_json.
  Properties that span several calls are stated as `law_…` proof functions.
- `tests/` — the library's tests, run against the compiled crate.
- `app/` — the program: libalpm, subprocesses, files, network, the
  pseudo terminal and the drawing with ratatui. It matches the databases'
  records by name and hands them to the library, then draws what the
  library decided.
