# playertwo

An account switcher for game launchers (Steam, Epic Games and platforms
described by a declarative definition): it saves the login of the signed-in
account and swaps saved logins in and out.

`src/` is the library, verified with Verus:

- `model` — platform definitions, accounts, outcomes.
- `text` — character-level helpers (`trim`, line splitting, joining).
- `ini`, `epic` — editing the `[RememberMe]` section of Epic's
  `GameUserSettings.ini`, reading its token, and the pending-switch record
  that keeps a planted token from being filed under the wrong account.
- `vdf`, `steam` — reading, editing and writing `loginusers.vdf`; Steam's
  account list, current account and switch.
- `store`, `settings` — the saved-account store's layout and list updates;
  user settings.
- `host` — the operating-system interface and an in-memory host.
- `ident` — the current account id from a file (regex or JSON pointer) and
  a user name from Epic's logs.
- `plans` — the file and registry steps of capture, restore, clear, backup
  and rollback, and locating a launcher.
- `effects` — what those steps do to a model of the machine (paths and
  registry values, each present or absent), and the laws that restoring
  after a capture, and rolling back after a backup, give the earlier login
  back.
- `engine`, `adding` — the switch and add procedures as state machines: each
  answers a step's result with the next step.
- `commands`, `defs` — list ordering (most recently used first), merging
  saved names into Steam's list, and the other decisions of the commands.

Each public function states its result in its contract; the `law_*` proof
functions state properties that span calls (a written token reads back, a
serialized user list parses back, quotes and backslashes included, a Steam
switch makes its target current, a restore after a capture gives the login
back, the listing order is a stable sort, and so on).

`app/` is the program around the library: the machine's host (environment,
registry, processes), files on disk, JSON, and the commands, which perform
the steps the state machines ask for. `tests/` exercises the library.
