# kora

A terminal browser for SSH hosts. It reads the hosts out of the SSH client
configuration files in `~/.ssh`, lists them, filters them with a fuzzy query
and starts `ssh` for the one chosen.

- `src/` is the library, verified with Verus: parsing of configuration files
  (`ssh_config`), fuzzy matching and highlighting (`text`), the host list
  (`host`), the browser state and its key handling (`app`), where its parts
  go on the terminal (`screen`) and the command line decision (`cli`).
- `app/` is the program around it: command line parsing with clap, reading
  files, the event loop with crossterm and drawing with ratatui.
- `tests/` exercises the library on concrete inputs.
