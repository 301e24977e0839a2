# bitchy

A terminal IRC client, written as a verified library and a thin terminal
program around it.

* `src/` is the library, checked by Verus: the IRC protocol (messages,
  command lines, modes, users, CTCP, DCC offers, flood control, encryption),
  the session with a server, the scripting engine, the settings, and the
  interface's state and panes as text.
* `app/` is the program: command line, settings file, sockets and TLS,
  the terminal drawing, plugins loaded from shared libraries, and DCC
  transfers.
* `tests/` runs the library on concrete values.
