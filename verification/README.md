# wallpaper_engine

A Wayland wallpaper daemon, the command-line tool that drives it over a Unix
socket, a runner for `linux-wallpaperengine` and a graphical manager.

- `src/` is the verified library (Verus): the request protocol and its
  parsing, the configuration format, the daemon's per-output state and its
  answers to requests and compositor events, the tool's and the runner's
  argument handling, and the manager's catalog and settings.
- `app/` holds the programs around it: sockets, files, the Wayland and cairo
  glue, the egui interface. One binary serves as each program, chosen by the
  name it is started under.
- `tests/` exercises the library on concrete values.
