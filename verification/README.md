# lycan

A lightweight PWA manager for Linux: websites run as desktop apps in WebKitGTK
windows, with `.desktop` menu entries, fetched favicons and a built-in ad/tracker
blocker, managed from a terminal interface.

- `src/` is the verified library (Verus): the terminal interface as a state machine
  (`tui`), its texts (`ui`), saved records, paths and ordering (`config`), menu
  entries (`desktop`), icon selection (`favicon`), the blocker script (`blocker`),
  WebKit tuning decisions (`tuning`), file permission modes (`fs_private`), the
  window init script (`runner`), and the string and number helpers they rest on
  (`text`, `numparse`, `weburl`).
- `app/` is the program around it: command line, terminal loop and drawing, file
  and network I/O, GTK/WebKit windows.
- `tests/` exercises the library on concrete values.
