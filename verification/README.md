# duscape

Where the disk space went: a treemap of a folder, in the terminal or in a window.

The rules of the viewer are a library, `src/`, verified with Verus. They hold no toolkit and no
terminal: a program hands over what it found on disk, what was pressed and what time it is, as
plain values, and is told what to show, write or do.

- `state` is the window: the entry in hand, marks, navigation, what a delete or a rescan changes,
  and the words of its bars. `state::laws` has what holds of it whatever is done.
- `window`, `session`, `painting`, `fit`, `canvas`, `fonts`, `menu`, `removal`, `trash` and
  `preview` are what a window decides and draws; `backend`, `xkb`, `x11`, `wayland`, `mac_view`,
  `menubar` and `script` are the window systems' side of it.
- `controls`, `keybind`, `config`, `bottom_line`, `message_box`, `grid`, `terminal`, `picture`,
  `palette`, `sixel`, `color`, `clipboard`, `cli`, `front` and `tui` are the terminal viewer's.
- `rescan` keeps the rescans that run apart from one another, and `shell` quotes what is copied.

`app/` is the program around it: files, threads, the window systems and the terminal. `tests/`
runs the library on examples.
