# 🍩 Timbits

An emoji picker and clipboard history tool for Linux. The rules of the tool
live in a library verified with Verus; the windows, the clipboard, the
database, the processes it runs and the files it writes live in `app/`.

## Layout

- `src/` — the verified library:
  - `text` and `textmap`: string helpers with their specifications, and a
    small map keyed by text.
  - `config`: settings, their defaults and normalisation, and file locations.
  - `clip`: clipboard items, file lists (`text/uri-list`), content keys,
    previews and what storing an item means.
  - `storage`: entry kinds, timestamps and the history search statement.
  - `emoji_db`, `emoji_update`: the emoji catalogue, search ranking, skin
    tones, and reading Unicode's `emoji-test.txt` plus emojilib keywords.
  - `emoji_picker`, `history_picker`, `settings`, `ui_common`: what the
    windows show and how keys move the selection.
  - `paste`, `focus`, `daemon`, `gnome_hotkeys`, `install`, `cli`: key
    chords and paste plans, focus restoring, hotkeys, GNOME shortcuts,
    desktop entries and the command line.
- `app/` — the program: egui windows, arboard, rusqlite, gsettings,
  ydotool/uinput, tesseract and the file system.
- `tests/` — tests of the library.

Public proof functions in `src/` state the library's laws, such as that a
written path list reads back unchanged (for paths that hold no comma and
neither start nor end with a quote), that registering shortcuts twice writes
what registering once did (for lists of such paths), and that the picker
lists each emoji once.
