# hey

The logic of a menu-bar voice transcription tool, verified with Verus.

- `src/` is the verified library:
  - `chunking`: cutting audio into upload-sized, overlapping chunks and
    merging the chunk transcripts without repeating the overlap;
  - `text`: whitespace splitting, joining, case folding and text order;
  - `transcription`: the services, their endpoints and limits, and a
    chunk-by-chunk transcription job;
  - `sessions`: session identifiers, status, stored files and listing order;
  - `audio`: input device lists, the level history and WAV encoding;
  - `config`: settings and their defaults;
  - `keychain`: the meaning of keychain answers;
  - `tray`: the menu-bar menu, update dialogs and the icon image.
- `tests/` exercises the library on concrete values.
- `app/` is the Tauri application around it: recording with cpal, files,
  HTTP requests, the keychain, pasting and the window.
