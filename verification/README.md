# tui_fi

A terminal music player: a file browser, playlists, play history, M3U import
and export, a tag editor, downloads through `yt-dlp`, and desktop media
controls.

## Layout

- `src/` is the player's logic, written in Verus and proved against its
  contracts: the browser listing and its order, playlists and their files,
  the capped history, M3U parsing and writing, what every key and media
  command does to the state, the play-time bookkeeping, the shuffle and
  repeat rules, and the texts the screen shows.
  - `text`, `paths`: strings, characters and path names.
  - `sys`: the calls whose results come from the environment, the clock or
    chance (home and data directories, the time, a random index).
  - `playlist`, `history`, `config`, `browser`, `m3u`, `player`: the data.
  - `app`: the interface state and its operations; `keys` and `mpris`: what
    a key or a media command does, as a new state and an effect for the
    caller to carry out; `ui`: the texts drawn on screen.
- `app/` is the program around it: the terminal loop, the screen (ratatui),
  the sound device, tag reading and writing, the files on disk, the
  downloader process and the media-control bus. It asks the library what to
  do and carries out the returned effects.
- `tests/` runs the library on concrete values.
