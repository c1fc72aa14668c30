# Prism

A music player: a window with the playing track, its cover and its controls
on top, and the searchable list of tracks below.

- `src/` is the library, verified with Verus: the track model and the
  reading of tracks and covers from the bytes of audio files with symphonia
  (`track`), fuzzy search and ranking (`search`), the track list with its
  search and keyboard selection (`list`), the play queue with repeat and
  shuffle (`queue`), the accent colour drawn from a cover (`style`), trigram
  similarity (`trigram`), and the decisions of the screens (`composition`,
  `widget`): each takes a message and answers with what the program around
  it must do.
- `app/` is the program around it: the iced window, sound output with rodio,
  file dialogs with rfd, and reading files and folders from disk.
- `tests/` runs the library on concrete tracks.
