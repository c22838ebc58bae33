# lyrc

An editor for synchronised lyrics that follows the track a media player
plays. The library in `src/` holds its logic, with contracts proved by
Verus:

- `cues`, `history`, `mode`, `state`: documents, their cues at each level of
  synchronisation (words, lines with times, plain lines), the edit history
  and the editor's modes.
- `app` and its modules: the editing operations (adding, deleting, timing
  and selecting cues, undo and redo), each specified over a plain-value view
  of the editor's state, with the laws that relate them.
- `keyboard`, `modal`: what each key does in each mode and in the dialogs;
  what needs the world outside is handed back as an action.
- `clock`, `synchronizer`: the playback position between the player's
  reports, and which cues or words are under way.
- `discovery`, `alignment`, `translation`, `lyrics`, `args`, `config`: choosing
  subtitle files, assembling the aligner's answers, and settings.

`app/` is the program around the library: the command line, terminal keys,
and the loop that hands keys, player reports and ticks to the library.
`tests/` runs the library on concrete documents.
