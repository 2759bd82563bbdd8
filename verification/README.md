# ncspot core, verified

The logic of a terminal Spotify client, written in Verus with its behaviour
stated in `requires` / `ensures` contracts and proved.

`src/` is the verified library:

- `queue` — the play queue: entries with stable ids, the current entry, the
  shuffle order, repeat modes, and the laws that tie its operations together
  (ids follow entries, `previous` undoes `next`, moving an entry keeps the
  play order).
- `lyrics` — the lyrics model, the LRC format, Hangul and pinyin
  romanization, what each provider's answer becomes, the requests sent to
  providers, the in-memory cache and the search over providers in order.
- `jukebox` — the endless remix: switches, anti-loop settings, the branch
  picker of the driver, the beat graph's filters and reachability, the
  pixels of lines and circles, the analysis sources' order, and the decisions
  of the driver loop.
- `mpris` — the D-Bus media player interface: object paths of queue entries
  and playlists, track list operations, player answers, metadata, and the
  signal each command emits.
- `spotify_worker` — the player worker's decisions for commands, player
  events and ticks.
- `ui` — the lyrics pane and the jukebox page as state machines (layout,
  cursor, keys, commands), and terminal graphics detection.
- `text`, `assoc` — strings, decimal numbers and association lists.

`app/` holds what Verus does not take: serialization, files, the environment,
and the jukebox's floating-point timing and probabilities.

`tests/` exercises the library on concrete values.
