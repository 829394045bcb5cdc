# mg-streamr

Music and podcasts on mpd. mpd plays; mg-streamr asks it and tells it, and owns what mpd cannot keep:
podcasts, with where you stopped in each episode.

The library under `src/` is verified with Verus. It holds the decisions and opens nothing: bytes,
rows, keys and times come in as plain values, and lines, rows, effects and screens go out.

| module    | what it holds                                                                     |
|-----------|-----------------------------------------------------------------------------------|
| `text`    | cuts, searches and comparisons of texts                                            |
| `number`  | writing and reading numbers                                                        |
| `moment`  | moments in time, as they are written                                               |
| `mpd`     | mpd's protocol: commands, replies, pictures, idle, and where mpd is                |
| `store`   | shows and episodes, what changes them, the writes that keep its file in step       |
| `podcast` | which entries are episodes, subscribing, playing, and where downloads go           |
| `player`  | what is playing, put together for display                                          |
| `art`     | covers: where they come from and what they are kept under                          |
| `tui`     | what each key does, and what is on the screen                                      |
| `cli`     | what each command asks of mpd, and what is printed                                 |

Times are whole milliseconds throughout; the length of an episode is in seconds, as feeds give it.

`app/` is the program around it: sockets, SQLite, the terminal, JSON and the web. It hands the library
what arrived and does what the library says.

```sh
mg-streamr status | watch                  # what is playing; watch prints on every mpd change
mg-streamr play [pos] | pause | toggle | stop | next | prev
mg-streamr seek 90|+30|-10   volume 60|+5|-5
mg-streamr queue [list|add <uri>|clear|remove <pos>]
mg-streamr library browse [dir] | search <text> | update
mg-streamr podcast add <name> <feed-url> | list | refresh [name] | episodes <name>
mg-streamr podcast play <id> | download <id> | remove-download <id> | forget <name>
mg-streamr art                             # path of the cached cover for what is playing
mg-streamr daemon                          # remembers podcast positions
mg-streamr tui                             # Now Playing, Queue, Library, Podcasts
```

Four things are taken on trust, each stated where it stands: `String::push` and `String::from_utf8` of
the standard library, how chrono writes a moment, and sha2's SHA-256.
