# DJ Library Sync

Matches a folder of downloaded tracks against Spotify and Apple Music, and
pushes the confident matches to a playlist. What is ambiguous waits for a human.

The rules are a library, `djls_core`, verified with
[Verus](https://github.com/verus-lang/verus): each function states in its
contract what it returns for every input, and the promises that span functions
are proved as `law_*` functions beside them.

## Layout

| Path | What it holds |
|---|---|
| `src/normalize.rs`, `src/title.rs`, `src/names.rs` | comparing texts; a title as base name, version, remixer and guests; an artist field as names |
| `src/matcher.rs` | scoring candidates, and the verdict on the best of them |
| `src/tags.rs` | what the tags and the name of a file say; its identity |
| `src/db.rs` | what is stored of a track and a match, and what to do with a file seen again |
| `src/push.rs`, `src/report.rs` | looking a track up, what a push adds, the summary and the per-track report |
| `src/watcher.rs`, `src/watchrun.rs` | when a download has finished, in one round of watching and over a whole run |
| `src/spotify.rs`, `src/apple.rs`, `src/retry.rs` | queries, answers and failures of the two services; when to ask again |
| `src/auth.rs`, `src/licence.rs`, `src/config.rs`, `src/update.rs` | sign-in, licences, settings, newer builds |
| `src/text.rs`, `src/wordset.rs`, `src/order.rs`, `src/unit.rs`, `src/binary.rs`, `src/timestamp.rs`, `src/clock.rs`, `src/urlencode.rs` | text, sets of words, sorting, shares of one, numbers as floating point holds them, dates, the clock and escaping |
| `tests/` | the library on concrete values |
| `app/` | the command line, the network, the disk, the clock and the keychain |

Scores are whole parts per billion, so that weights such as `0.32` and
thresholds such as `0.88` are exact. They are printed as the nearest
floating-point number would be.

What the library takes on trust of other crates is stated where it is called:
Unicode decomposition, Jaro-Winkler similarity, Base64, SHA-256, random bytes,
addresses and JSON.
