# myx

The decisions of a lean terminal Spotify player, verified with Verus.

- `src/` is the library. Every function has a contract, and the laws that relate functions are
  public proof functions beside them.
- `app/` holds the edges: files, the network, the terminal and the audio session.
- `tests/` runs the library with the outside crates it calls.

| module | what it decides |
| --- | --- |
| `config` | the user's settings, with defaults for a missing or malformed file |
| `webapi` | the Web API token: whose it is, when it is stale, how it is refreshed |
| `oauth`, `pkce`, `callback`, `form` | the browser login: proof keys, addresses, forms, the redirect |
| `engine` | playback requests and events, volume, credentials |
| `radio`, `json` | track-seeded radio stations |
| `reactive` | which colors of a cover take which part in a theme |
| `cover` | which graphics protocol to use, and when to encode a cover anew |
| `probe` | the commands of the diagnostic player |
| `home`, `text` | places below the home directory, and text |
