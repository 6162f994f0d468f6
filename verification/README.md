# anistream

The verified core of a command-line client that searches an anime API,
lets the user pick a show and an episode with `fzf`, and lists the
episode's sources.

- `src/` is the library, verified with Verus:
  - `text`: substring search, replacement of every occurrence, Unicode trim;
  - `provider`: which source paths are kept (`ProvideUrl::new`) and which
    provider a source name stands for;
  - `decode`: decoding of obfuscated source paths (`provider_init`);
  - `json`: the JSON tree read from the API's replies (parsed by `serde_json`);
  - `api`: search results, episode lists and sources taken from replies;
  - `menu`: the picker's menus and what is taken from the picked line;
  - `player`: the default video player of a platform.
- `app/main.rs` is the program: arguments, HTTP requests, the `fzf` process,
  printing.
- `tests/` runs the library on concrete values.
