# plur

A mod manager for browser customization: it keeps a list of mod
repositories, merges their `plur.css`, `plur.js`, `plur.chrome.css` and
`plur.theme.json` files into one set of outputs under `~/.plur`, and installs
those outputs into Firefox profiles and Chromium-based browsers.

Theme files are merged in the order they are found: members of a later
theme override those of an earlier one, and object members such as `colors`
are merged key by key, the later file winning. The Chromium extension has a
toolbar popup (`popup.html`) that shows what it injects and a button that
reloads the active tab.

Paths are read as `std::path::Path` reads them on the platform the app
runs on: on Windows `\` and `/` both separate components, a drive `C:` or a
UNC `\\server\share` begins a path, and file names, extensions, path
equality and path order follow from that (verbatim `\\?\` and device
`\\.\` prefixes are read as UNC ones). Firefox locations (profile roots,
policy paths, legacy directories, `file:` URLs) are known for macOS, Linux
and Windows; on other systems none are. The directories of mods and of
their dependencies, and `~/.plur` itself, are joined with `/` on every
system.

## Layout

- `src/` is the library, written in Verus. Every function in it carries a
  contract, and the properties that span functions (adding then removing a
  mod, importing legacy mods twice, the shape of target directories, the
  idempotence of the `@import` line written into Firefox profiles, theme
  merging, normalizing repository URLs, scanning legacy files in either
  order) are stated and proved as proof functions.
  - `text`, `paths`, `order`, `pathorder`: string and path helpers with
    mathematical models (Unix and Windows path components, path order).
  - `naming`: FNV-1a hash suffixes, target directories, repository URLs.
  - `config`: the mod list, its map view, and the legacy import.
  - `firefox`, `chromium`: `profiles.ini` parsing, policy and manifest
    documents, profile roots.
  - `doc`, `legacy`: a JSON-like document model and the scan of legacy
    configuration files for repositories and output paths.
  - `merge`, `theme`, `install`, `sync`: the build state that concatenates
    mod files and merges themes, the install plan, and the decisions (and
    log lines) of syncing mods and their dependencies.
  - The steps of installing into each Firefox profile, the paths of the
    packed extension, and the copies that update legacy outputs are planned
    in `firefox` and `legacy`.
- `app/` is ordinary Rust around the library: it carries out the steps the
  library plans (file system access, `git` processes, zip packaging,
  serialization, the GUI commands) and reports back what happened.
- `tests/` runs the library on concrete values.
