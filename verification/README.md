# term-markdown

A terminal markdown viewer with syntax-highlighted code blocks, colour
schemes and link navigation. The viewer's logic is a Verus-verified library;
a thin binary does the terminal, file and environment I/O around it.

## Layout

- `src/` — the verified library:
  - `text.rs` — colours, modifiers, layered styles, spans, lines;
  - `chars.rs`, `paths.rs` — character-sequence and Unix path helpers;
  - `wrap.rs` — how many terminal rows a line takes once word-wrapped;
  - `highlight.rs` — syntect highlighting of fenced code blocks;
  - `markdown.rs` — frontmatter stripping and markdown → styled text with
    located links (pulldown-cmark events);
  - `scheme.rs` — scheme files, their resolution into styles, the built-in
    scheme, and which scheme applies (command line, config, default);
  - `links.rs` — classifying and resolving link targets;
  - `bundle.rs` — OKF bundle-root detection;
  - `app.rs` — the viewer state: scrolling, link selection, following
    links, going back, key and mouse handling.
- `tests/` — tests of the library on concrete values.
- `app/` — the `term-markdown` binary: arguments, reading files, probing
  the filesystem, parsing TOML, and the ratatui/crossterm event loop.

## Usage

```sh
term-markdown [--root <dir>] [--scheme <name>] <file.md>
```

Relative links resolve against the current file; absolute links (`/x/y.md`)
against the bundle root, detected from the `index.md` ancestry of the opened
file (bounded by the git repository) unless `--root` is given.
