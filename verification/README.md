# glow

Markdown on the command line: the logic of a terminal markdown viewer,
written in Verus and proved against its contracts.

## Layout

- `src/` is the verified library. Every function there states what it
  returns in its `ensures` and Verus proves it.
  - `deps/` holds the building blocks: ANSI-aware width, wrapping and
    truncation (`ansi`), the command-line parser and its help text (`cobra`),
    configuration precedence (`viper`), fuzzy matching (`fuzzy`), shell field
    splitting (`shell`), URL handling (`url`), the man page writer (`mango`,
    `roff`), globbing and the directory walk's decisions (`gitcha`), the
    editor command line (`editor`), the OSC 52 clipboard sequence
    (`clipboard`), key names (`bubbletea`), the widgets (`bubbles`), styling
    (`lipgloss`) and markdown rendering (`glamour`): the CommonMark event
    stream of `pulldown-cmark` built into a document tree (`tree`, `ast`),
    the stylesheet model (`style`, `styles`), tables (`table`) and the ANSI
    renderer (`renderer`, `render`).
  - `glow.rs`, `config_cmd.rs`, `man_cmd.rs`, `utils.rs`, `log.rs`, `url.rs`
    and `ui/` hold the program's own rules: its flags and options, path
    cleaning, front matter, the file listing and the pager's text.
- `app/` is the process around the library: reading the environment, files
  and standard input, the terminal, child processes and the clipboard. It
  hands the library plain values and carries out its answers.
- `tests/` exercises the library on concrete inputs.

## What is proved, and what is not

Most functions state their result exactly, as an equality with a spec
function. Parsing is exact down to the CommonMark events of
`pulldown-cmark`: the tree they build, the linking of bare URLs, the
splitting of line tails and the restoring of escaped markup all have exact
contracts, as do the table layout, the style cascade and the span styling.
The renderer's block layout is verified free of panics and overflow only;
its output is checked by the tests. The pager's key handling is a verified
step from message to state and command; the program around it would carry
the commands out.

The built-in stylesheets of Glamour (its JSON documents) are not part of
this repository, so `app/` renders with an uncoloured stylesheet carrying
the `notty` values; a stylesheet file is read as JSON. The shell
completion scripts are not in the repository either. The interactive file
browser is not part of this build.

## Trusted code

The library calls out to `pulldown-cmark`, `unicode-segmentation`,
`unicode-width`, `unicode-normalization`, `unicode-properties` and a few
functions of `std`.
Each call sits in a small function marked `#[verifier::external_body]` whose
doc comment says what its contract claims of the outside code; nothing else
is assumed.
