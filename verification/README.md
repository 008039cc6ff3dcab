# shellsense

The verified core of a PowerShell command-line completion engine: the
escape-sequence protocol between the shell and the host, the PowerShell
lexer and quoting rules, the command index and PATH discovery, path
completion and its directory cache, configuration, help-page learning,
the completion engine that offers commands, spec answers and directory
entries for a line, the command workbench with templates, forms, keys and
project command packs, terminal key and mouse encoding, session command
snapshots, the completion session that shows frames and accepts
candidates, and the terminal host's decisions on every adapter message,
key press and turn of its event loop (`host`).

`src/` is the library. Its functions carry contracts that Verus proves,
with the exception of eight small wrappers around outside code, marked
`#[verifier::external_body]`, whose contracts are trusted rather than
proved:

- `text::push_char` (`String::push`),
- `text::char_from_u32` (`char::from_u32`),
- `text::to_lowercase` (`str::to_lowercase`),
- `text::is_alphanumeric` (`char::is_alphanumeric`),
- `protocol::is_json_document` (`serde_json` parsing),
- `packs::sha256_digest` (`sha2`),
- `layout::graphemes` (`unicode-segmentation`),
- `layout::display_width` (`unicode-width`).

`to_lowercase`, `is_alphanumeric` and the last four state their results
through named functions (`unicode_lower`, `unicode_alphanumeric`,
`json_document`, `sha256`, `grapheme_clusters`, `text_width`) that the
library's contracts speak of without defining.

`app/` is the command-line program around the library: it reads files,
directories, the environment and standard input, turns the shell
adapter's JSON messages into the library's messages, and hands the
library plain values. `tests/` runs the library on concrete cases.
