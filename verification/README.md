# trapop

The verified core of TraPoP, a macOS tool that translates pasted text
(Japanese ⇔ English by default, any configured language pair) through
OpenAI or Gemini, streaming the result into a single window or a floating
panel.

- `src/` — the library, checked by Verus: system-prompt assembly, the
  framing of server-sent events, the reading of each provider's stream and
  model list, engine resolution from the settings, the per-window registry
  of in-flight translations, the bookkeeping of one stream, history records
  and the rotation of the history file, validation of settings input,
  pasteboard capture results and window naming.
- `app/` — the Tauri shell: commands, windows and panels, HTTP streaming,
  the keychain, and the settings and history files.
- `tests/` — tests of the library.

The registry of in-flight translations keys its entries by window label, a
`String`. vstd's specification of `HashMap` holds only for key types that
satisfy `obeys_key_model`, which vstd establishes for integers and `bool`
but not for `String`; establishing it would take an `assume`. So the
registry keeps a `Vec` of entries with a type invariant that no label
occurs twice, and states its operations over the map that the entries
denote.
