# cod4_patcher

An HTTP server that hands a patched payload to the updater of a console game: it signs or
checks the payload, announces it in a manifest, serves both, and logs every exchange as JSON
lines.

- `src/` is the library, verified with Verus. It decides everything: `config` reads the command
  line, `signing` makes and checks signatures, `encoding` writes them in Base64, `manifest` builds the manifest, `start` decides
  what happens before the server listens, `request` and `connection` turn received bytes into a
  request, `reply` answers it, `log` builds the records, and `exchange` states what holds of
  whole messages. `text` holds the string functions under them.
- `app/` is the program around it: files, sockets, threads and the clock. It reads the
  unpatched client's key from `original_public_key.der` in the project's directory when a
  signature is to be checked against it.
- `tests/` runs the library on concrete values.

What the library takes from `base64`, `rsa`, `serde_json`, `tiger` and from the standard library
without proof is stated in the contracts of the items marked `external_body` and
`assume_specification`, in `encoding`, `signing`, `log` and `text`.
