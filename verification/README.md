# logux

A terminal console for Android developers: it follows `adb logcat` with
filters that can change at any time, shows entries in columns, and
inspects and mocks HTTP traffic.

The crate is split in two:

- `src/` is the library, verified with Verus. It holds the logcat line
  parser, the filters and their one-line form, the output configuration,
  the mock rules engine, the captured-traffic store, the device listing
  logic, the slash commands, the completion engine, the state of the
  interface (keys, scrolling, buffers, reconnection) and the layout of
  every row the screen shows. `src/laws.rs` states the properties that hold
  across operations.
- `app/` is the program around it: the terminal, `adb` processes, files
  under `~/.logux`, the proxy process and the clipboard.

`tests/` runs the library on concrete values.
