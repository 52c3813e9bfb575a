# aivorelay

The verified core of a voice-to-text desktop relay: it transcribes speech,
post-processes it with an LLM, pastes it, or hands it to a browser extension
that polls a local HTTP connector.

- `src/` is the library, written in Verus. Its functions carry contracts
  that Verus proves; where a result comes from the operating system's
  credential store, the contract says what holds whatever the store answers.
  It covers the connector's message queue, blobs and
  password handshake; shortcut profiles, bindings and their dispatch; the
  key listener; settings tables and defaults; text replacement rules; the
  requests to remote speech-to-text and chat APIs; region capture and the
  virtual screen canvas; clipboard paste plans; screenshot watching. Calls
  into `keyring`, `regex`, `ferrous-opencc` and `image` go through small
  wrappers whose contracts Verus takes on trust; each wrapper's doc comment
  names the outside function and says what its contract claims of it.
- `tests/` exercises the library on concrete values.
- `app/` is a small command-line program around the library: the connector's
  HTTP server, image cropping and the newest-image lookup, and voice command
  matching (which works with floating-point scores).
