# iphone-bridge

Makes an iPhone the headset, keyboard, trackpad, file browser and dictation microphone of a
Windows machine. A server on the machine hands a page to the phone's browser over HTTPS on port
8443; audio, keys and pointer go over WebSockets, files and dictations over a JSON interface
behind a PIN.

The decisions and computations are a library in Verus. Each function states in its contract what
it returns, and Verus proves it. What touches the outside world (files, programs, the network,
the audio system, the tray) is ordinary Rust around the library.

## Layout

- `src/text`, `src/utf16`, `src/bytes`, `src/order`, `src/json`: strings, encodings, sorting and
  JSON values.
- `src/fields`, `src/stored`: JSON with every field of its objects, and values that are stored
  as JSON and read back.
- `src/answer`: the answers of the interface.
- `src/dictate`: the microphone stream on its way to the recogniser, and transcripts on their way
  back.
- `src/voice`: modes, replacements, vocabulary, rewriting with a language model, and the history.
- `src/files`: which paths may be touched, sessions, the recycle bin, shortcuts, and the files
  interface in `src/files/api`.
- `src/net`: the routes, the connections and the remaining answers of the server.
- `src/keyboard`, `src/trackpad`: key and pointer events.
- `src/audio`, `src/state`: capturing and playing.
- `src/tls`: certificates, and the watcher that keeps them up to date.
- `src/tray`, `src/logging`: the tray menu and the log.
- `app`: the program.
- `tests`: tests of the library.

## What is proved

Public proof functions state what holds of the library as a whole. Some of them:

- a path that shares a prefix with a root is not inside it, and containment is transitive;
- replacements do not cascade, and their order does not matter;
- how the microphone stream is cut into chunks does not matter, and the cap holds;
- cleaning a transcript twice is cleaning it once;
- the playback writes the audio in the order in which it came, and settles each drain between the
  audio before it and the audio behind it;
- a search that is not cut short finds every match that can be reached, once, the shallow ones
  first, and one that is finds the first of them;
- a certificate that has expired is due for renewal and never used;
- a session stays listed while it lives, and for an hour after it was first seen dead;
- the words of a dictation are never lost, whatever the language model does;
- keys of providers never leave the machine with the settings;
- however taps follow each other, Alt goes down once and comes up once;
- no drag outlives the connection that began it;
- every route of the interface needs the PIN, but for the viewport reports;
- the configuration, the sessions and the history are read back as they were written, and a
  record that repeats a field is refused.

Contracts that Verus takes on trust stand on calls into `base64`, `serde_json`, `pem`,
`x509-parser` and a few functions of the standard library; each says above it what it claims.

## Configuration

Beside `config.json` in `%LOCALAPPDATA%\iphone-bridge`, the program reads three variables:

- `BRIDGE_DEVICE`: part of the name of the device to capture from.
- `BRIDGE_SESSION_PROGRAM`: the program that sessions are started with.
- `BRIDGE_SESSION_FOLDER`: the folder of that program's transcripts in the user's profile.

The model to use with Anthropic by default is the field `anthropic_model` below `voice.ai` in
`config.json`. The page's own files lie in a folder `web` beside the program.
