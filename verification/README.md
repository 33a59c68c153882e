# libvoice

Voice analysis for recordings and live input: pitch, harmonics, spectrum
shape, loudness and formants, with a command-line tool, an HTTP server,
a chat bot that analyzes voice messages, and a singing trainer.

`src/` is the verified library (Verus). It holds the parts of the
project that are decisions over integers, bytes and text, each with a
contract:

- `framing`: cutting a sample stream into overlapping frames, with the
  proof that feeding it in chunks gives the frames of one pass;
- `ring`: the capture ring buffer and its most recent samples;
- `pcm`: raw PCM bodies and streams, request checks and error answers,
  with the proof that streamed draining hands on what one drain would;
- `config`: window sizes and their checks;
- `options`, `bot`, `input`, `report`, `voice`: the chat bot's command
  and option parsing, input choice, report layout, message splitting and
  voice-message handling;
- `cli`: the command-line tool's checks, frame selection and names;
- `midi`, `notes`: reading reference notes from MIDI files;
- `paths`: turning `file://` URLs from the file dialog into local paths;
- `capture`: device configuration choice and the capture loop's steps;
- `decode`, `graphs`, `text`: helpers for decoder output, graph names,
  series and PNG encoding, and text.

`app/` is ordinary Rust around the library: the floating-point signal
analysis, decoding, graph drawing, the command-line tool, the HTTP
server, the chat bot's command flows over any chat client, and the
trainer's MIDI reading, pitch tracking and capture loop. The Telegram
client, the desktop shell and the audio device and playback back ends
are not part of this build. `tests/` runs the library on concrete inputs.
