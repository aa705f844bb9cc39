# remotedesk

Remote desktop for a local network, as a verified library and a program around it. macOS is
the server: it captures the screen, encodes it and serves it over TCP. Windows is the client:
it receives the frames, shows them, and sends mouse and keyboard back.

## Layout

The library under `src/` is verified with Verus. It does no input or output: where the program
alternates between the outside and decisions, the library holds the rule from what happened to
what to do next.

| Module | What it states |
|---|---|
| `protocol`, `wire`, `bytes` | messages, their bytes, and reading them back from a stream |
| `network` | the server: greeting a client, relaying frames out and inputs in |
| `client` | the client: connecting, retrying, relaying |
| `link` | a connection whose bytes arrive in pieces, with inputs in between |
| `encoder` | setting up the encoder, numbering frames, collecting its output |
| `decoder` | setting up the decoder, and what becomes of a packet |
| `pixels` | copying rows between strides, BGRA to RGBA |
| `input` | what hooks capture, and what arriving messages inject |
| `ui` | the state behind the window |
| `text` | decimal numbers and IPv4 addresses |

Functions whose names start with `law_` state what holds of the library as a whole.

The program under `app/` owns the sockets, channels, threads and the window, and calls the
system: VideoToolbox and CoreGraphics on macOS, FFmpeg and the Win32 hooks on Windows.

The items marked `external_body` in `wire`, `pixels` and `ui` are believed, not proved. Each
names the function of bincode, image or egui that it calls, and what it claims of it.
