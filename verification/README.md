# hyprgram

A spectrogram tool: audio is cut into overlapping STFT frames, transformed,
mapped to log-spaced bands and drawn as an image (offline PNG) or as a
scrolling live view controlled over a Unix socket.

## Layout

- `src/` — the library, verified with Verus. It holds everything that is not
  floating-point work or I/O:
  - `dsp` — hop policy, window/transform choices, validation of a
    configuration, number of output bands;
  - `framing` — cutting a sample stream into STFT frames, with the law that
    feeding a stream in any number of pieces gives the frames of the whole
    stream;
  - `chunks` — the checked plan for analysing a long recording in parallel
    runs (hop normalized as the processor does), with the law that the runs'
    frames are exactly the recording's frames;
  - `ring` — the bounded sample FIFO between capture and analysis (backed by
    the `ringbuf` crate);
  - `profiles` — built-in profiles and image defaults;
  - `cli` — options of the live window and how they adjust a profile;
  - `live` — capture-ring size, backlog bound, display queue and
    texture-row bookkeeping;
  - `render` — pixel geometry of the PNG;
  - `ipc` — the text control protocol (command words, arguments, the syntax
    of number arguments, errors; colour stops come out ordered by position,
    stably);
  - `numbers` — the numeric order of number texts and the stable sort by it;
  - `text` — character-level helpers (white space, trimming, splitting).
- `app/` — the program around it: audio decoding (symphonia), the FFT and
  band mapping (realfft, floating point), PNG output (image), TOML profiles
  (serde, toml), the shared ring, the control socket and the reading of
  number values. The live window (iced/wgpu) and PipeWire capture are not
  built.
- `tests/` — tests of the library.
