# Pro Audio Analyzer

A real-time analyser for two synchronous input channels. It shows the spectrum of the
measured channel, and against a reference channel the transfer function, the phase and
the coherence.

`src/` is the verified library:

- `capture`: the audio callback's side. Interleaved samples become blocks of a fixed
  length; a block that the queue cannot take is dropped whole and counted.
- `dsp`: windows of 2048 frames that overlap by half, cut from an unbroken input.
- `model`, `level`, `text`: routes and their packed form, levels as bit patterns, and
  numbers in decimal.
- `shared`: the route in force, the counters and the flag that several threads hold.
- `queue`: the bounded queues between threads, on top of `ringbuf`.
- `source`, `audio`: what an input has to provide and when a device is used.
- `pipeline`: one session, from the opened input to the reader of its results.
- `controller`: the state of the connection, and the two sides that keep it.
- `ui`: what the display keeps and shows: meters, history, spectrogram, axes.

The library computes no floating point. Levels, samples and times cross its border as
IEEE-754 bit patterns, which it compares and carries; the numbers themselves are computed
in `app/`, where the transform, the device and the window stand as well.

`tests/` runs the library. What the application computes in floating point is written out
there once more, as far as the tests need it.
