# synth

A small polyphonic synthesiser. The verified library (`src/`) holds the
integer and buffer logic of the instrument:

- `delay` — the bucket-brigade sample store of the delay effect, with the
  laws that a constant delay of `d` samples hands out the sample fed in
  `d - 1` steps earlier and that a zero delay passes samples through;
- `keys` — which keys of the keyboard sound a note, so that a held key is
  never retriggered and a release hands back the note its press started;
- `frame` — the alternation of left and right samples in the output stream;
- `pool` — dropping finished voices from the pool of sounding voices.

`app/` is the program around it: the window and its sliders, the audio
device, and the floating-point signal chain (oscillators, envelopes, filters,
distortion), which the verifier's rules keep out of `src/`.
