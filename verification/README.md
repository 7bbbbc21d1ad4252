# lvb_sim

Lumen VIA Beeper simulator: a W65C22S VIA two-channel beeper with an
arpeggiator that plays four logical channels on the two timer outputs.

- `src/` is the library, verified with Verus. It works in integer units:
  frequencies in millihertz, volumes in parts per million of full scale,
  times in microseconds. It holds the VIA latch arithmetic and register
  log, the logical channels, the arpeggio scheduler and one renderer tick,
  the one-bit percussion player, and the mmml front end (comments, sections,
  loops and macros, note reading, pitch table) and note-name reading.
- `app/` is the command-line program around it: file and WAV I/O, YAML
  input, and everything in floating point (square-wave synthesis, the
  piezo filter model, tempo timing, spectral and CPU-load estimates).
- `tests/` exercises the library.
