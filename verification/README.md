# yscale

A headless audio DSP appliance for speaker testing and room tuning: signal
generators and network streams run through a configurable graph (routing
matrix, per-channel EQ, crossovers, delays, gains, bass management, FIR room
correction, a look-ahead safety limiter) out to a DAC, controlled from a web
UI.

## Layout

- `src/` is the verified library (Verus). It holds the integer, text and
  state logic of the appliance, each function with a contract:
  - `pow2`: power-of-two sizing and the bit-reversed reordering of the FFT;
  - `ring`: the delay line and the look-ahead queue of the limiter;
  - `fir`: overlap-save layout, per-channel FIR assignment and channel access;
  - `routing`, `config`, `crossover`, `eq`, `bass`: the shape rules of the DSP
    configuration, routing presets and crossover section plans;
  - `source`, `output`, `rng`, `engine`, `meters`, `analyzer`: silence,
    impulse and WAV playback, the dither generator, the real-time loop's
    decisions, and the lock-free meters and analyzer ring;
  - `player`, `names`, `text`, `store`: the streamer's state and reply
    matching, stored-name validation, small text formats and the FIR file
    layout.
- `app/` is the program around it: floating-point filters and FFT, ALSA
  devices, the mpv streamer, the web server (`yscale-server`) and the
  headless runner (`yscale-server headless <source>`).
- `tests/` exercises the library on concrete values.
