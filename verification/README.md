# cinepak

A Cinepak video codec written in Verus. `src/` holds the codec; every function
there states in its contract what it returns, and Verus proves it. No part of
`src/` is taken on trust.

## Layout

- The format: `bits`, `header`, `codebook`, `vector`, `macroblocks`, `yuv`,
  `image`, `error`, `text`.
- The decoder: `decoder`, and its entry in a codec registry, `registry`.
- The encoder, from a picture to bytes: `options`, `sampling`, `quant`,
  `median`, `seeding`, `training`, `planning`, `rolling`, `reclaim`, `strips`,
  `encoder`, `session`.
- The search for good settings: `measure`, `grid`, `search`, `stripwise`,
  `rate`, `window`, `wide`.
- The Sega FILM container: `film`, `stab`, `demux`.
- The linter: `lint`.
- What holds of the whole: `reading`, `roundtrip`, `streaming`, `clean`,
  `weights`, `sizes`, `budget`, `resetting`. They prove that a decoder shows
  what the encoder planned, frame after frame; that encoded frames break no rule of the format; what the luma
  weight and the price of bits can and cannot change; which pictures always
  give a frame; and what an encoder does with a budget and after a reset.

`tests/` runs the library on concrete frames. `app/` puts the codec into an
`oxideav` runtime and offers the settings and measures as floating-point
numbers.

## Numbers

The library computes in integers. A skip threshold and a price of bits are
given in 65536ths; so are tolerances, in percent. A frame rate is a fraction of
frames and seconds, and durations and averages come back as fractions.
