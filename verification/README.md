# hugo

Hugo is a blinking light display ("blinkmojt") above the door to Schäraton
in IDét: a screen of 95 by 7 lights.

`src/` is the library, verified with Verus:

- `image.rs`, `pixel.rs`: images of the screen and their pixels.
- `programme/`: the animations — Conway's game of life, the radar wave and
  a still image — with the laws they keep (the wave stays on the screen and
  its dots fade; a repeating simulation is replaced after a pause).
- `signals.rs`: the order of signals on the GPIO lines that shows an image.
- `http.rs`: splitting a request to the image service and composing its answer.
- `random.rs`, `text.rs`: the calls into `rand` and the standard library
  whose contracts are trusted.

`app/` holds the programs around it: the GPIO pins (through `rppal`), the HTTP
service and its TOML requests (through `serde` and `toml`), and the loops that
run a programme on the screen.
