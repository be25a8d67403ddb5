# homelab

Firmware logic of the homelab ESP32 boards, verified with Verus.

| Program | Does |
| --- | --- |
| shelf display | fetches one status document and draws it on a 400x300 reflective LCD |
| air monitor | room CO2, temperature and humidity to InfluxDB, with an OLED readout |
| test programs | panel patterns, bit-banged I2C, WiFi |

`src/` is the library. Everything in it is computation over plain values, stated in
contracts and proved:

- `frame`, `raster`, `render`, `patterns`: the framebuffer as a set of inked pixels, and
  what each screen draws in it
- `st7305`: what the panel driver does on the wires, one action after the other
- `bitbang_spi`, `bitbang_i2c`, `bits`: the two buses as edges on their lines
- `shtc3`, `scd41`, `bus`: the sensors as requests and replies
- `net`, `influx`, `request`: what is asked over HTTP and what an answer means
- `refresh`, `monitor`: the two main loops
- `model`, `text`: the status document, and lines of bounded length

Where the library leans on `embedded-graphics`, `heapless` or `reqwless`, a small function
with a stated contract makes the call.

`app/` drives the library on the boards: pins, buses, radio, timers, parsing, and the
conversion of raw readings to degrees and percent. Its configuration comes from the
environment at build time: `WIFI_SSID`, `WIFI_PASSWORD`, `STATUS_URL`, `STATUS_TOKEN`,
`INFLUX_URL`, `INFLUX_ORG`, `INFLUX_BUCKET`, `INFLUX_TOKEN`, `INFLUX_MEASUREMENT`,
`INFLUX_TAGS`, and `PROGRAM`.
