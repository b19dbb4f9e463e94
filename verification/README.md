# vevor-lcd

A Linux driver for the segmented LCD of the VEVOR AIO CPU cooler (USB HID
`5131:2007`, product string `FBB`). The display shows the CPU temperature, the
GPU temperature and a clock. It blanks itself after about a second without a
report.

```
vevor-lcd [--device PATH] [--interval MS]

  --device PATH   hidraw node to write (default: /dev/vevor_lcd)
  --interval MS   ms between frames (default: 200; must be 1..999)
```

`src/` is the logic, verified with Verus:

| Module    | What it holds                                                    |
|-----------|------------------------------------------------------------------|
| `frame`   | the report: four rendered bytes in a fixed template              |
| `writer`  | the loop that writes: look, write, wait, and when it gives up    |
| `temps`   | readings: parsing, rounding, what to keep when a read fails      |
| `hwmon`   | hardware monitors: listing, names, label and temperature files   |
| `search`  | the search for the CPU sensor                                    |
| `gpu`     | the GPU reading: `nvidia-smi`, or else the `amdgpu` monitor      |
| `reader`  | the loop that reads: search once, then read and wait             |
| `io`      | what the reading loop asks of the system, and what it hears back |
| `cli`     | the command line, its errors and the help text                   |
| `decimal` | whole numbers in decimal notation                                |
| `text`    | white space, lines, prefixes, UTF-8                              |
| `names`   | file names and paths as bytes, and their order                   |

The loops do no I/O. Each tells the next thing to do and takes in what came of
it. `app/` is the program that does these things: files, the `nvidia-smi`
process, the local time, two threads and the device.

Nothing in `app/` is proved. In `src/` one thing is taken on trust: that
`std::str::from_utf8` decodes UTF-8 (`text::utf8_text`).
