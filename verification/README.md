# ORR Desktop Recorder

A screen recorder for the Windows system tray: record the whole screen or a region
picked with the mouse, straight to MP4.

The library under `src/` is verified with Verus. It decides and computes; the program
under `app/` talks to the system around it.

| Module | Contents |
|--------|----------|
| `pipeline` | the seam between capture, encoding and muxing, and the loop that drives it |
| `capture` | regions, monitors, pacing, cropping of captured pictures |
| `encode` | BGRA to I420 conversion, and the OpenH264 encoder stage |
| `mux` | the MP4 muxer stage on `muxide` |
| `native` | one recording session within the process |
| `recorder` | the external recorder: detection, choice of encoder, command line |
| `watch` | what is reported of the external recorder |
| `tray` | the tray application's menu and state machine |
| `selector` | the rubber band: messages, picking, painting |
| `settings`, `cli`, `icon`, `audio` | the rest of the application |
| `calendar`, `text`, `decode`, `num`, `error` | dates, text, bytes as text, numbers, errors |

Outside crates are called through functions marked `external_body`, each with a
comment that says what is claimed of the call: the codec in `encode/sw.rs`, the
container in `mux/mp4.rs`, the decoding of bytes in `decode.rs`.

## Environment

| Variable | Effect |
|----------|--------|
| `ORR_LEGACY=1` | record through `ffmpeg` |
| `ORR_FFMPEG` | where `ffmpeg` is |
| `ORR_PRINT_CMD=1` | print the arguments for `ffmpeg` instead of recording |
