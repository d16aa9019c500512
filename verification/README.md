# cola_cutter

A batch video cutter: a folder of videos is cut into segments, either at a
fixed length or where a vision model, shown frames of the video, proposes
good shots.

The crate is a Verus library with its specifications and proofs; `app/` is
the desktop shell (Tauri commands, files, processes, HTTP) that calls it.

Times are whole milliseconds (`i64`) in the library; frame rates are in
thousandths of a frame per second.

## Modules of the library

- `text`, `number`, `seconds`: characters, lines, trimming, decimal numbers,
  seconds written and read.
- `config`: requirements, templates and the template list, the whole
  configuration and where it is stored.
- `plan`: analysis windows, plain-cut plans, output and cache file names,
  video file names, frame files, used-video actions.
- `ai_run`: the AI mode of one video, window by window.
- `cutting`: which segments a video ends up with, and one cut's limits and
  messages.
- `vision`, `reply`: reading model replies (JSON or free text), the prompt,
  batches of frames, HTTP answers.
- `watermark`, `locate`, `probe`, `cleanup`, `names`: frame stamps, where
  `ffmpeg` is looked for, reading `ffmpeg -i` output, start-up clean-up, and
  ordering by name.
- `json`, `pattern`, `encoding`, `clock`: the calls into `serde_json`,
  `regex`, `base64` and the system clock, with their stated contracts.
