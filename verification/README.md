# rust_dlna_server

A DLNA/UPnP media server whose core is written in Verus and proved against
its specifications.

- `src/` is the verified library: renderer profiles (`renderer`), DLNA
  feature strings (`dlna_helper`), the server state and its media library
  (`state`, `table`, `media_item`), renderer selection and stream planning
  (`streaming`), the SOAP answers including `Browse` (`soap`), SSDP packets
  (`ssdp`) and the announcement schedule, device descriptions and the device
  registry (`description`, `registry`), the library watcher's decisions and
  the reading of ffprobe reports (`watcher`), log rotation
  decisions (`logging`), the FFmpeg command line (`transcoder`), start-up
  decisions (`server`), error answers (`error`) and text utilities (`text`).
  Calls into `regex`, `roxmltree`, `serde_json`, `reqwest`'s URL parser, `md5`
  and `chrono` go through small trusted functions whose contracts state or
  name what they return.
- `app/` is the program around it: HTTP routes (axum), sockets, file watching,
  ffprobe/FFmpeg processes and logging.
- `tests/` exercises the library on concrete inputs.
