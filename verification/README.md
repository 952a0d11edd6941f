# openclaw_shell

The logic of a safety-first shell for the OpenClaw CLI, verified with Verus.

- `src/` is the verified library: the JSON configuration model and its
  deep merge, API key validation and masking, safety settings, channel and
  skill configuration, the doctor's report, zip entry sanitising, the
  installer's paths, quoting and checksum check, the gateway's start/stop
  decisions and health wait, and the self-improvement store (lessons,
  error patterns, insights, and the shared learnings format).
- `app/` is the command-line program around it: files, processes, network,
  the clock, and the user preferences whose confidences are floats.
- `tests/` runs the library on concrete values.
