# rustlock

A Wayland screen locker whose decision logic is verified with Verus.

- `src/` is the verified library: password entry (`input`, `secret`), the
  locked surfaces and the manager that hands them key presses (`lock`), the
  session's decisions about the grace period, authentication results,
  function keys, the frame timer and screen capture (`session`), PAM
  conversation answers (`auth`), the box blur and pixelation of captured
  pixels (`effects`, `pixels`), decoding pictures and turning them and captured buffers
  into ARGB32 (`frame`), option parsing and printing (`util`), theme
  presets (`theme`), the texts the lock screen shows (`display`), system
  status decisions (`system`), surface sizes and feedback latches
  (`surface`), the fade timer (`timer`) and monotonic time (`clock`).
- `app/` is the program around it: command line and configuration file,
  the Wayland connection and event loop, Cairo drawing, D-Bus status
  queries, PAM calls and logging.
- `tests/` runs the library on concrete values.
