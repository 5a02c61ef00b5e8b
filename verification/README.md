# dagent

The decisions behind a desktop companion, verified with Verus: what it remembers, what it
senses of the user's activity, and when and about what it speaks up.

- `src/` is the library. `memory`, `reflections`, `recall` and `dedup` keep and draw on the
  memory; `memory_extract`, `memory_reflect` and `memory_compress` ask a model about it.
  `activity` follows the windows in front. `proactive`, `topic` and `open_threads` decide
  when to speak and of what. `vision` sends pictures. `companion` joins the parts.
  `text`, `order`, `json`, `chat`, `clock`, `score` and `config` are the ground they stand on.
- `tests/` runs the library from outside.
- `app/` is the shell: files, the network, programs, the screen and the window.

Time is counted in microseconds, probabilities, weights and evidence in whole parts of one,
and the scores of reflections by the rank of their doubles, so that the library has no
floating point in it. What rests on the clock is decided by functions that take the time as
an argument; those without it read the clock once.
