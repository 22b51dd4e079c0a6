# fishnet

A client that has chess positions analysed by UCI engines: it reads positions,
gives them to engine processes that share the machine, and prints what the
engines find.

- `src/` is the library, with contracts that Verus proves. It says what is written to an engine (`commands`)
  and what the engine's lines stand for (`uci`, `moves`, `decimal`, `text`), what
  the reports on a position add up to (`search`, `matrix`, `work`), how a whole
  conversation with an engine goes (`session`), how the machine is shared out
  (`resources`), where the settings come from (`config`), and what the engine
  task (`actor`), a worker (`worker`) and the main loop (`supervisor`) do next.
- `app/` is the program around it: processes, signals, timers and channels. It
  performs what the library decides and hands back what happened. It also holds
  the queue of positions and the random times to wait before an engine is
  started.
- `tests/` runs the library on concrete values.

Functions named `law_...` state what holds of the library as a whole.
