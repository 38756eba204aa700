# record_replay_ocr

Optical character recognition of captured screen frames, with the rules of it verified by Verus:
which backend runs, what its output means, and what of the recognised text may be kept.

- `src/` is the verified library. `policy`, `readiness`, `selection` and `command` choose and check a
  backend; `process` decides how long a program may run; `payload`, `tsv`, `observation`,
  `confidence` and `double` turn its output into texts with their places; `frame`, `recognize` and `record` decide what is kept
  of a frame and how it is written down; `text`, `number`, `cut`, `json`, `error` and `scripts` serve
  the rest.
- `app/` runs the programs, reads the environment, the clock and the decimals of a table, and turns
  bit patterns into numbers.
- `tests/` runs the library.
