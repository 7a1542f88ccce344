# Flashblocks explorer

A verified library behind a real-time explorer of canonical blocks and
flashblocks, and the program around it.

`src/` (verified with Verus):

- `names`: the names of the data files (`{n}.json`, `flashblock_{n}_{i}.json`),
  recognising block files and the flashblock files of a block, and counting them.
- `explorer`: the block list (newest first, at most fifty rows) and the block page
  (transaction hashes, flashblocks by index), computed from a listing of the data
  directory whose files are read as JSON.
- `blocks`: the record kept of each canonical block.
- `json`: the JSON values that the explorer reads, with member and kind access.
- `sorting`: a stable insertion sort by key, with its laws.
- `decimal`, `hexfmt`, `text`: decimal and hexadecimal writing and reading, and
  character-level string helpers.
- `metrics`: wrapping event counters.
- `spam`: the parameters and bookkeeping of a batch of self-transfers.

`app/`: the program itself — the web server, the block subscription, file I/O,
JSON parsing and serialisation, and the transaction sender.
