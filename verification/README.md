# filerecovery

Recover deleted files from SD cards, hard drives and disk images, by carving and by
reading filesystem metadata. The library is written in Verus: what each function
returns is stated in its contract and proved.

- `src/` is the library: signatures and carving (`carver`, `signatures`, `validate`,
  `identify`), filesystem backends (`fat`, `exfat`, `ext4`, and recognisers for the
  others), detection and undelete (`recover`), imaging (`image`), manifests and reports
  (`manifest`, `report`), triage, background jobs and the Model Context Protocol server
  (`job`, `json`, `mcp`).
- `tests/` runs the library on concrete inputs.
- `app/` is the command-line program: it opens devices, writes files, draws the progress
  bar and serves the protocol on stdin and stdout.

A source is anything that implements `source::BlockSource`; contracts speak of the bytes
of its image. Functions that read a device say what they return when every read is
served, and what still holds when one is not.
