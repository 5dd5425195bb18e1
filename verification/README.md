# ycd_animation_extractor

Lists the clip (animation) names held in GTA V `.ycd` clip dictionaries.

- `src/` is the verified library:
  - `resource_reader`: the two-stream reader (system stream at `0x50000000`,
    graphics stream at `0x60000000`), little-endian reads, records and C strings;
  - `resource_flags`: the page-size flags of RSC7 headers and their laws;
  - `inflate`: zlib / raw-deflate inflation through flate2;
  - `ycd_parse`: unpacking a `.ycd` buffer and walking its clip map;
  - `short_name`, `name_set`, `clip_index`: clip short names, the sorted name set,
    and the merged dictionary index of a folder scan.
- `app/` is the command-line tool: folder walk, file reads, JSON output.
- `tests/` exercises the library on hand-built dictionaries.
