# pix_mcp

A server that lets MCP clients capture and analyze DirectX 12 frames with Microsoft PIX, by
driving `pixtool`.

What the server decides and computes is a library in Verus: every function states what it
returns and is proved to do so. Where that rests on what another crate makes of its arguments,
the contract names the result of that call; where systems read a path differently, it states
what holds on all of them. The program around the library talks to the client, the file system
and `pixtool`.

## Layout

- `src/` is the library.
  - Text and numbers: `text`, `utf8`, `numbers`, `finite`, `json`, `paths`, `order`, `budget`,
    `failure`.
  - `pixtool`: its arguments (`pixtool`, `plans`), finding it (`versions`), its runs
    (`process`), what it prints (`diagnostics`) and the files it leaves (`files`).
  - Event lists: `tables`, `events`, `events_answer`, `exports`, `sequences`, `changes`, `columns`.
  - Answers: `analysis`, `analysis_answer`, `frame`, `frame_answer`, `compare`,
    `compare_plan`, `compare_answer`, `counters`, `screenshot`, `images`, `capture`, `launch`,
    `workflow`, `status`.
  - The protocol: `server`, `resources`, `prompts`, `prompt_lines`, `completion`.
- `app/` is the program: arguments and answers as the protocol carries them, processes, files,
  and the server itself.
- `tests/` runs the library with the crates that it calls.

## What is proved

Besides the contracts, the library states as proof functions what holds of it as a whole. Some
of them:

- Pages of an event list, and pages of the resource catalog, cover everything once; a cursor is
  accepted only for the catalog it was given out for.
- An answer keeps within its byte budget, and nothing is left out of it without need.
- A command line that is passed on is read back as it was given.
- Output that was cut is never trusted, and the processes of a run are left alone only where
  `pixtool` ended well.
- No `capture://` address leads out of the capture directory, and the address of a capture names
  that capture.
- The values of a prompt stay on their lines, and its workflow stays as it is.
- Swapping two captures negates every difference between them.

Numbers in floating point are held by their bits; sums, means and percentages are worked out by
the program.

## Environment

| Variable | Meaning |
|----------|---------|
| `PIXTOOL_PATH` | Where `pixtool.exe` is |
| `PIX_MCP_CAPTURES_DIR` | The capture directory; the current one if unset |
| `PIX_MCP_INPUT_ROOTS`, `PIX_MCP_OUTPUT_ROOTS`, `PIX_MCP_EXECUTABLE_ROOTS` | Where files may be read, written and launched; no limit if unset |
| `PIX_MCP_ALLOW_UNC_PATHS`, `PIX_MCP_ALLOW_ELEVATED_LAUNCH` | Allow network paths, and launches while elevated |
| `PIX_MCP_MAX_CONCURRENT_TOOLS` | How many tools run at once |
| `RUST_LOG` | The log level |
