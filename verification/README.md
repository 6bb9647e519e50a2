# bonk

`bonk` packs a Docker image into one self-contained executable: a runner
program, the image's root filesystem as a SquashFS payload, optional static
`bwrap` and `unsquashfs` binaries, the container's config as JSON, and a
56-byte footer that locates them. Run, the executable finds its own payload,
makes the rootfs available (loop-mount or extraction, cached under `/tmp`)
and starts the container under `bwrap`.

## Layout

- `src/` — the verified library (Verus):
  - `footer.rs`: the footer format and the layout of a packed executable,
    with the proofs that a footer reads back from any executable that ends
    with it and that its offsets locate each packed section;
  - `path.rs`, `flatten.rs`: Unix path components, joining tar paths onto a
    rootfs, whiteout handling, with the proofs that nothing outside the
    rootfs is ever named;
  - `config.rs`, `image.rs`, `cli.rs`, `tools.rs`: reading an exported image,
    the `docker save` command line, the output name, the tool search order;
  - `runner.rs`, `mounts.rs`, `runtime.rs`: the packed executable at run time:
    its sections, its cache paths, the recorded rootfs strategy, the mount
    table, and the `bwrap` command line;
  - `size.rs`: human-readable sizes, computed exactly with integers;
  - `text.rs`, `error.rs`: string helpers and the library's errors.
- `tests/` — tests of the library, including comparisons with std's own
  path, string and float formatting behaviour.
- `app/` — the program around the library: command-line parsing, Docker,
  tar and compression, file system work, and spawning `bwrap`.
