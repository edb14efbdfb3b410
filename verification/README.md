# wheelfs

Converts FreeBSD python packages into wheels.

The payload of a FreeBSD python package is an unpacked wheel: the `site-packages` tree with its
`dist-info` directory. A wheel is made of it by taking that tree out of the package, stamping the
`WHEEL` file with the platform tag of a machine, writing `RECORD` anew, and zipping the result.
Packages in the older `egg-info` layout get a `dist-info` directory first.

- `src/` is the library. Its functions carry contracts that Verus proves.
  - `package` reads packages, `egg` turns the egg-info layout into the dist-info layout, `wheel`
    stamps `WHEEL` files, `convert` plans and packs wheels.
  - `naming` knows platform tags, package names and package files; `materialize` decides what to
    do in a run over packages and their dependencies.
  - `text` says what searching, splitting and ordering text mean; `chars` does it; `sorted_map`
    and `paths` build on them.
  - `external` holds everything that is taken from std and other crates without proof.
  - `laws` holds what is proved of the functions together.
- `app/` is the command line program: arguments, files, `uname` and `pkg`, and messages.
- `tests/` runs the library, with the real outside crates.
