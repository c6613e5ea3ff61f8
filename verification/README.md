# cargo_deb

The verified core of a tool that makes Debian packages (`.deb`) of Cargo projects.

- `src/` is the library. Every function states in its contract what it computes, and Verus proves it:
  how a manifest and options become the configuration of a package (`config`, `parse`), which files go
  into it (`assets`, `globs`), what becomes of debug symbols (`debuginfo`), what the package depends on
  (`dependencies`), and the bytes of the archives that it consists of (`deb`, `compress`). Paths and text
  are modelled as sequences of characters (`paths`, `path_parts`, `text`, `order`).
- `app/` is the program: arguments, files, other programs, and the terminal. It hands the library plain
  values, and does what the library decides. It has no templates for the pieces that enable and start
  systemd units, so what it puts in the place of `#DEBHELPER#` in maintainer scripts is empty.
- `tests/` runs the library with the `tar`, `ar`, `flate2`, `xz2`, `toml`, `regex` and `elf` crates.

Functions of other crates that the library calls are declared next to where they are used, each with a
comment that says what is taken for granted of it. Functions whose names begin with `law_` prove
properties that hold of the library as a whole.
