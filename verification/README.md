# schelk

schelk keeps two volumes for benchmarking on large stateful datasets: a virgin volume with the
baseline, and a scratch volume that a benchmark may write to. While the scratch volume is mounted,
dm-era tracks which of its blocks are written; afterwards `schelk recover` copies just those blocks
back from virgin. Linux only.

The commands are `init-new`, `init-from`, `full-recover`, `mount`, `recover`, `restore`, `promote` and
`status`.

## Layout

- `src/` is the library. It is written in Verus: every function has a contract that is proved, and
  the promises of the tool as a whole are proof functions whose names begin with `law_`. The commands
  are runs that ask for one thing after another (`commands::session::Request`) and are told how it went
  (`Reply`), so that what a command does in what order is proved for every outcome of every step.
- `tests/` runs the library on concrete values.
- `app/` is the program around it: the command line, processes, files, devices and io_uring.

## What is not proved

The library trusts a few contracts of functions that it calls: `quick_xml`'s reader (that it hands
out the tokens of a document one after another), `sha2` (that a digest depends on the bytes alone),
`nix`'s `major` and `minor`, and, of the standard library, `String::push`, `Path::parent` and the debug
format of a string. Each stands beside its contract in the source, marked `external_body` or
`assume_specification`. `app/` is ordinary Rust and is not verified.
