# superview

Dynamic video stretching: turns a video in 4:3 into one in 16:9, and back, by
moving the columns of the picture outwards with the square of their distance from
the middle, so that the middle keeps its shape.

- `src/` is the library. It is written in Verus: every function has a contract,
  and Verus proves that it is met. It computes the remap tables, reads what ffmpeg
  and ffprobe answer, chooses encoders, devices and qualities, puts the commands
  together, and decides what is done with a file and with a list of files.
- `app/` is the program around it: the command line, files, and running ffmpeg and
  ffprobe.
- `tests/` runs the library on concrete values.

The tables are computed in double precision. The library does this in integers
(`src/binary64.rs`): each operation is proved to give the number nearest to the
exact result, ties to even, and `tests/remap.rs` compares the bits with those of
the hardware on many samples, where what is not a number counts as one value. So
the tables can be reasoned about: `src/tables.rs` proves that a table begins and
ends with the picture, keeps its middle and never goes back, that stretching loses
no column, and that squeezing undoes it.

The library trusts one function of the standard library, `String::from_utf8_lossy`
(`src/bytes.rs`).
