# cridecoder

Readers and writers of CRI audio and video containers, verified with Verus:

- `acb`: `@UTF` tables, AFS2 archives and ACB cue sheets,
- `hca`: HCA headers, frames, streams and keys,
- `usm`: USM movies, their masks, streams and metadata,
- `reader`, `bytes`, `text`, `str_map`: what these share.

`src/` is the verified library. Every public function states in its contract
what it computes, over plain byte sequences and the models declared beside it.
Properties that span several functions are public proof functions: a table of
ASCII texts, an archive, a header and a frame that are written are read back as
they were, other texts of a table as they come out of Shift-JIS, a mask that is
put on comes off, a block reads the same whatever was read before it, so that
blocks shared out among threads give what they give in order, a key undoes its
encryption, as many samples come out of a stream as went in, and a frame whose
levels were chosen from the cost of its values fits.

Reading integers is left to `byteorder`, text encodings to `encoding_rs`,
hashing of table rows to `rustc-hash` and hexadecimal digits to `hex`. Each of
these calls stands in a small function whose contract says what is expected of
it.

Single-precision numbers are held by their bits in `src/`. The signal path,
file access, threads, JSON and the Python bindings are in `app/`. The constants
of the signal path, the cipher tables, the hearing curves and the walk over the
cue tables are handed to `app/` by its host as a `Codec`.

`tests/` runs the library on concrete data.
