# sig_pattern

Byte pattern signatures, verified with Verus.

A `PatternByte` is a byte with a `Mask` that keeps both nibbles, one of them,
or neither (`AB`, `A?`, `?B`, `??`). A `Pattern` is a sequence of them; it can
be read from text (`0xAB CD ?F`), written back as text, merged with another
pattern into a broader one, and searched for in data.

Layout:

- `src/util.rs`: hexadecimal digits.
- `src/text.rs`: trimming, decimal and hexadecimal text, the two calls into std
  that build and trim strings.
- `src/byte.rs`: `Mask`, `PatternByte`, their errors, parsing and formatting of
  one pattern byte, and the laws of merging pattern bytes.
- `src/pattern.rs`: `Pattern`: parsing, formatting, merging, matching and
  searching, and the laws of merging and of reading back formatted text.
- `src/cli.rs`: the `sig` commands (`count`, `format`, `merge`) as a function
  from arguments to what they print.
- `app/main.rs`: the `sig` program: argument parsing with clap, reading the
  file of `merge --file`, printing.
