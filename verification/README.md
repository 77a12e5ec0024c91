# closedcaption

Closed captions and CD+G graphics: the parsers, encoders, converters and state machines behind the
elements of a media pipeline, as a library that is verified with [Verus](https://github.com/verus-lang/verus).

## What is in it

| Modules | What they do |
| --- | --- |
| `line_reader`, `parser_utils`, `caption_file` | lines, timecodes and positions of caption files |
| `mcc_parse`, `mcc_enc`, `scc_parse`, `scc_enc` | MCC and SCC files |
| `st2038anc_utils`, `cctost2038anc`, `st2038anctocc`, `st2038ancdemux`, `st2038ancmux` | ancillary data packets |
| `ccutils`, `ccdetect` | caption distribution packets, and which captions a stream carries |
| `cea608utils`, `cea608tojson`, `cea608tott`, `cea608overlay` | CEA-608 captions |
| `cea708`, `cea708utils`, `cea708mux`, `cea708overlay`, `cea608tocea708` | CEA-708 captions |
| `cdpserviceinject` | lists of services in caption distribution packets |
| `ttutils`, `jsontovtt` | timed text and WebVTT fragments |
| `cdgdec`, `cdgparse`, `cdgtypefind` | CD+G graphics |
| `bits`, `cea608`, `dtvcc`, `cdp` | what other crates read and write, with the contracts that the rest builds on |
| `clock`, `text`, `pango` | times, texts and text attributes |

The contract of a function says what it returns and what it changes. Where captions ask for what
cannot be carried out, the function says so; how far it got before that is left open. Promises that
span several functions are proof functions whose names begin with `law_`: MCC and SCC files that are
written read back line by line, ancillary packets read back, no code of a merged stream is lost, and
the like.

## What is believed without proof

Calls into other crates stand in small functions marked `external_body`. The comment above each
one names the function that it calls and says what its contract claims. They are in `bits`,
`ccutils`, `cdgdec`, `cdp`, `cea608`, `dtvcc` and `mcc_enc`; `text` does the same for two functions
of the standard library.

## Around the library

`app/` holds the elements themselves. They read and push buffers, keep the clock and draw text;
they decide nothing that the library could decide. `tests/` runs the library on exact values.
