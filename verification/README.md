# legra_chunk

Content-defined chunking for structured containers and documents,
verified with Verus.

Every profile is a per-byte state machine given as a spec function
(`zip_byte`, `ber_byte`, `pdf_byte`, `text_byte`); a window is the
fold of that step over its bytes (`chunker::feed`), and each chunker's
`push` and `finish` are proved to follow it exactly: on success the
next state and the chunks completed; on a rejection the fault with the
offset of the first rejected byte and the chunks emitted before it
(`chunker::feed_emitted`); after a rejection, the rejected error with
nothing changed.
The laws proved over those models:

- window independence — feeding `a` then `b` is feeding `a + b`
  (`lemma_*_feed_split`);
- conservation — emitted chunks followed by the open chunk are the
  input, every chunk is non-empty and within the maximum
  (`lemma_*_feed_conserves`, `lemma_*_stream_concatenates`);
- structured text cuts only at textual seams and never inside a UTF-8
  scalar (`lemma_text_cuts_at_seams`, `lemma_text_chunks_whole_scalars`);
- canonical TAR headers carry a valid checksum and read back
  (`lemma_header_round_trip`), and a canonical one-member archive walks
  back through the TAR walker to that member's path, size and bytes
  (`lemma_member_header_walks_back`, `lemma_member_archive_walks_back`).

Layout:

- `src/chunker.rs`, `src/assembler.rs`, `src/gear.rs` — the profile
  interface, the fold, and the boundary assembler with its gear hash;
- `src/zip`, `src/office`, `src/pdf`, `src/text` — the `zip-v1`,
  `ooxml-ber-v1`, `pdf-v1` and `structured-text-v1` profiles, the
  canonical ZIP record emitter, and the member decoder (stored or raw
  deflate through `miniz_oxide`, with CRC-32 and length accounting);
- `src/decompose` — the decomposition vocabulary, the TAR walker and
  reader, the gzip reader (header, optional parts, trailer and
  concatenated members around a `miniz_oxide` inflater), the member
  path and naming rules, and the canonical TAR, ZIP and gzip writers
  (CRC-32 from `crc32fast`);
- `tests/` — behaviour and regression tests on generated corpora;
- `app/` — the error types with `Display`/`Error`.

Where a step hands bytes to `miniz_oxide`, the call's result is named
as a function of its arguments (`inflate_call`, `deflate_call`, and the
constructors `inflater_with_window_bits`, `compressor_with_flags`,
`zip_param_flags`): the inflater or compressor state is one of those
arguments. The member decoder's drain, the gzip reader's body step and
the gzip writer's push and finish are folds over those named calls
(`drain_from`, `body_from`, `push_from`, `finish_from`), and their
contracts state the result exactly. What each call's status leads to is
a verified function of its own (`after_drain_round`, `after_body_round`,
`round_fault`). CRC-32 is stated bit-serially (`crc32_of`).

Further laws: a canonical TAR archive — members and directory, link
and device entries, long paths and link targets and sizes too large
for the size field carried by pax records — walks back through the TAR
walker, each item reported in order with its path, kind and size and
each member's exact bytes (`lemma_canonical_archive_walks_back`, with
the pax parse in `read_back.rs`); the canonical gzip header
takes the reader into the deflate body and the writer's trailer closes
a member that decoded to the written input
(`lemma_writer_header_opens_the_body`,
`lemma_writer_trailer_closes_the_member`).

Not here: the canonicalizing `ooxml-v1` chunker, the decomposer and its
ZIP reader, media inference, the generic CDC chunker and the media
profiles. Their sources lean on parts that are absent (the chunk
assembler and gear hash, the raw inflater, the media-type, probe,
profile and registry modules) or on ZIP walker events that no code
emits. The boundary assembler and gear hash here are this crate's own:
their table seeds are fixed in `src/gear.rs`, so boundaries frozen
against another table do not carry over.
