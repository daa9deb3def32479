# bench

Replays recorded editing traces on several text ropes, as a benchmark of
those ropes.

- `src/offsets.rs`: the model. A rope holds a `Seq<char>`; offsets count
  UTF-8 bytes or code points; `offset_index`, `insert_text`, `remove_text`
  and `replace_text` say what an edit at given offsets makes of a text.
- `src/rope.rs`: the `Rope` trait, whose contracts are stated over that
  model, its default `replace`, and its impl for `String`.
- `src/crop_backend.rs`, `src/jumprope_backend.rs`, `src/ropey_backend.rs`,
  `src/xi_backend.rs`: the impls for crop, jumprope (`JumpRope`, and
  `JumpBufRope`, which holds a `JumpRopeBuf`), ropey and xi-rope (`XiRope`,
  which holds an `xi_rope::Rope`); each call into a crate goes through a
  wrapper whose contract is trusted.
- `src/trace.rs`: a trace (start text, transactions of patches, end text),
  what replaying it yields, `replay`, `replay_len_matches` and
  `trace_is_valid`.
- `src/laws.rs`: properties of edits and traces, proved.
- `app/main.rs`: the criterion benchmark: loads the traces, converts them,
  times the replays.
