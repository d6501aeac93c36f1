# rozum

The core of a gateway for local language models, written in Verus: the contracts of
`src/` are proved, but for the few of outside functions that are named at the end.

- `src/serving.rs` recovers tool calls from what a model writes.
- `src/mistralrs_admission.rs` and `src/proxy.rs` decide who may go next, what is
  sent again and what is refused.
- `src/mlx_native_backend/` holds what is decided around the tensors: the way a
  request is decoded, caches of past conversations, batches, speculation,
  constrained decoding and the stream that the reader sees.
- `src/openai_http.rs` and `src/mistralrs_backend.rs` turn requests and answers
  of other engines into the gateway's own.
- `src/resident.rs`, `src/models.rs`, `src/modelscope.rs` deal with models on disk
  and in memory; `src/router.rs` with small models that classify and judge.
- `src/sandbox.rs`, `src/service.rs`, `src/services.rs` write the profiles and
  files that other programs read.
- `src/meeting/` is the state behind the clients of a meeting room.
- `src/text.rs`, `src/json.rs`, `src/paths.rs`, `src/rounding.rs`, `src/chat.rs`
  are what the others build on.

Around it, `app/` does what touches the world: sockets, files, processes, the
clock and floating point. `tests/` runs the library on concrete values.

What is taken on trust is marked `external_body`, `assume_specification` or
`uninterp`, with a comment that says what is claimed: parsing and printing JSON
(`serde_json`), base64, and a handful of functions of the standard library on
strings and characters.
