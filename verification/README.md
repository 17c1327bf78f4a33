# qwen35

A hybrid language model read from a quantized model file: every few layers one has full attention,
the others have linear attention (the gated delta net). The library is written in Verus; what each
function computes is stated in its contract and proved.

- `src/` is the library.
  - `shape`, `view`, `coords`: tensors as values, and where their elements lie.
  - `candle`, `metadata`: the tensor library and the file format's values, with what is taken to be
    true of them.
  - `ops`, `linear`, `heads`: tensor operations that keep within memory, linear maps, and heads.
  - `conv`, `gating`, `norm`, `recurrence`, `linear_attention`: linear attention up to the recurrence
    and after it.
  - `attention`, `mlp`: full attention around the attention itself, and the feed-forward block.
  - `props`, `plan`, `names`, `load`, `model`: from the metadata and the tensors of a file to a model.
  - `positions`, `pass`: a forward pass as a sequence of steps. Each step says what it needs from
    outside (a norm, a rotation, the attention, the recurrence, a cache); the reply gives the next.
  - `error`: what can go wrong.
- `tests/` run the library on concrete values.
- `app/` reads model files and carries out what a pass asks for, given an engine for norms, rotary
  embedding, attention, recurrence and caches.

The laws that relate several functions are the proof functions named `law_..`: that the convolution of a
token that goes on from the cache is that of one long prefill (of the recurrence, which is computed
outside, nothing of the kind is claimed), that the convolution is causal, that a fresh start forgets the
state, that the sequences of a batch are convolved apart, that heads laid out in lines come back where
they were, that a pass takes seven replies for each layer and three more and counts its tokens, and
others.
