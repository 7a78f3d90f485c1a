# enginekit

A verified library behind four small programs: an LLM inference tool, a
teaching transformer (MiniLLM), a command-line task manager and a visual
novel engine.

- `src/` is verified with Verus.
  - `text`, `strmap`, `merge`: strings as character sequences, an
    insertion-ordered string map, and the merge scan of byte-pair encoding.
  - `llm`: byte-level BPE tokenizers (GPT-2, LLaMA, from vocab/merges text or
    tokenizer.json fields), model configurations, GGML/GGUF header reading and
    format decisions, 4-bit packing, and the step decisions of generation.
  - `mini`: the character-level BPE and WordPiece tokenizers, their training
    demo, and parameter counting.
  - `tasks`: tasks and users, the store's operations, statistics and the
    commands (add, modify, delete, list, stats).
  - `vn`: script parsing and the script interpreter, scene stack, renderer
    state and textures.
- `app/` is the command-line program: argument parsing, files, JSON, images,
  audio, locks, and everything that computes in floating point (model
  forward passes, sampling, quantization scales, embeddings, attention).
- `tests/` runs the library on concrete inputs.
