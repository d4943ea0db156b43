# mini_llm

A small LLM inference library whose integer, text and format logic is
specified and proved with Verus.

`src/` is the verified library:

- `tensor`: shapes, row-major strides, broadcasting, strided views
  (transpose, slice, reshape, element offsets) and the shape side of the
  kernels (matrix-product and reduction plans), with their error messages.
- `model`: the GGUF container format (a parser and a writer with a
  specification of the byte layout, and the proof that what the writer
  produces parses back), decoding of stored tensor data, and the model
  configuration read from metadata.
- `tokenizer`: a byte-pair-encoding tokenizer, with the proof that decoding
  an encoding gives the text back: for the built-in tokenizer on every text
  whose characters are at most U+00FF, and for any vocabulary that holds
  every character and every merge result.
- `quantization`: half-precision bit conversions and the Q8_0 / Q4_0 block
  layouts.
- `cache`, `memory`: key/value cache and scratch-arena bookkeeping.
- `sampling`, `inference`, `cli`: the random state of the sampler, the
  decisions of the generation loop, and command-line options.

`app/` is the program around it: floating-point kernels, the transformer,
samplers, memory-mapped file loading and the command line. `tests/` exercise
the library.
