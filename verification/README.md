# nicco

A tokenizer for element templates written as Rust token trees, such as
`[ html html ]`, verified with Verus.

- `src/tokenizer/` reads a template (from a `proc_macro2::TokenStream` or from
  hand-built `Token` trees), reports what is wrong with it to a sink as
  messages, and returns the elements it names. The reading is specified by the
  spec functions `step`, `run` and `tokenize`; `laws.rs` proves properties
  that hold for every template.
- `src/sinks/` holds `VecSink`, a sink that records what it receives.
- `src/tree_builder/` and `src/driver.rs` hold the vocabulary of the tree
  builder and the settings of a parse.
- `app/` holds what stays outside the verified library: the `sink` crate's
  `ISink` trait on a shared sink, printing, and the `rsx` macro entry point.
