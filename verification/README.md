# tree_sitter_txl

Generates TXL grammars from tree-sitter JSON grammars, with the generation
logic verified by Verus.

- `src/grammar.rs`: the grammar model (`Rule`, `NamedRule`, `Grammar`) and the
  output (`TxlGrammar`).
- `src/json.rs`: JSON documents as `serde_json` reads them (`Json`,
  `parse_json`) and the `Debug` text of an object.
- `src/decode.rs`: the reading of a tree-sitter grammar out of its JSON
  document (`decode_rule`, `grammar_from_json`, `grammar_from_text`).
- `src/ids.rs`: the counter that numbers the auxiliary `seq_N` definitions.
- `src/text.rs`: text helpers (decimal numbers, joining, cutting off the first
  and last character, `Debug` quoting).
- `src/first.rs`: the first generator, which keeps the language's concrete
  tokens (`NAME1.grm`, `NAME-seq1.grm`).
- `src/second.rs`: the second generator, which refines the grammar of
  tree-sitter S-expressions (`NAME2.grm`, `NAME-seq2.grm`).
- `src/laws.rs`: properties of both generators proved for every input.
- `app/main.rs`: reads `examples/rust.json`, hands its text to the library,
  runs both generators with one shared counter and writes the four files.

Each generator is specified by a spec function (`emit1`, `grammar_text1`,
`emit2`, `grammar_text2`) that gives the exact text written; the executable
functions return `None` exactly where the specification has no text: where
a repetition's text would have to lose its first and last byte and that cut
would not fall on character boundaries, or where a generator reads a field
of a node that the grammar file lacks.  A node is read from the file only as
far as its own level, so that each generator fails only on what it reads.  The first generator needs a start
rule and the second the `extras` and `externals` arrays; the program checks
for them before it calls a generator.
