# luminal_hlo

Reading StableHLO modules, verified with Verus.

`src/` is the verified library:

- `text` — character-level search, trimming, splitting and decimal numbers;
- `lexer` — the tokens of one line, with the whitespace-splitting law;
- `ast` — operations and their attribute maps;
- `parser` — operation and `return` lines, read from their tokens;
- `conv` — convolution attributes, read from the text of the line;
- `shape` — `tensor<..>` shapes and `func.func` arguments;
- `lower` — which graph step each operation stands for;
- `hlo` — the lines of a module, what each holds, and the check that every
  value a step reads is defined before it.

Every public function states in its contract what it returns, and where an
input would make reading panic or never end, a `try_` form says so with `None`.
Positions inside a line count its characters (`Vec<char>`), not its bytes.

`app/` reads a module file and performs the graph steps on a luminal graph.
