# math_parser

A calculator language for text documents: numbers with units, dates and durations,
lists, functions defined in the script, and settings switched with `#define` and
`#undef`. Each statement of a script is evaluated, and the results and diagnostics are
returned as JSON.

## Layout

- `src/` is the library, verified with Verus:
  - `tokenizer` reads tokens from a source text (`cursor`), looks ahead one or two
    tokens (`peeking_tokenizer`) and maps byte offsets to characters, lines and columns
    (`indexing`);
  - `parser` builds the syntax tree of the statements (`nodes`), with the scopes of
    blocks and the functions they define; `grammar` states, as relations between the
    places where a reader starts and stops, how sums, products, powers,
    juxtapositions, postfix operators, lists and assignments are read, and
    `statement_grammar` how the statements of a text or a block follow each other;
  - `date` holds dates, durations and the parser of dates written as text;
  - `number` scans formatted numbers such as `'1.234,5'`;
  - `resolver` holds the units and which of them a scope accepts, what `#define` and
    `#undef` switch in a scope, what an assignment is warned about, and the operators;
  - `globals` and `functions` hold the sources, the known units and the built-in
    functions; `errors` the diagnostics and their messages; `text` and `naming` small
    text utilities.
- `app/` evaluates the syntax tree. Values are floating-point numbers there, which
  the verifier does not reason about; it also reads files and writes JSON.
- `tests/` exercises the library.
