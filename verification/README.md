# gamma_engine

The engine of a mutation-testing tool for Rust: it reads a source file, finds every place where a
small change would ask something of the tests, and writes all of these changes into one text, each
behind a guard that is switched at run time.

- `parse` reads a text: its lines, its comments, how deeply it nests, how hard it is
  on a parser, and the file as a whole.
- `syntax` is the tree the rest works on, and where `syn`'s is taken apart into it.
- `lexer` and `text` read tokens and regions of a text by byte offset.
- `cfg` decides which conditionally compiled code is in the build.
- `ops::registry` is the catalog of mutators, and the selections that are made from it.
- `ops::collect` finds the candidates of a file and gives each a stable identity; its `alike` is about
  code that was moved and is otherwise the same.
- `model` is what a mutant is once it has one.
- `schema` encodes mutants into a text.

Everything under `src/` is verified with Verus. What the library promises as a whole is stated by
the public proof functions whose names begin with `law_`. What is trusted are the declarations of
types and the small functions around calls into `syn`, `proc_macro2`, `rustc_lexer`, `strsim` and
std, each marked `#[verifier::external_body]`.

`app/` reads files from disk and holds the forms in which results are stored. `tests/` runs the
library.
