# wow_ls

A language server for the Lua of World of Warcraft add-ons: it reads Lua
text, builds a rowan syntax tree, reports syntax errors, answers hover
requests and infers the types of variables (numbers, strings, booleans,
functions and tables with their fields) without type annotations.

The library in `src/` is verified with Verus:

- `syntax::lexer` and `lexer`: the two tokenizers, each with a full
  specification of the tokens it gives for a text.
- `syntax::syntax`: the generator that builds the tree through rowan's
  builder; every method terminates, uses the builder as rowan demands, and
  records only errors that lie within the text.
- `ast` and `ast::typed`: the tree as plain values, typed views of its
  nodes, and the node a hover points at.
- `variables`: the scoped type environment and the type inference over the
  tree, with laws on how lookups, updates and scopes interact.
- `lex` and `parse`: the table-driven lexer built on m_lexer.
- `lsp`: what the server computes before it answers (error ranges, hover
  offsets).

`app/` holds the program around it: the stdio server loop, file reading and
printing.
