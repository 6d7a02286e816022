# errorscript

The verified core of ErrorScript, a checker of the errors that TypeScript and
JavaScript calls may throw or reject with. `src/` is a Verus library. Its
functions carry contracts that Verus proves, except the small wrappers around
calls into `im`, `petgraph`, `relative-path`, `glob` and std, whose contracts
are trusted and say in their doc comments what they claim of the outside
code.

- `set`, `builtins`, `error`, `ident`: sets of error types, with builtin types
  packed into bits.
- `value`, `env`, `flow`: abstract values, environments and the completions
  (normal, return, throw, break, continue) of an evaluation, with their joins
  and the summary of a function.
- `globals`: the table of standard globals and the errors their calls may
  raise.
- `resolve`: what a callee, a base class or a type reference denotes, following
  bindings, exports and `export *` with cycles cut; constructors reached by
  `new`; the targets of a call.
- `exports`: export names closed under `export *` re-exports.
- `function`: the call graph, its strongly connected components (computed with
  `petgraph`) and recursion.
- `schedule`, `queue`, `rounds`, `arguments`: the solver's dependencies
  between components, the versioned summary store, the ready queue, the
  rounds (what runs next, when a round is done, when the solver stops) and
  argument facts.
- `subtype`, `bindings`: subtyping for `instanceof` narrowing, and the bindings
  that calls may change.
- `analysis`: the may-throw analysis of expressions and statements. A
  module's syntax is an arena of nodes whose children come first; `eval`
  computes each node's flow (how it may complete, with environment and value)
  exactly as the spec function `eval_view` states it: literals (template,
  array and object literals among them), assignments and updates, reads of
  locals and of standard globals, logical, conditional, unary and binary
  operators, `await`, calls and `new` (with the summaries of the functions a
  call may reach, the standard globals it may call, and the bindings a call
  may change), declarations with identifier, object, array and default
  patterns, `throw`, `return`, `if`, blocks, labels, `break`, `continue`,
  `try`/`catch`/`finally`, `switch`, `if` narrowing a local by
  `instanceof`, and `while`, `do`-`while`, `for`,
  `for`-`of` and `for`-`in` loops, whose rounds run until the loop head's
  environment no longer changes (after 2^64 - 1 rounds a loop would be
  treated as doing anything). `function_summary` binds a function's
  parameters to the values they are given (an optional one may also be
  `undefined`, a default replaces `undefined`), runs the body and summarizes
  its completions.
- `editor` also decides, from a call's ancestors, whether it is caught,
  awaited, or has a rejection handler chained on it (`.catch`, or `.then`
  with a second argument; `.finally` alone does not handle), and whether a
  promise kept in an immutable local is handled where it is used.
- `walk`: file discovery by glob patterns (matching by `glob`).
- `refresh`: the decisions of an editor refresh: which modules are visited,
  which are skipped, and which changed.
- `editor`, `lines`, `report`: the modules an edit affects, call reports,
  hovers, diagnostics, open documents, build coalescing, and UTF-16 positions.
- `path`, `module_id`, `config`, `cli`, `references`, `names`, `text`, `keyed`,
  `sorted`: paths and module identities, configuration, command line, module
  references and small helpers.

`app/` is the `esc` command line: it reads the configuration, walks the file
system and prints the modules a project selects.

What is not here: a parser (this crate depends on no JavaScript parser), the walk over a parsed module that collects
its bindings, exports and calls, and the parts of the analysis that the
syntax model above leaves out: reads of object members, the types of properties read from objects, class bodies, `with`,
the choice of the values a function's parameters are given (annotations,
declared signatures or the arguments of its calls), and the facts that calls
record about their arguments. A node of a form the model
leaves out is analysed as one about which nothing is known (`Unknown`,
`UnknownStatement`): it may give any value and throw anything.
