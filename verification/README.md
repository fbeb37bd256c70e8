# vue_rs

Vue-style single-file components with the `<script>` written in Rust: a
`.vrs` source is split into its `<template>`, `<script>` and `<style>` blocks,
the template is lowered into `El`-builder Rust code, the script's Vue
spellings are mapped onto the reactive core, and scoped CSS is rewritten to
target the component's elements.

The library under `src/` is verified with Verus:

- `sfc` splits a source into its blocks; `style` derives scope ids and scopes CSS.
- `compiler` parses templates (`parser`), reads directives (`directives`,
  `scan`), lowers templates to builder code (`codegen`, `compile`), rewrites
  scripts (`script`) and reads their statements through `syn`
  (`script_parse`), generates props builders, slot structs and reactive
  companions (`items`) and whole components (`component`). `laws` holds
  properties of the lowering that hold for every template.
- `dom` holds the attribute-string builders, event options, the `Backend`
  abstraction with its node model, the element builder, an in-memory
  backend (`MockDom`) and the row plan of a keyed list (`keyed`).

The compile functions hand back a `SourceTokens`: the token stream lexed, on
proc-macro2's fallback lexer, from the generated source text, which their
contracts fix together with the trees the stream holds.

`app/` holds what Verus does not see: reading a macro's own syntax input with
`syn` into the library's item model, the macro front ends, template refs and the browser
backend over `web-sys` (whose listener guards are decided by the library's
`listener_fires`).
