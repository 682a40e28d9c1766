# type-narrower

Static analysis for TypeScript that finds function parameters whose declared
union types are wider than anything the call sites pass, with the analysis
itself verified by Verus.

```ts
type Channel = "email" | "sms" | "push" | "fax";
function send(channel: Channel) {}
send("email"); send("sms"); send("push");
```

```
a.ts:2  send(channel): declared "email" | "sms" | "push" | "fax", never passed: "fax"  [3 calls: a.ts:3, a.ts:3, a.ts:3]
```

Whatever cannot be proved degrades to silence. `laws.rs`, `reached.rs` and
`extracted.rs` state what that means and prove it: a finding names just the
constituents that every call of the function excludes, every usage that might
reach a function without being attributed to it silences the function, and no
call in a syntax tree is dropped.

## Layout

The library, `src/`:

- `text.rs`, `number.rs`, `path.rs`, `source.rs`, `json.rs`, `jsonc.rs`: texts,
  numbers, paths, positions and documents.
- `surrogate.rs`, `syntax.rs`: the parser's output as a tree (oxc parses, the
  tree is its ESTree document).
- `model.rs`: what is kept of a module.
- `annotation.rs`, `param.rs`, `scope.rs`, `prepass.rs`, `observe.rs`,
  `usage.rs`, `visit.rs`, `extract.rs`: from a tree to a module.
- `workspace.rs`, `specifier.rs`, `probe.rs`: which file an import means.
- `ty.rs`, `resolve.rs`, `narrow.rs`: types, their resolution across modules,
  and the narrowing core.
- `taint.rs`, `link.rs`, `order.rs`, `report.rs`, `project.rs`: linking usages
  to declarations, and the report.
- `diff.rs`: which lines a diff changes.
- `genproj.rs`: synthetic projects with a known number of findings.
- `cli.rs`: the command line and what is printed.
- `laws.rs`, `kept.rs`, `reached.rs`, `extracted.rs`, `chains.rs`: what holds of
  all of this.

`app/` is the program around it: directories, git, threads and output.
