# lib — a verified core of a SystemVerilog elaborator

Expression lowering, casts, frame-call binding, dynamic-storage method
statements, and the width, sign, routing and classification decisions an
elaborator makes while it lowers SystemVerilog source to its intermediate
form, written in Verus with their contracts proved.

Layout of `src/`:

- `ast.rs`, `ir.rs` — the source tree and the lowered form the decisions read.
- `elab.rs` — the elaborator's state: the expression arena, the tables, the
  frame bodies, the diagnostics.
- `expr_ctx.rs`, `ir_width.rs`, `casts.rs` — self-determined widths and
  signs, context widths, casts and the operand coercions around them.
- `scope.rs`, `pkg.rs`, `names.rs` — scoped lookups, dynamic-storage
  handles and initializers, package constants.
- `frames_ast.rs`, `frames_set.rs`, `frame_check.rs`, `frame_unsafe.rs`,
  `calls.rs`, `graph.rs` — which subroutines run on frames, and whether a
  lowered frame body stays inside the frame-call subset.
- `args.rs` — named and default argument binding.
- `events.rs`, `format.rs` — sensitivity lists, `iff` guards, format strings.
- `census.rs`, `facts.rs`, `hier.rs` — the names a module declares, its
  parameter slots and instances, and when a hierarchical leaf's declared
  width is exact.
- `dup.rs` — structural copies of expressions.
- `lower.rs` — expression lowering, self-determined and under a context
  width that unsized fill literals grow to, with the laws of the context
  rule; `size_ctx.rs` — the self-determined width of a size-cast operand.
- `cast_lower.rs` — static casts by their target.
- `task_call.rs` — the copy-in and copy-out binding of frame task and
  function calls.
- `dyn_method.rs` — dynamic-storage methods called as statements;
  `dyn_assign.rs` — assignments of whole dynamic-storage values (handle
  copies, queue slices, allocations, pops into a target).

`tests/` runs the library on concrete designs.
