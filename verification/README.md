# bottleship

The core of an x86 emulator that compiles guest code to WebAssembly, written and verified in
Verus. Guest code that is entered often is searched for basic blocks, compiled to a function of
WebAssembly instructions, and published in a table from which compiled code is entered; beside
that stand operations on guest memory, x87 numbers and graphics state that bypass the compiler.

## Layout

`src/` is the verified library.

- `wasm`, `wasm_calls`, `wasm_run`, `wasm_flow`: the builder for function bodies, what surrounds
  its calls, what the instructions do on words, and where blocks, branches and calls lead.
- `cpu_state`, `modrm`, `jit_context`: the emulated CPU, its memory operands, and the state that
  code generation threads through a unit.
- `codegen_reg`, `codegen_mem`, `codegen_stack`, `codegen_cond`, `codegen_fpu`, `codegen_x87*`: the
  code that is emitted for instructions. `codegen_cond_laws`, `codegen_flag_laws`,
  `codegen_invert_laws`, `codegen_mode_laws` and `codegen_value_laws` say what that code computes,
  and `codegen_mem_laws`, `codegen_read_laws`, `codegen_cache_laws`, `codegen_write_laws`,
  `codegen_profile_laws`, `codegen_change_laws`, `codegen_push_laws`, `codegen_stack_laws` and
  `codegen_move_laws` what it does with memory.
- `jit_blocks`, `jit_search`, `jit_fit`, `jit_emit`, `jit_exits`, `jit_module`, `jit_census`,
  `jit_trace`: from guest code to a function.
- `jit_state`, `jit_compile`, `jit_publish`, `jit_free`, `jit_chain`, `jit_verify`, `jit_aot`,
  `aot_driver`, `jit_config`, `jit_choices`, `fpu_config`, `jit_debug`, `dispatch`: what is kept of
  compiled code, and how it is published, entered and given up. `jit_partition`, `jit_laws`,
  `jit_aot_laws`, `jit_tier_laws` and `jit_search_laws` hold what is true of it at all times.
- `guest_mem`, `guest_ram`, `virtual_mem`, `perm_map`, `write_map`: guest memory and the maps that
  compiled code consults.
- `bulk_memory`, `string_memory`, `rep_memory`, `unaligned_memory`, `memory_laws`: copies and scans
  over guest memory.
- `softfloat`, `softfloat_round`: x87 values on their bits.
- `arena`, `arena_run`, `arena_blocks`, `arena_laws`, `arena_capture_laws`: the frame arena of the
  Direct3D 9 recorder.
- `eagl_apply`, `eagl_tokens`, `eagl_laws`, `eagl_walk_laws`, `eagl_batch_laws`: shader constants and
  state tokens of a guest graphics layer.
- `opstats`, `config`: a census of instructions, and switches of the machine.

`tests/` runs the library on concrete values. `app/` is the part around it that works on floating
point or calls the host.
