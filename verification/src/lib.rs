//! The core of an x86 emulator that compiles guest code to WebAssembly: the search for blocks,
//! the code that is emitted for instructions, what is kept of compiled code, and the operations
//! on guest memory, x87 numbers and graphics state that bypass it.

pub mod aot_driver;
pub mod arena;
pub mod arena_blocks;
pub mod arena_capture_laws;
pub mod arena_laws;
pub mod arena_record_laws;
pub mod arena_run;
pub mod bulk_memory;
pub mod codegen_cache_laws;
pub mod codegen_change_laws;
pub mod codegen_cond;
pub mod codegen_cond_laws;
pub mod codegen_flag_laws;
pub mod codegen_fpu;
pub mod codegen_invert_laws;
pub mod codegen_mem;
pub mod codegen_mem_laws;
pub mod codegen_mode_laws;
pub mod codegen_move_laws;
pub mod codegen_profile_laws;
pub mod codegen_push_laws;
pub mod codegen_read_laws;
pub mod codegen_reg;
pub mod codegen_stack;
pub mod codegen_stack_laws;
pub mod codegen_value_laws;
pub mod codegen_write_laws;
pub mod codegen_x87;
pub mod codegen_x87_compare;
pub mod codegen_x87_compare_laws;
pub mod codegen_x87_laws;
pub mod codegen_x87_ops;
pub mod codegen_x87_round_laws;
pub mod codegen_x87_stack;
pub mod codegen_x87_stack_laws;
pub mod config;
pub mod cpu_state;
pub mod dispatch;
pub mod eagl_apply;
pub mod eagl_apply_laws;
pub mod eagl_batch_laws;
pub mod eagl_laws;
pub mod eagl_ring_laws;
pub mod eagl_tokens;
pub mod eagl_value_laws;
pub mod eagl_walk_laws;
pub mod fpu_config;
pub mod guest_mem;
pub mod guest_ram;
pub mod jit_aot;
pub mod jit_aot_laws;
pub mod jit_blocks;
pub mod jit_census;
pub mod jit_chain;
pub mod jit_choices;
pub mod jit_compile;
pub mod jit_config;
pub mod jit_context;
pub mod jit_debug;
pub mod jit_emit;
pub mod jit_exit_laws;
pub mod jit_exits;
pub mod jit_fit;
pub mod jit_flag_laws;
pub mod jit_free;
pub mod jit_laws;
pub mod jit_module;
pub mod jit_partition;
pub mod jit_publish;
pub mod jit_search;
pub mod jit_search_laws;
pub mod jit_state;
pub mod jit_tier_laws;
pub mod jit_trace;
pub mod jit_verify;
pub mod memory_laws;
pub mod modrm;
pub mod opstats;
pub mod perm_map;
pub mod rep_memory;
pub mod rep_memory_laws;
pub mod softfloat;
pub mod softfloat_round;
pub mod string_memory;
pub mod unaligned_memory;
pub mod virtual_mem;
pub mod wasm;
pub mod wasm_calls;
pub mod wasm_course;
pub mod wasm_flow;
pub mod wasm_run;
pub mod wasm_values;
pub mod write_map;
