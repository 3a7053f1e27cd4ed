pub mod amd64;
pub mod arena;
pub mod arch;
pub mod binary;
pub mod cli;
pub mod commands;
pub mod debug_info;
pub mod decoder;
pub mod disasm;
pub mod dwarf;
pub mod elf;
pub mod errors;
pub mod format;
pub mod jumps;
pub mod line_cache;
pub mod lines;
pub mod listing;
pub mod mach;
pub mod mapper;
pub mod matcher;
pub mod object;
pub mod order;
pub mod pdb;
pub mod pdb_lines;
pub mod pe;
pub mod platform;
pub mod strategy;
pub mod symbol;
pub mod text;
