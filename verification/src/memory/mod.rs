pub mod arena;

pub use arena::{ArenaSlot, DoubleBuffer, MemoryError, ScratchArena};
