//! Readers, writers and transforms for Nintendo Switch resource formats:
//! SARC archives, RESTBL resource-size tables, NSO executables, MSBT
//! message files, MCPK mesh containers and the meshoptimizer codecs.
use vstd::prelude::*;

pub mod bytes;
pub mod lex;
pub mod meshopt;
pub mod mc;
pub mod msbt;
pub mod nso;
pub mod order;
pub mod restbl;
pub mod sarc;
pub mod texpipe;

verus! {
} // verus!
