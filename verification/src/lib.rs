//! Deterministic-runtime core: file-descriptor tables, the consensus wire
//! formats, the NAT bookkeeping of the consensus node and the scheduling
//! decisions of the runtime, each with its contract.

pub mod fd_table;
pub mod text;
pub mod decimal;
pub mod commands;
pub mod record;
pub mod batch;
pub mod keyed;
pub mod nat_table;
pub mod clock;
pub mod scheduler;
pub mod consensus_input;
pub mod process;
pub mod guest;
pub mod sockets;
pub mod fs_ops;
pub mod node;
pub mod clients;
