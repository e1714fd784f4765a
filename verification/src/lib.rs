//! Escrow contracts for bounties and prize programs, with their accounting
//! proved: the bounty escrow (`bounty_state`, `bounty_escrow`, `bounty_laws`),
//! the program escrow (`program_state`, `program_escrow`, `program_laws`) and
//! the basis-point fee (`fee`).
pub mod bounty_escrow;
pub mod bounty_laws;
pub mod bounty_state;
pub mod fee;
pub mod program_escrow;
pub mod program_laws;
pub mod program_state;
pub mod token;
