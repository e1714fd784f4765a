# escrow

Two escrow contracts, written as verified state machines in Verus.

- **Bounty escrow** (`src/bounty_state.rs`, `src/bounty_escrow.rs`,
  `src/bounty_laws.rs`): depositors lock funds per bounty with a deadline;
  the admin releases them to a contributor, in full or in parts, or approves a
  refund; after the deadline the depositor can take back what remains.
- **Program escrow** (`src/program_state.rs`, `src/program_escrow.rs`,
  `src/program_laws.rs`): one prize pool per program, paid out one payout at a
  time, in batches of up to `MAX_BATCH_SIZE`, or through release schedules that
  fall due at a timestamp.
- **Fees** (`src/fee.rs`): basis-point fees with checked arithmetic.

Each `*_state.rs` file defines the abstract state, its invariant (`wf`) and one
spec function per operation returning the next state or the error. The
executable contracts in `*_escrow.rs` are proved to follow those functions
exactly and to leave the state untouched when they fail. The `*_laws.rs` files
state what holds across operations: conservation of funds, the reentrancy
guard, append-only payout history, schedules paid at most once.

The contracts do not talk to a ledger themselves. The current time is an
argument, accounts and tokens are `u64` ids, and every token movement is a
`Transfer` (`src/token.rs`) left pending for the host to carry out. While
transfers are pending the reentrancy guard is held and every entry point is
refused with `ReentrantCall`. The host then calls `complete_transfer` /
`complete_transfers` once they are done, or `abort_transfer` /
`abort_transfers` if they failed, which puts the contract back exactly as it
was before the operation. Releases, refund approvals, payouts and release
schedules take the caller, and refuse anyone but the admin or the authorized
payout key with `Unauthorized`; checking the caller's signature is the host's
job. The program escrow keeps the events it emits (`events`): every
operation that changes the program emits one, naming the program.
