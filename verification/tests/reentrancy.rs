//! The bounty escrow's reentrancy guard: a failed call never leaves it held,
//! and a call made while a transfer is in flight is refused.
use escrow::bounty_escrow::BountyEscrow;
use escrow::bounty_state::Error as ContractError;
use escrow::token::{Party, Transfer};

const ADMIN: u64 = 1;

fn create_test_env() -> (BountyEscrow, u64) {
    let token = 2;
    (BountyEscrow::init(ADMIN, token), 0)
}

#[test]
fn test_reentrancy_guard_leak_fix() {
    let (mut client, now) = create_test_env();
    let depositor = 10;
    let contributor = 11;

    // 1. Call release_funds with a non-existent bounty.
    let res = client.release_funds(ADMIN, 1, contributor);
    assert_eq!(res, Err(ContractError::BountyNotFound));

    // Verify the guard is NOT leaked
    assert!(!client.is_guard_held(), "Reentrancy guard should NOT have leaked after failed call");

    // 2. Lock funds for a real bounty and release them.
    // This would have failed with "Reentrancy detected" if the guard leaked.
    let t = client.lock_funds(depositor, 2, 1000, now + 100, now).unwrap();
    assert_eq!(t, Transfer { from: Party::Account(depositor), to: Party::Escrow, amount: 1000 });
    client.complete_transfer().unwrap();
    let t = client.release_funds(ADMIN, 2, contributor).unwrap();
    assert_eq!(t, Transfer { from: Party::Escrow, to: Party::Account(contributor), amount: 1000 });
    client.complete_transfer().unwrap();
    assert!(!client.is_guard_held());
}

#[test]
#[should_panic]
fn test_genuine_reentrancy_blocked() {
    let (mut client, now) = create_test_env();
    client.lock_funds(10, 1, 500, now + 100, now).unwrap();

    // The lock's transfer is still in flight, so the guard is held: a call
    // into the contract now is a reentrant call, and the client panics on it.
    client.release_funds(ADMIN, 1, 11).unwrap();
}
