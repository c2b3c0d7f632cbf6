use finchippay_escrow::tally::Tally;
use finchippay_escrow::types::{Address, AddressKind};

fn address(kind: AddressKind, high: u128, low: u128) -> Address {
    Address { kind, high, low }
}

#[test]
fn tally_lists_amounts_in_address_order() {
    let env = soroban_sdk::Env::default();
    let mut tally = Tally::new(&env);
    let contract = address(AddressKind::Contract, 0, 1);
    let far = address(AddressKind::Account, u128::MAX, 0);
    let near = address(AddressKind::Account, 3, u128::MAX);
    let nearest = address(AddressKind::Account, 3, 7);
    tally.set(contract, 10);
    tally.set(far, -20);
    tally.set(near, i128::MAX);
    tally.set(nearest, 40);
    tally.set(far, 21);
    assert_eq!(
        tally.entries(),
        vec![(nearest, 40), (near, i128::MAX), (far, 21), (contract, 10)]
    );
    assert_eq!(tally.get(far), Some(21));
    assert_eq!(tally.get(address(AddressKind::Contract, 3, 7)), None);
}
