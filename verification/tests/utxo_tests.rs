use ledger_core::block_chain::BlockChain;
use ledger_core::keys::{SigningKey, VerifyingKey};
use ledger_core::transactions::transaction::{RawTransaction, ValidatedTransaction};
use ledger_core::transactions::transaction_input::Input;
use ledger_core::transactions::transaction_output::Output;
use ledger_core::utxo_map::UTXOMap;

fn key(seed: u8) -> SigningKey {
    SigningKey::from_bytes(&[seed; 32])
}

fn owner(seed: u8) -> VerifyingKey {
    key(seed).verifying_key()
}

fn amount_at(utxos: &UTXOMap, origin: [u8; 32], position: usize) -> Option<u64> {
    utxos.try_find_matching_output(&Input::from_parts(origin, position)).map(Output::get_amount)
}

#[test]
fn an_empty_map_finds_nothing() {
    let utxos = UTXOMap::new();
    assert!(utxos.try_find_matching_output(&Input::from_parts([0u8; 32], 0)).is_none());
}

#[test]
fn outputs_are_filed_under_digest_and_position() {
    let mut utxos = UTXOMap::new();
    let origin = [4u8; 32];
    utxos.add_utxos(&[Output::new(owner(1), 10), Output::new(owner(2), 20)], &origin);
    let first = utxos.try_find_matching_output(&Input::from_parts(origin, 0));
    assert!(first.is_some_and(|found| found.get_amount() == 10));
    assert!(first.is_some_and(|found| *found.get_pubkey() == owner(1)));
    let second = utxos.try_find_matching_output(&Input::from_parts(origin, 1));
    assert!(second.is_some_and(|found| found.get_amount() == 20));
    assert!(second.is_some_and(|found| *found.get_pubkey() == owner(2)));
    assert_eq!(amount_at(&utxos, origin, 2), None);
    assert_eq!(amount_at(&utxos, [5u8; 32], 0), None);
}

#[test]
fn filing_again_replaces_what_was_filed() {
    let mut utxos = UTXOMap::new();
    let origin = [4u8; 32];
    utxos.add_utxos(&[Output::new(owner(1), 10), Output::new(owner(1), 20)], &origin);
    utxos.add_utxos(&[Output::new(owner(2), 30)], &origin);
    assert_eq!(amount_at(&utxos, origin, 0), Some(30));
    assert_eq!(amount_at(&utxos, origin, 1), Some(20));
}

#[test]
fn removing_takes_only_what_is_named() {
    let mut utxos = UTXOMap::new();
    let origin = [4u8; 32];
    let outputs: Vec<Output> = (0..5).map(|each| Output::new(owner(1), each)).collect();
    utxos.add_utxos(&outputs, &origin);
    utxos.remove_utxos(&[
        Input::from_parts(origin, 1),
        Input::from_parts(origin, 3),
        Input::from_parts(origin, 1),
        Input::from_parts(origin, 9),
        Input::from_parts([5u8; 32], 0),
    ]);
    assert_eq!(amount_at(&utxos, origin, 0), Some(0));
    assert_eq!(amount_at(&utxos, origin, 1), None);
    assert_eq!(amount_at(&utxos, origin, 2), Some(2));
    assert_eq!(amount_at(&utxos, origin, 3), None);
    assert_eq!(amount_at(&utxos, origin, 4), Some(4));
    utxos.remove_utxos(&[]);
    assert_eq!(amount_at(&utxos, origin, 4), Some(4));
}

#[test]
fn a_transaction_consumes_its_inputs_and_files_its_outputs() {
    let chain = BlockChain::new();
    let mut utxos = UTXOMap::new();
    let minted = ValidatedTransaction::get_coin_base(&chain, &mut key(1));
    utxos.update_transaction(&minted);
    assert_eq!(amount_at(&utxos, *minted.get_hash(), 0), Some(1_000_000));
    assert_eq!(amount_at(&utxos, *minted.get_hash(), 1), None);

    let input = Input::from_parts(*minted.get_hash(), 0);
    let outputs = vec![Output::new(owner(2), 250_000), Output::new(owner(1), 750_000)];
    let signed = RawTransaction::new(vec![input], outputs, owner(1)).sign(&mut key(1));
    let validated = ValidatedTransaction::validate(signed, &utxos);
    assert!(validated.is_ok());
    let validated = validated.unwrap_or_else(|_| unreachable!());
    utxos.update_transaction(&validated);
    assert_eq!(amount_at(&utxos, *minted.get_hash(), 0), None);
    assert_eq!(amount_at(&utxos, *validated.get_hash(), 0), Some(250_000));
    assert_eq!(amount_at(&utxos, *validated.get_hash(), 1), Some(750_000));
    assert_eq!(amount_at(&utxos, *validated.get_hash(), 2), None);
}

#[test]
fn many_entries_are_all_found() {
    let mut utxos = UTXOMap::new();
    for origin in 0..40u8 {
        let outputs: Vec<Output> =
            (0..3).map(|each| Output::new(owner(1), origin as u64 * 10 + each)).collect();
        utxos.add_utxos(&outputs, &[origin; 32]);
    }
    for origin in (0..40u8).step_by(2) {
        utxos.remove_utxos(&[Input::from_parts([origin; 32], 1)]);
    }
    for origin in 0..40u8 {
        assert_eq!(amount_at(&utxos, [origin; 32], 0), Some(origin as u64 * 10));
        let middle = if origin % 2 == 0 { None } else { Some(origin as u64 * 10 + 1) };
        assert_eq!(amount_at(&utxos, [origin; 32], 1), middle);
        assert_eq!(amount_at(&utxos, [origin; 32], 2), Some(origin as u64 * 10 + 2));
    }
}
