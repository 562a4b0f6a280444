use ledger_core::block_chain::BlockChain;
use ledger_core::blocks::block::{Block, BlockValidationError, UntrustedBlock};
use ledger_core::blocks::mining_block::MiningBlock;
use ledger_core::keys::SigningKey;
use ledger_core::shared::{count_leading_zeros, get_now_unix};
use ledger_core::transactions::merkel::get_merkel_hash;
use ledger_core::transactions::transaction::{RawTransaction, ValidatedTransaction};
use ledger_core::transactions::transaction_input::Input;
use ledger_core::transactions::transaction_output::Output;

fn hex32(text: &str) -> [u8; 32] {
    let bytes: Vec<u8> = (0..text.len() / 2)
        .map(|at| u8::from_str_radix(&text[2 * at..2 * at + 2], 16).unwrap())
        .collect();
    bytes.try_into().unwrap()
}

const SEED_ONE: &str = "9d61b19deffd5a60ba844af492ec2cc44449c5697b326919703bac031cae7f60";
const SEED_TWO: &str = "4ccd089b28ff96da9db6c346ec114e0f5b8a319f35aba624da8cf6ed4fb8a6fb";
const COIN_BASE_DIGEST: &str = "10c6d4edfd94fb37aa20a09976ca156067e94b7e1cf534552e5245dcdd362b22";
const COIN_BASE_ROOT: &str = "c365c675e90c87192e4a685529f29d6e8cd720fe121843bda058496476dced32";
const FIRST_BLOCK_DIGEST: &str = "00000220dc0eb406a7128a4482410f101a7b622b66c1a535d779d51df13229a7";
const FIRST_BLOCK_TIME: u64 = 1_700_000_028;
const FIRST_BLOCK_NONCE: u64 = 16289;

fn first_key() -> SigningKey {
    SigningKey::from_bytes(&hex32(SEED_ONE))
}

fn second_key() -> SigningKey {
    SigningKey::from_bytes(&hex32(SEED_TWO))
}

fn amount_at(chain: &BlockChain, origin: [u8; 32], position: usize) -> Option<u64> {
    chain
        .get_utxos()
        .try_find_matching_output(&Input::from_parts(origin, position))
        .map(Output::get_amount)
}

/// Mines the block that holds the first key's coinbase and applies it.
fn mine_first_block(chain: &mut BlockChain) {
    let minted = ValidatedTransaction::get_coin_base(chain, &mut first_key());
    let root = get_merkel_hash(std::slice::from_ref(&minted));
    let mut header = MiningBlock::from_black_chain_at(chain, root, FIRST_BLOCK_TIME);
    let block = header.mine().and_then(|mined| mined.with_transactions(vec![minted]));
    assert!(block.is_some());
    chain.update(block.unwrap_or_else(|| unreachable!()));
}

#[test]
fn a_new_chain_is_empty() {
    let chain = BlockChain::new();
    assert_eq!(chain.len(), 0);
    assert_eq!(chain.get_difficulty(), 20);
    assert_eq!(chain.get_version(), 0);
    assert_eq!(chain.get_previous_hash(), [0u8; 32]);
    assert_eq!(chain.get_coin_base_amount(), 1_000_000);
    assert_eq!(amount_at(&chain, hex32(COIN_BASE_DIGEST), 0), None);
}

#[test]
fn a_chain_with_its_own_policy() {
    let chain = BlockChain::with_policy(3, 9);
    assert_eq!(chain.len(), 0);
    assert_eq!(chain.get_difficulty(), 3);
    assert_eq!(chain.get_version(), 9);
    assert_eq!(chain.get_previous_hash(), [0u8; 32]);
    let header = MiningBlock::from_black_chain_at(&chain, [1u8; 32], 5);
    assert_eq!(header.get_difficulty(), 3);
    assert_eq!(header.get_version(), 9);
    assert_eq!(chain.check_compatibility(&header), Ok(()));
}

#[test]
fn the_header_of_the_next_block_copies_the_chain() {
    let chain = BlockChain::new();
    let minted = ValidatedTransaction::get_coin_base(&chain, &mut first_key());
    let before = get_now_unix();
    let header = chain.get_mining_block(std::slice::from_ref(&minted));
    assert_eq!(header.get_version(), 0);
    assert_eq!(header.get_difficulty(), 20);
    assert_eq!(header.get_previous_hash(), &[0u8; 32]);
    assert_eq!(header.get_merkel_root(), &hex32(COIN_BASE_ROOT));
    assert_eq!(header.get_nonce(), 0);
    assert!(header.get_timestamp() >= before);
    assert!(header.get_timestamp() <= get_now_unix());
    assert_eq!(chain.check_compatibility(&header), Ok(()));

    let stamped = MiningBlock::from_black_chain(&chain, [7u8; 32]);
    assert_eq!(stamped.get_merkel_root(), &[7u8; 32]);
    assert_eq!(stamped.get_difficulty(), 20);
    assert!(stamped.get_timestamp() >= before);
}

#[test]
fn from_coinbase_to_the_first_block() {
    let mut key = first_key();
    let mut chain = BlockChain::new();
    assert_eq!(chain.get_coin_base_amount(), 1_000_000);
    let minted = ValidatedTransaction::get_coin_base(&chain, &mut key);
    let digest = *minted.get_hash();
    assert_eq!(digest, hex32(COIN_BASE_DIGEST));

    let header = chain.get_mining_block(std::slice::from_ref(&minted));
    let mut header = MiningBlock::new(
        header.get_version(),
        header.get_difficulty(),
        *header.get_previous_hash(),
        *header.get_merkel_root(),
        header.get_nonce(),
        FIRST_BLOCK_TIME,
    );
    let mined = header.mine();
    assert!(mined.is_some());
    let mined = mined.unwrap_or_else(|| unreachable!());
    assert_eq!(mined.get_mining().get_difficulty(), 20);
    assert!(count_leading_zeros(mined.get_hash()) >= 20);
    assert_eq!(count_leading_zeros(mined.get_hash()), 22);
    assert_eq!(mined.get_mining().get_nonce(), FIRST_BLOCK_NONCE);
    assert_eq!(mined.get_hash(), &hex32(FIRST_BLOCK_DIGEST));
    assert_eq!(chain.check_compatibility(mined.get_mining()), Ok(()));

    let block = mined.with_transactions(vec![minted]);
    assert!(block.is_some());
    chain.update(block.unwrap_or_else(|| unreachable!()));

    assert_eq!(chain.len(), 1);
    assert_eq!(amount_at(&chain, digest, 0), Some(1_000_000));
    assert_eq!(amount_at(&chain, digest, 1), None);
    let unspent = chain.get_utxos().try_find_matching_output(&Input::from_parts(digest, 0));
    assert!(unspent.is_some_and(|output| *output.get_pubkey() == key.verifying_key()));
    assert_eq!(chain.get_previous_hash(), hex32(FIRST_BLOCK_DIGEST));
    assert_eq!(chain.peak().get_hash(), &hex32(FIRST_BLOCK_DIGEST));
}

#[test]
fn a_mined_block_without_transactions_leaves_the_outputs_alone() {
    let mut chain = BlockChain::with_policy(8, 0);
    let mut header = MiningBlock::from_black_chain_at(&chain, [1u8; 32], 3);
    let mined = header.mine();
    assert!(mined.is_some());
    let mined = mined.unwrap_or_else(|| unreachable!());
    let digest = *mined.get_hash();
    assert!(count_leading_zeros(&digest) >= 8);
    chain.update(mined);
    assert_eq!(chain.len(), 1);
    assert_eq!(chain.get_previous_hash(), digest);
}

#[test]
fn the_tip_is_the_last_block() {
    let mut chain = BlockChain::with_policy(4, 0);
    let mut digests = Vec::new();
    for round in 0..3u64 {
        let mut header = MiningBlock::from_black_chain_at(&chain, [round as u8; 32], round);
        assert_eq!(header.get_previous_hash(), &chain.get_previous_hash());
        let mined = header.mine().unwrap_or_else(|| unreachable!());
        digests.push(*mined.get_hash());
        chain.update(mined);
        assert_eq!(chain.len(), round as usize + 1);
        assert_eq!(chain.get_previous_hash(), digests[round as usize]);
        assert_eq!(chain.peak().get_hash(), &digests[round as usize]);
        assert_eq!(chain.peak().get_mining().get_timestamp(), round);
    }
    assert_ne!(digests[0], digests[1]);
    assert_ne!(digests[1], digests[2]);
    let stale = MiningBlock::new(0, 4, digests[1], [0u8; 32], 0, 0);
    assert_eq!(chain.check_compatibility(&stale), Err(BlockValidationError::WrongPreviousHash));
    let fresh = MiningBlock::new(0, 4, digests[2], [0u8; 32], 0, 0);
    assert_eq!(chain.check_compatibility(&fresh), Ok(()));
}

#[test]
fn an_accepted_block_moves_the_outputs() {
    let mut chain = BlockChain::new();
    mine_first_block(&mut chain);
    let minted = hex32(COIN_BASE_DIGEST);

    let outputs = vec![
        Output::new(second_key().verifying_key(), 300_000),
        Output::new(first_key().verifying_key(), 700_000),
    ];
    let inputs = vec![Input::from_parts(minted, 0)];
    let signed =
        RawTransaction::new(inputs, outputs, first_key().verifying_key()).sign(&mut first_key());
    let digest = *signed.get_hash();
    let header = MiningBlock::from_black_chain_at(&chain, [0u8; 32], 1_700_000_100);
    let accepted =
        Block::valid_new_block(&chain, UntrustedBlock::new(header, header.hash(), vec![signed]));
    assert!(accepted.is_ok());
    chain.update(accepted.unwrap_or_else(|_| unreachable!()));

    assert_eq!(chain.len(), 2);
    assert_eq!(chain.get_previous_hash(), header.hash());
    assert_eq!(amount_at(&chain, minted, 0), None);
    assert_eq!(amount_at(&chain, digest, 0), Some(300_000));
    assert_eq!(amount_at(&chain, digest, 1), Some(700_000));

    let onward = RawTransaction::new(
        vec![Input::from_parts(digest, 0)],
        vec![Output::new(first_key().verifying_key(), 300_000)],
        second_key().verifying_key(),
    )
    .sign(&mut second_key());
    let again = RawTransaction::new(
        vec![Input::from_parts(minted, 0)],
        vec![Output::new(first_key().verifying_key(), 1_000_000)],
        first_key().verifying_key(),
    )
    .sign(&mut first_key());
    assert!(ValidatedTransaction::validate(onward, chain.get_utxos()).is_ok());
    assert!(ValidatedTransaction::validate(again, chain.get_utxos()).is_err());
}

#[test]
fn the_transactions_of_a_block_are_applied_in_order() {
    let mut chain = BlockChain::with_policy(0, 0);
    let first = ValidatedTransaction::get_coin_base(&chain, &mut first_key());
    let second = ValidatedTransaction::get_coin_base(&chain, &mut second_key());
    let digests = [*first.get_hash(), *second.get_hash()];
    let header = chain.get_mining_block(&[
        ValidatedTransaction::get_coin_base(&chain, &mut first_key()),
        ValidatedTransaction::get_coin_base(&chain, &mut second_key()),
    ]);
    let block =
        Block::try_new(&header).and_then(|made| made.with_transactions(vec![first, second]));
    assert!(block.is_some());
    chain.update(block.unwrap_or_else(|| unreachable!()));
    assert_eq!(chain.len(), 1);
    assert_eq!(amount_at(&chain, digests[0], 0), Some(1_000_000));
    assert_eq!(amount_at(&chain, digests[1], 0), Some(1_000_000));
    assert_eq!(chain.peak().get_transactions().len(), 2);
}
