use ledger_core::block_chain::BlockChain;
use ledger_core::blocks::block::{
    validate_untrusted_transaction, validate_untrusted_transactions, Block, BlockValidationError,
    UntrustedBlock,
};
use ledger_core::blocks::mining_block::MiningBlock;
use ledger_core::keys::{Signature, SigningKey};
use ledger_core::transactions::merkel::get_merkel_hash;
use ledger_core::transactions::transaction::{
    RawTransaction, SignedTransaction, TransactionValidationError, ValidatedTransaction,
};
use ledger_core::transactions::transaction_input::Input;
use ledger_core::transactions::transaction_output::Output;
use ledger_core::utxo_map::UTXOMap;

fn hex32(text: &str) -> [u8; 32] {
    let bytes: Vec<u8> = (0..text.len() / 2)
        .map(|at| u8::from_str_radix(&text[2 * at..2 * at + 2], 16).unwrap())
        .collect();
    bytes.try_into().unwrap()
}

const SEED_ONE: &str = "9d61b19deffd5a60ba844af492ec2cc44449c5697b326919703bac031cae7f60";
const SEED_TWO: &str = "4ccd089b28ff96da9db6c346ec114e0f5b8a319f35aba624da8cf6ed4fb8a6fb";
const COIN_BASE_DIGEST: &str = "10c6d4edfd94fb37aa20a09976ca156067e94b7e1cf534552e5245dcdd362b22";
const FIRST_BLOCK_DIGEST: &str = "00000220dc0eb406a7128a4482410f101a7b622b66c1a535d779d51df13229a7";
const FIRST_BLOCK_TIME: u64 = 1_700_000_028;

fn first_key() -> SigningKey {
    SigningKey::from_bytes(&hex32(SEED_ONE))
}

fn second_key() -> SigningKey {
    SigningKey::from_bytes(&hex32(SEED_TWO))
}

/// A chain of one mined block, whose coinbase pays the first key.
fn funded_chain() -> BlockChain {
    let mut chain = BlockChain::new();
    let minted = ValidatedTransaction::get_coin_base(&chain, &mut first_key());
    let root = get_merkel_hash(std::slice::from_ref(&minted));
    let mut header = MiningBlock::from_black_chain_at(&chain, root, FIRST_BLOCK_TIME);
    let block = header.mine().and_then(|mined| mined.with_transactions(vec![minted]));
    assert!(block.is_some());
    chain.update(block.unwrap_or_else(|| unreachable!()));
    chain
}

fn minted_output() -> Input {
    Input::from_parts(hex32(COIN_BASE_DIGEST), 0)
}

/// The first key spends `inputs` and pays `amounts` to the second key.
fn spend(inputs: Vec<Input>, amounts: &[u64]) -> SignedTransaction {
    let to = second_key().verifying_key();
    let outputs = amounts.iter().map(|amount| Output::new(to, *amount)).collect();
    RawTransaction::new(inputs, outputs, first_key().verifying_key()).sign(&mut first_key())
}

/// A header that fits `chain`, with its digest.
fn header_for(chain: &BlockChain) -> MiningBlock {
    MiningBlock::from_black_chain_at(chain, [8u8; 32], 1_700_000_100)
}

fn untrusted(header: MiningBlock, transactions: Vec<SignedTransaction>) -> UntrustedBlock {
    UntrustedBlock::new(header, header.hash(), transactions)
}

fn verdict(chain: &BlockChain, block: UntrustedBlock) -> Result<(), BlockValidationError> {
    Block::valid_new_block(chain, block).map(|_| ())
}

#[test]
fn a_sound_block_is_accepted() {
    let chain = funded_chain();
    let header = header_for(&chain);
    let block = untrusted(header, vec![spend(vec![minted_output()], &[1_000_000])]);
    let accepted = Block::valid_new_block(&chain, block);
    assert!(accepted.is_ok());
    let accepted = accepted.unwrap_or_else(|_| unreachable!());
    assert_eq!(accepted.get_hash(), &header.hash());
    assert_eq!(accepted.get_mining().hash(), header.hash());
    assert_eq!(accepted.get_transactions().len(), 1);
    assert!(accepted.get_transactions()[0].inputs()[0] == minted_output());
}

#[test]
fn a_block_without_transactions_is_accepted() {
    let chain = BlockChain::new();
    let block = untrusted(header_for(&chain), Vec::new());
    let accepted = Block::valid_new_block(&chain, block);
    assert!(accepted.is_ok_and(|block| block.get_transactions().is_empty()));
}

#[test]
fn accepting_changes_nothing() {
    let chain = funded_chain();
    let block = untrusted(header_for(&chain), vec![spend(vec![minted_output()], &[1_000_000])]);
    assert_eq!(verdict(&chain, block), Ok(()));
    assert_eq!(chain.len(), 1);
    assert!(chain.get_utxos().try_find_matching_output(&minted_output()).is_some());
    let again = untrusted(header_for(&chain), vec![spend(vec![minted_output()], &[1_000_000])]);
    assert_eq!(verdict(&chain, again), Ok(()));
}

#[test]
fn a_wrong_digest_is_refused() {
    let chain = funded_chain();
    let header = header_for(&chain);
    let mut digest = header.hash();
    digest[31] ^= 1;
    let block = UntrustedBlock::new(header, digest, Vec::new());
    assert_eq!(verdict(&chain, block), Err(BlockValidationError::WrongHash));
}

#[test]
fn a_wrong_digest_is_judged_first() {
    let chain = funded_chain();
    let header = MiningBlock::new(0, 1, [9u8; 32], [8u8; 32], 0, 0);
    let faulty = spend(vec![Input::from_parts([3u8; 32], 0)], &[1]);
    let block = UntrustedBlock::new(header, [0u8; 32], vec![faulty]);
    assert_eq!(verdict(&chain, block), Err(BlockValidationError::WrongHash));
}

#[test]
fn a_difficulty_below_the_chains_is_refused() {
    let chain = funded_chain();
    let header = MiningBlock::new(0, 19, hex32(FIRST_BLOCK_DIGEST), [8u8; 32], 0, 0);
    assert_eq!(chain.check_compatibility(&header), Err(BlockValidationError::DifficultyTooLow));
    assert_eq!(
        verdict(&chain, untrusted(header, Vec::new())),
        Err(BlockValidationError::DifficultyTooLow)
    );
    let header = MiningBlock::new(0, 19, [9u8; 32], [8u8; 32], 0, 0);
    assert_eq!(
        verdict(&chain, untrusted(header, Vec::new())),
        Err(BlockValidationError::DifficultyTooLow)
    );
    let header = MiningBlock::new(0, 21, hex32(FIRST_BLOCK_DIGEST), [8u8; 32], 0, 0);
    assert_eq!(verdict(&chain, untrusted(header, Vec::new())), Ok(()));
}

#[test]
fn a_version_below_the_chains_is_refused() {
    let chain = BlockChain::with_policy(4, 2);
    let header = MiningBlock::new(1, 4, [0u8; 32], [8u8; 32], 0, 0);
    assert_eq!(chain.check_compatibility(&header), Err(BlockValidationError::VersionTooLow));
    assert_eq!(
        verdict(&chain, untrusted(header, Vec::new())),
        Err(BlockValidationError::VersionTooLow)
    );
    let header = MiningBlock::new(1, 3, [0u8; 32], [8u8; 32], 0, 0);
    assert_eq!(
        verdict(&chain, untrusted(header, Vec::new())),
        Err(BlockValidationError::DifficultyTooLow)
    );
    let header = MiningBlock::new(1, 4, [1u8; 32], [8u8; 32], 0, 0);
    assert_eq!(
        verdict(&chain, untrusted(header, Vec::new())),
        Err(BlockValidationError::VersionTooLow)
    );
    let header = MiningBlock::new(2, 4, [0u8; 32], [8u8; 32], 0, 0);
    assert_eq!(verdict(&chain, untrusted(header, Vec::new())), Ok(()));
}

#[test]
fn a_block_that_does_not_follow_the_tip_is_refused() {
    let chain = funded_chain();
    let header = MiningBlock::new(0, 20, [0u8; 32], [8u8; 32], 0, 0);
    assert_eq!(chain.check_compatibility(&header), Err(BlockValidationError::WrongPreviousHash));
    assert_eq!(
        verdict(&chain, untrusted(header, Vec::new())),
        Err(BlockValidationError::WrongPreviousHash)
    );
    let empty = BlockChain::new();
    let header = MiningBlock::new(0, 20, hex32(FIRST_BLOCK_DIGEST), [8u8; 32], 0, 0);
    assert_eq!(
        verdict(&empty, untrusted(header, Vec::new())),
        Err(BlockValidationError::WrongPreviousHash)
    );
}

#[test]
fn the_header_is_judged_before_the_transactions() {
    let chain = funded_chain();
    let faulty = spend(vec![Input::from_parts([3u8; 32], 0)], &[1]);
    let header = MiningBlock::new(0, 20, [0u8; 32], [8u8; 32], 0, 0);
    assert_eq!(
        verdict(&chain, untrusted(header, vec![faulty])),
        Err(BlockValidationError::WrongPreviousHash)
    );
}

#[test]
fn spending_one_output_twice_in_a_block_is_refused() {
    let chain = funded_chain();
    let to_second = spend(vec![minted_output()], &[1_000_000]);
    let split = spend(vec![minted_output()], &[1, 999_999]);
    let block = untrusted(header_for(&chain), vec![to_second, split]);
    assert_eq!(verdict(&chain, block), Err(BlockValidationError::UTXOSpentMultipleTime));
}

#[test]
fn a_double_spend_is_refused_in_either_order() {
    let chain = funded_chain();
    let to_second = || spend(vec![minted_output()], &[1_000_000]);
    let split = || spend(vec![minted_output()], &[1, 999_999]);
    let forward = untrusted(header_for(&chain), vec![to_second(), split()]);
    let backward = untrusted(header_for(&chain), vec![split(), to_second()]);
    assert_eq!(verdict(&chain, forward), Err(BlockValidationError::UTXOSpentMultipleTime));
    assert_eq!(verdict(&chain, backward), Err(BlockValidationError::UTXOSpentMultipleTime));
    let same_twice = untrusted(header_for(&chain), vec![to_second(), to_second()]);
    assert_eq!(verdict(&chain, same_twice), Err(BlockValidationError::UTXOSpentMultipleTime));
}

#[test]
fn a_double_spend_is_judged_before_the_transaction_itself() {
    let chain = funded_chain();
    let sound = spend(vec![minted_output()], &[1_000_000]);
    let unbalanced_again = spend(vec![minted_output()], &[5]);
    let block = untrusted(header_for(&chain), vec![sound, unbalanced_again]);
    assert_eq!(verdict(&chain, block), Err(BlockValidationError::UTXOSpentMultipleTime));
}

#[test]
fn an_earlier_fault_comes_before_a_double_spend() {
    let chain = funded_chain();
    let unbalanced = spend(vec![minted_output()], &[5]);
    let sound_again = spend(vec![minted_output()], &[1_000_000]);
    let block = untrusted(header_for(&chain), vec![unbalanced, sound_again]);
    assert_eq!(
        verdict(&chain, block),
        Err(BlockValidationError::TransactionValidationError(
            TransactionValidationError::InsufficientOutput
        ))
    );
}

#[test]
fn one_transaction_naming_an_input_twice_is_no_double_spend() {
    let chain = funded_chain();
    let twice = spend(vec![minted_output(), minted_output()], &[2_000_000]);
    assert_eq!(verdict(&chain, untrusted(header_for(&chain), vec![twice])), Ok(()));
    let twice = spend(vec![minted_output(), minted_output()], &[1_000_000]);
    assert_eq!(
        verdict(&chain, untrusted(header_for(&chain), vec![twice])),
        Err(BlockValidationError::TransactionValidationError(
            TransactionValidationError::InsufficientOutput
        ))
    );
}

#[test]
fn transaction_faults_are_passed_on() {
    let chain = funded_chain();
    let unknown = spend(vec![Input::from_parts([3u8; 32], 0)], &[1]);
    let too_much = spend(vec![minted_output()], &[1_000_001]);
    let too_little = spend(vec![minted_output()], &[999_999]);
    let stolen = RawTransaction::new(
        vec![minted_output()],
        vec![Output::new(second_key().verifying_key(), 1_000_000)],
        second_key().verifying_key(),
    )
    .sign(&mut second_key());
    let sound = spend(vec![minted_output()], &[1_000_000]);
    let mut digest = *sound.get_hash();
    digest[0] ^= 1;
    let wrong_digest = SignedTransaction::from_parts(
        RawTransaction::new(
            sound.inputs().to_vec(),
            sound.outputs().to_vec(),
            *sound.data().get_pubkey(),
        ),
        digest,
        *sound.get_signature(),
    );
    let wrong_signature = SignedTransaction::from_parts(
        RawTransaction::new(
            sound.inputs().to_vec(),
            sound.outputs().to_vec(),
            *sound.data().get_pubkey(),
        ),
        *sound.get_hash(),
        Signature::from_bytes(&[1u8; 64]),
    );
    let cases = [
        (unknown, TransactionValidationError::InputInvalid),
        (too_much, TransactionValidationError::InsufficientInput),
        (too_little, TransactionValidationError::InsufficientOutput),
        (stolen, TransactionValidationError::UnauthorizedInput),
        (wrong_digest, TransactionValidationError::HashIncorrect),
        (wrong_signature, TransactionValidationError::SignatureIncorrect),
    ];
    for (transaction, fault) in cases {
        assert_eq!(
            verdict(&chain, untrusted(header_for(&chain), vec![transaction])),
            Err(BlockValidationError::TransactionValidationError(fault))
        );
    }
}

#[test]
fn transactions_of_a_block_do_not_see_each_other() {
    let chain = funded_chain();
    let first = spend(vec![minted_output()], &[1_000_000]);
    let onward = RawTransaction::new(
        vec![Input::new(&first, 0)],
        vec![Output::new(first_key().verifying_key(), 1_000_000)],
        second_key().verifying_key(),
    )
    .sign(&mut second_key());
    let block = untrusted(header_for(&chain), vec![first, onward]);
    assert_eq!(
        verdict(&chain, block),
        Err(BlockValidationError::TransactionValidationError(
            TransactionValidationError::InputInvalid
        ))
    );
}

#[test]
fn one_transaction_is_checked_against_the_spent_inputs() {
    let chain = funded_chain();
    let mut spent: Vec<Input> = vec![Input::from_parts([3u8; 32], 1)];
    let sound = spend(vec![minted_output()], &[1_000_000]);
    let checked = validate_untrusted_transaction(chain.get_utxos(), &mut spent, sound);
    assert!(checked.is_ok());
    assert_eq!(spent.len(), 2);
    assert!(spent[0] == Input::from_parts([3u8; 32], 1));
    assert!(spent[1] == minted_output());

    let again = spend(vec![minted_output()], &[1_000_000]);
    let checked = validate_untrusted_transaction(chain.get_utxos(), &mut spent, again);
    assert!(matches!(checked, Err(BlockValidationError::UTXOSpentMultipleTime)));
    assert_eq!(spent.len(), 2);

    let mut fresh: Vec<Input> = Vec::new();
    let unbalanced = spend(vec![minted_output()], &[1]);
    let checked = validate_untrusted_transaction(chain.get_utxos(), &mut fresh, unbalanced);
    assert!(matches!(
        checked,
        Err(BlockValidationError::TransactionValidationError(
            TransactionValidationError::InsufficientOutput
        ))
    ));
    assert!(fresh.is_empty());
}

#[test]
fn transactions_are_checked_in_order() {
    let mut utxos = UTXOMap::new();
    let owner = first_key().verifying_key();
    utxos.add_utxos(&[Output::new(owner, 10), Output::new(owner, 20), Output::new(owner, 30)], &[
        6u8; 32
    ]);
    let at = |position| Input::from_parts([6u8; 32], position);
    let all = vec![
        spend(vec![at(0)], &[10]),
        spend(vec![at(2), at(1)], &[25, 25]),
    ];
    let digests: Vec<[u8; 32]> = all.iter().map(|each| *each.get_hash()).collect();
    let checked = validate_untrusted_transactions(all, &utxos);
    assert!(checked.is_ok());
    let validated = checked.unwrap_or_else(|_| unreachable!());
    assert_eq!(validated.len(), 2);
    assert_eq!(validated[0].get_hash(), &digests[0]);
    assert_eq!(validated[1].get_hash(), &digests[1]);

    let clash = vec![spend(vec![at(0)], &[10]), spend(vec![at(1), at(0)], &[30])];
    assert!(matches!(
        validate_untrusted_transactions(clash, &utxos),
        Err(BlockValidationError::UTXOSpentMultipleTime)
    ));
    assert!(validate_untrusted_transactions(Vec::new(), &utxos).is_ok_and(|none| none.is_empty()));
}

#[test]
fn a_mined_block_takes_the_transactions_its_header_commits_to() {
    let chain = BlockChain::new();
    let minted = || ValidatedTransaction::get_coin_base(&chain, &mut first_key());
    let other = || ValidatedTransaction::get_coin_base(&chain, &mut second_key());
    let root = get_merkel_hash(&[minted(), other()]);
    let header = MiningBlock::new(0, 0, [0u8; 32], root, 0, 0);
    let mined = || Block::try_new(&header).unwrap_or_else(|| unreachable!());

    let filled = mined().with_transactions(vec![minted(), other()]);
    assert!(filled.is_some());
    let filled = filled.unwrap_or_else(|| unreachable!());
    assert_eq!(filled.get_hash(), &header.hash());
    assert_eq!(filled.get_mining().hash(), header.hash());
    assert_eq!(filled.get_transactions().len(), 2);
    assert_eq!(filled.get_transactions()[0].get_hash(), minted().get_hash());
    assert_eq!(filled.get_transactions()[1].get_hash(), other().get_hash());

    assert!(mined().with_transactions(vec![other(), minted()]).is_none());
    assert!(mined().with_transactions(vec![minted()]).is_none());
    assert!(mined().with_transactions(Vec::new()).is_none());
}
