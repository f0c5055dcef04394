use utxo_chain::Error;
use utxo_chain::chain::Blockchain;
use utxo_chain::transaction::{new_coinbase, new_transfer, pub_key_hash_of, verify, TXOutput};

fn key(bytes: &[u8]) -> Vec<u8> {
    bytes.to_vec()
}

#[test]
fn genesis_block_has_height_zero_and_empty_predecessor() {
    let key_a = key(&[1, 2, 3]);
    let pkh_a = pub_key_hash_of(&key_a);
    let coinbase = new_coinbase(50, pkh_a.clone());
    let chain = Blockchain::new_genesis(coinbase, 1_000).unwrap();
    assert_eq!(chain.len(), 1);
    let genesis = chain.block_at(0);
    assert_eq!(genesis.height, 0);
    assert_eq!(genesis.pre_block_hash, String::new());
    assert_eq!(genesis.transactions.len(), 1);
    assert!(genesis.transactions[0].is_coinbase());
}

#[test]
fn genesis_block_passes_validation() {
    let key_a = key(&[1, 2, 3]);
    let pkh_a = pub_key_hash_of(&key_a);
    let coinbase = new_coinbase(50, pkh_a);
    let chain = Blockchain::new_genesis(coinbase, 1_000).unwrap();
    let pow = utxo_chain::pow::PoroofOfWork::new_proof_of_work(chain.block_at(0).duplicate());
    assert!(pow.validate());
}

#[test]
fn genesis_balance_is_the_coinbase_reward() {
    let key_a = key(&[1, 2, 3]);
    let pkh_a = pub_key_hash_of(&key_a);
    let coinbase = new_coinbase(50, pkh_a.clone());
    let chain = Blockchain::new_genesis(coinbase, 1_000).unwrap();
    assert_eq!(chain.get_balance(&pkh_a), 50);
}

#[test]
fn transfer_with_change_moves_balances() {
    let key_a = key(&[1, 2, 3]);
    let key_b = key(&[4, 5, 6]);
    let key_m = key(&[7, 7, 7]);
    let pkh_a = pub_key_hash_of(&key_a);
    let pkh_b = pub_key_hash_of(&key_b);
    let pkh_m = pub_key_hash_of(&key_m);
    let coinbase = new_coinbase(50, pkh_a.clone());
    let mut chain = Blockchain::new_genesis(coinbase, 1_000).unwrap();
    let unspent = chain.find_unspent_outputs(&pkh_a);
    let tx = new_transfer(&unspent, &pkh_b, 30, &key_a).unwrap();
    let batch = vec![new_coinbase(50, pkh_m.clone()), tx];
    let block = chain.mine_block(&batch, 1_001).unwrap();
    chain.add_block(block).unwrap();
    assert_eq!(chain.len(), 2);
    assert_eq!(chain.get_balance(&pkh_a), 20);
    assert_eq!(chain.get_balance(&pkh_b), 30);
    assert_eq!(chain.get_balance(&pkh_m), 50);
}

#[test]
fn transfer_without_change_has_a_single_output() {
    let key_a = key(&[9]);
    let key_b = key(&[8]);
    let pkh_a = pub_key_hash_of(&key_a);
    let pkh_b = pub_key_hash_of(&key_b);
    let coinbase = new_coinbase(50, pkh_a.clone());
    let chain = Blockchain::new_genesis(coinbase, 5).unwrap();
    let unspent = chain.find_unspent_outputs(&pkh_a);
    let tx = new_transfer(&unspent, &pkh_b, 50, &key_a).unwrap();
    assert_eq!(tx.vout.len(), 1);
    assert_eq!(tx.vout[0].value, 50);
    assert_eq!(tx.vout[0].pub_key_hash, pkh_b);
}

#[test]
fn transfer_exceeding_funds_is_rejected() {
    let key_a = key(&[1, 2, 3]);
    let key_b = key(&[4, 5, 6]);
    let pkh_a = pub_key_hash_of(&key_a);
    let pkh_b = pub_key_hash_of(&key_b);
    let coinbase = new_coinbase(50, pkh_a.clone());
    let chain = Blockchain::new_genesis(coinbase, 1_000).unwrap();
    let unspent = chain.find_unspent_outputs(&pkh_a);
    let r = new_transfer(&unspent, &pkh_b, 51, &key_a);
    assert!(matches!(r, Err(Error::InsufficientFunds)));
}

#[test]
fn double_spend_within_one_batch_is_rejected_before_mining() {
    let key_a = key(&[1, 2, 3]);
    let key_b = key(&[4, 5, 6]);
    let key_c = key(&[9, 9, 9]);
    let pkh_a = pub_key_hash_of(&key_a);
    let pkh_b = pub_key_hash_of(&key_b);
    let pkh_c = pub_key_hash_of(&key_c);
    let coinbase = new_coinbase(50, pkh_a.clone());
    let chain = Blockchain::new_genesis(coinbase, 1_000).unwrap();
    let unspent = chain.find_unspent_outputs(&pkh_a);
    let tx1 = new_transfer(&unspent, &pkh_b, 30, &key_a).unwrap();
    let tx2 = new_transfer(&unspent, &pkh_c, 10, &key_a).unwrap();
    let batch = vec![new_coinbase(50, pkh_c.clone()), tx1, tx2];
    let r = chain.mine_block(&batch, 1_001);
    assert!(matches!(r, Err(Error::InvalidTransaction)));
}

#[test]
fn spending_an_already_spent_output_is_rejected() {
    let key_a = key(&[1, 2, 3]);
    let key_b = key(&[4, 5, 6]);
    let pkh_a = pub_key_hash_of(&key_a);
    let pkh_b = pub_key_hash_of(&key_b);
    let coinbase = new_coinbase(50, pkh_a.clone());
    let mut chain = Blockchain::new_genesis(coinbase, 1_000).unwrap();
    let unspent = chain.find_unspent_outputs(&pkh_a);
    let tx1 = new_transfer(&unspent, &pkh_b, 30, &key_a).unwrap();
    let block = chain.mine_block(&vec![tx1], 1_001).unwrap();
    chain.add_block(block).unwrap();
    // The same outpoint again, one block later.
    let tx2 = new_transfer(&unspent, &pkh_b, 10, &key_a).unwrap();
    let r = chain.mine_block(&vec![tx2], 1_002);
    assert!(matches!(r, Err(Error::InvalidTransaction)));
}

#[test]
fn empty_batch_is_rejected() {
    let key_a = key(&[1]);
    let pkh_a = pub_key_hash_of(&key_a);
    let coinbase = new_coinbase(50, pkh_a);
    let chain = Blockchain::new_genesis(coinbase, 1_000).unwrap();
    let r = chain.mine_block(&Vec::new(), 1_001);
    assert!(matches!(r, Err(Error::EmptyTransactionSet)));
}

#[test]
fn block_with_wrong_previous_hash_is_rejected_and_tip_unchanged() {
    let key_a = key(&[1, 2, 3]);
    let pkh_a = pub_key_hash_of(&key_a);
    let coinbase = new_coinbase(50, pkh_a.clone());
    let mut chain = Blockchain::new_genesis(coinbase, 1_000).unwrap();
    let tip_before = chain.tip_hash();
    let batch = vec![new_coinbase(50, pkh_a.clone())];
    let mut block = chain.mine_block(&batch, 1_001).unwrap();
    block.pre_block_hash = String::from("0000");
    let r = chain.add_block(block);
    assert!(matches!(r, Err(Error::InvalidPreviousHash)));
    assert_eq!(chain.len(), 1);
    assert_eq!(chain.tip_hash(), tip_before);
}

#[test]
fn block_with_wrong_height_is_rejected() {
    let key_a = key(&[1, 2, 3]);
    let pkh_a = pub_key_hash_of(&key_a);
    let coinbase = new_coinbase(50, pkh_a.clone());
    let mut chain = Blockchain::new_genesis(coinbase, 1_000).unwrap();
    let batch = vec![new_coinbase(50, pkh_a.clone())];
    let mut block = chain.mine_block(&batch, 1_001).unwrap();
    block.height = 2;
    let r = chain.add_block(block);
    assert!(matches!(r, Err(Error::InvalidHeight)));
    assert_eq!(chain.len(), 1);
}

#[test]
fn tampered_nonce_fails_proof_of_work() {
    let key_a = key(&[1, 2, 3]);
    let pkh_a = pub_key_hash_of(&key_a);
    let coinbase = new_coinbase(50, pkh_a.clone());
    let mut chain = Blockchain::new_genesis(coinbase, 1_000).unwrap();
    let batch = vec![new_coinbase(50, pkh_a.clone())];
    let mut block = chain.mine_block(&batch, 1_001).unwrap();
    block.nonce = block.nonce.wrapping_add(1);
    let r = chain.add_block(block);
    assert!(matches!(r, Err(Error::InvalidProofOfWork)));
    assert_eq!(chain.len(), 1);
}

#[test]
fn appending_a_mined_block_links_it_to_the_tip() {
    let key_a = key(&[1, 2, 3]);
    let pkh_a = pub_key_hash_of(&key_a);
    let coinbase = new_coinbase(50, pkh_a.clone());
    let mut chain = Blockchain::new_genesis(coinbase, 1_000).unwrap();
    let tip = chain.tip_hash();
    let batch = vec![new_coinbase(50, pkh_a.clone())];
    let block = chain.mine_block(&batch, 1_001).unwrap();
    assert_eq!(block.pre_block_hash, tip);
    assert_eq!(block.height, 1);
    chain.add_block(block).unwrap();
    assert_eq!(chain.len(), 2);
    assert_eq!(chain.block_at(1).pre_block_hash, chain.block_at(0).hash);
}

#[test]
fn signature_verification_accepts_the_real_signer_only() {
    let key_a = key(&[1, 2, 3]);
    let key_b = key(&[4, 5, 6]);
    let pkh_a = pub_key_hash_of(&key_a);
    let pkh_b = pub_key_hash_of(&key_b);
    let coinbase = new_coinbase(50, pkh_a.clone());
    let chain = Blockchain::new_genesis(coinbase, 1_000).unwrap();
    let unspent = chain.find_unspent_outputs(&pkh_a);
    let tx = new_transfer(&unspent, &pkh_b, 30, &key_a).unwrap();
    // The referenced output is A's coinbase output.
    let referenced = vec![TXOutput { value: 50, pub_key_hash: pkh_a.clone() }];
    assert!(verify(&tx, &referenced));
    // Against an output locked to someone else, the same inputs fail.
    let wrong = vec![TXOutput { value: 50, pub_key_hash: pkh_b.clone() }];
    assert!(!verify(&tx, &wrong));
}

#[test]
fn coinbase_verifies_against_no_references() {
    let key_a = key(&[2]);
    let pkh_a = pub_key_hash_of(&key_a);
    let cb = new_coinbase(25, pkh_a);
    assert!(cb.is_coinbase());
    assert!(verify(&cb, &Vec::new()));
}
