use tenk::contract::{
    Contract, ContractMetadata, InitError, MintError, NotifyOutcome, TransferError,
    TransferPhase,
};

const ONE: u128 = 1_000_000_000_000_000_000_000_000;

fn s(x: &str) -> String {
    x.to_string()
}

fn collection(price: &str, size: u64) -> Contract {
    let metadata = ContractMetadata {
        spec: s("nft-1.0.0"),
        name: s("Ten"),
        symbol: s("TEN"),
        icon: None,
        base_uri: s("bafybase"),
    };
    Contract::new(s("owner.near"), metadata, s(price), size).unwrap()
}

#[test]
fn new_rejects_bad_prices() {
    let metadata = ContractMetadata {
        spec: s("nft-1.0.0"),
        name: s("Ten"),
        symbol: s("TEN"),
        icon: None,
        base_uri: s("b"),
    };
    assert_eq!(
        Contract::new(s("owner.near"), metadata.clone(), s("0.001"), 3).err(),
        Some(InitError::PriceTooLow)
    );
    assert_eq!(
        Contract::new(s("owner.near"), metadata.clone(), s("one"), 3).err(),
        Some(InitError::InvalidPrice)
    );
    assert!(Contract::new(s("owner.near"), metadata.clone(), s("0.00702"), 3).is_ok());
    assert_eq!(
        Contract::new(s("Owner"), metadata.clone(), s("1"), 3).err(),
        Some(InitError::InvalidOwner)
    );
    assert_eq!(
        Contract::new(s("a..b"), metadata, s("x"), 3).err(),
        Some(InitError::InvalidOwner)
    );
}

#[test]
fn default_meta_collection() {
    let c = Contract::new_default_meta(s("owner.near"), s("n"), s("S"), s("uri"), s("1")).unwrap();
    assert_eq!(c.total_supply(), 5);
    assert_eq!(c.remaining_count(), 5);
    assert_eq!(c.minted_count(), 0);
    let m = c.nft_metadata();
    assert_eq!(m.spec, "nft-1.0.0");
    assert_eq!(m.base_uri, "uri");
    assert!(m.icon.unwrap().starts_with("data:image/svg+xml"));
}

#[test]
fn five_paid_mints_then_sold_out() {
    let mut c = collection("1", 5);
    let buyer = s("buyer.near");
    let mut ids = Vec::new();
    let seed: Vec<u8> = (0u8..32).collect();
    for _ in 0..5 {
        let t = c.nft_mint(&buyer, ONE, &seed).unwrap();
        assert_eq!(t.owner_id, "buyer.near");
        ids.push(t.token_id.parse::<u64>().unwrap());
    }
    ids.sort();
    assert_eq!(ids, vec![0, 1, 2, 3, 4]);
    assert_eq!(c.nft_mint(&buyer, ONE, &seed).err(), Some(MintError::InsufficientSupply));
    assert_eq!(c.nft_mint(&buyer, 0, &seed).err(), Some(MintError::InsufficientSupply));
    let owner = s("owner.near");
    assert_eq!(c.nft_mint_one(&owner, 0, &seed).err(), Some(MintError::InsufficientSupply));
    assert_eq!(c.remaining_count(), 0);
    assert_eq!(c.minted_count(), 5);
}

#[test]
fn mint_takes_one_from_the_pool() {
    let mut c = collection("1", 3);
    let t = c.mint_with(&s("a"), ONE, 4).unwrap();
    // index 4 % 3 == 1 of [0, 1, 2]
    assert_eq!(t.token_id, "1");
    assert_eq!(t.metadata.media, "https://ipfs.io/ipfs/bafybase/1/media");
    assert_eq!(t.metadata.reference, "https://ipfs.io/ipfs/bafybase/1/info.json");
    assert_eq!(c.remaining_count(), 2);
    assert_eq!(c.minted_count(), 1);
    assert_eq!(c.total_supply(), 3);
    let stored = c.nft_token(s("1")).unwrap();
    assert_eq!(stored, t);
    assert!(c.nft_token(s("0")).is_none());
}

#[test]
fn payment_gate() {
    let mut c = collection("1", 3);
    let buyer = s("buyer.near");
    for wrong in [0u128, ONE - 1, ONE + 1, 2 * ONE] {
        assert_eq!(c.mint_with(&buyer, wrong, 0).err(), Some(MintError::IncorrectPayment));
        assert_eq!(c.remaining_count(), 3);
        assert!(c.nft_token(s("0")).is_none());
    }
    assert!(c.mint_with(&buyer, ONE, 0).is_ok());
    let owner = s("owner.near");
    let t = c.mint_with(&owner, 0, 0).unwrap();
    assert_eq!(t.owner_id, "owner.near");
    assert_eq!(c.remaining_count(), 1);
}

#[test]
fn checks_before_minting() {
    let c = collection("0.5", 2);
    assert_eq!(c.total_cost(3), Some(3 * ONE / 2));
    assert_eq!(c.assert_deposit(ONE, 2), Ok(()));
    assert_eq!(c.assert_deposit(ONE, 1), Err(MintError::IncorrectPayment));
    assert_eq!(c.assert_can_mint(&s("x"), ONE, 3), Err(MintError::InsufficientSupply));
    assert_eq!(c.assert_can_mint(&s("owner.near"), 0, 2), Ok(()));
    assert_eq!(c.assert_can_mint(&s("x"), 0, 1), Err(MintError::IncorrectPayment));
}

#[test]
fn views_repeat() {
    let c = collection("2.5", 4);
    assert_eq!(c.total_supply(), c.total_supply());
    assert_eq!(c.unit_price(), c.unit_price());
    assert_eq!(c.unit_price(), "2.5");
}

#[test]
fn transfer_moves_the_token() {
    let mut c = collection("1", 3);
    let a = s("alice.near");
    let t = c.mint_with(&a, ONE, 0).unwrap();
    let ev = c.nft_transfer(&a, s("bob.near"), t.token_id.clone(), None, None).unwrap();
    assert_eq!(ev.token_id, t.token_id);
    assert_eq!(ev.sender_id, "alice.near");
    assert_eq!(ev.receiver_id, "bob.near");
    assert_eq!(c.nft_token(t.token_id.clone()).unwrap().owner_id, "bob.near");
    assert_eq!(c.nft_token(t.token_id.clone()).unwrap().metadata, t.metadata);
}

#[test]
fn transfer_refusals() {
    let mut c = collection("1", 3);
    let a = s("alice.near");
    let t = c.mint_with(&a, ONE, 0).unwrap();
    assert_eq!(
        c.nft_transfer(&s("eve.near"), s("eve.near"), t.token_id.clone(), Some(1), None).err(),
        Some(TransferError::Unauthorized)
    );
    assert_eq!(
        c.nft_transfer(&a, s("bob.near"), s("2"), None, None).err(),
        Some(TransferError::UnknownToken)
    );
    assert_eq!(c.nft_token(t.token_id).unwrap().owner_id, "alice.near");
}

#[test]
fn failed_notification_reverts() {
    let mut c = collection("1", 3);
    let a = s("alice.near");
    let b = s("bob.near");
    let t = c.mint_with(&a, ONE, 0).unwrap();
    let pending = c
        .nft_transfer_call(&a, b.clone(), t.token_id.clone(), None, None, s("hi"))
        .unwrap();
    assert_eq!(pending.phase, TransferPhase::AwaitingNotification);
    assert_eq!(pending.previous_owner_id, "alice.near");
    // while the notification is out, the receiver already owns the token
    assert_eq!(c.nft_token(t.token_id.clone()).unwrap().owner_id, "bob.near");
    let res = c.nft_resolve_transfer(
        pending.previous_owner_id.clone(),
        pending.receiver_id.clone(),
        pending.token_id.clone(),
        NotifyOutcome::Failed,
    );
    assert_eq!(res.phase, TransferPhase::Reverted);
    let ev = res.event.unwrap();
    assert_eq!(ev.token_id, t.token_id);
    assert_eq!(ev.sender_id, "alice.near");
    assert_eq!(ev.receiver_id, "alice.near");
    assert_eq!(c.nft_token(t.token_id).unwrap().owner_id, "alice.near");
}

#[test]
fn returned_token_reverts_and_kept_token_stays() {
    let mut c = collection("1", 3);
    let a = s("alice.near");
    let t = c.mint_with(&a, ONE, 0).unwrap();
    c.nft_transfer_call(&a, s("bob.near"), t.token_id.clone(), None, None, s("")).unwrap();
    let res = c.nft_resolve_transfer(a.clone(), s("bob.near"), t.token_id.clone(), NotifyOutcome::Returned);
    assert_eq!(res.phase, TransferPhase::Reverted);
    c.nft_transfer_call(&a, s("carol.near"), t.token_id.clone(), None, None, s("")).unwrap();
    let res = c.nft_resolve_transfer(a.clone(), s("carol.near"), t.token_id.clone(), NotifyOutcome::Kept);
    assert_eq!(res.phase, TransferPhase::Finalized);
    assert!(res.event.is_none());
    assert_eq!(c.nft_token(t.token_id).unwrap().owner_id, "carol.near");
}

#[test]
fn no_revert_after_the_receiver_moved_on() {
    let mut c = collection("1", 3);
    let a = s("alice.near");
    let b = s("bob.near");
    let t = c.mint_with(&a, ONE, 0).unwrap();
    c.nft_transfer_call(&a, b.clone(), t.token_id.clone(), None, None, s("")).unwrap();
    c.nft_transfer(&b, s("dan.near"), t.token_id.clone(), None, None).unwrap();
    let res = c.nft_resolve_transfer(a, b, t.token_id.clone(), NotifyOutcome::Failed);
    assert_eq!(res.phase, TransferPhase::Finalized);
    assert!(res.event.is_none());
    assert_eq!(c.nft_token(t.token_id).unwrap().owner_id, "dan.near");
}

#[test]
fn mint_uses_the_seed_and_the_mint_count() {
    let seed = vec![9u8; 32];
    let mut a = collection("1", 10);
    let mut b = collection("1", 10);
    let t = a.nft_mint_one(&s("x.near"), ONE, &seed).unwrap();
    let expected = tenk::random::random_for_draw(&seed, 0);
    let u = b.mint_with(&s("x.near"), ONE, expected).unwrap();
    assert_eq!(t, u);
    let t2 = a.nft_mint_one(&s("x.near"), ONE, &seed).unwrap();
    let u2 = b.mint_with(&s("x.near"), ONE, tenk::random::random_for_draw(&seed, 1)).unwrap();
    assert_eq!(t2, u2);
}

#[test]
fn owner_names_follow_the_account_rules() {
    let metadata = ContractMetadata {
        spec: s("nft-1.0.0"),
        name: s("Ten"),
        symbol: s("TEN"),
        icon: None,
        base_uri: s("b"),
    };
    for good in ["ab", "alice.near", "a-b_c.d0", &"a".repeat(64)] {
        assert!(Contract::new(s(good), metadata.clone(), s("1"), 1).is_ok(), "{}", good);
    }
    for bad in ["a", "", ".ab", "ab.", "a__b", "A.near", "é.near", &"a".repeat(65)] {
        assert_eq!(
            Contract::new(s(bad), metadata.clone(), s("1"), 1).err(),
            Some(InitError::InvalidOwner),
            "{}",
            bad
        );
    }
}

#[test]
fn transfer_to_the_owner_is_refused() {
    let mut c = collection("1", 3);
    let a = s("alice.near");
    let t = c.mint_with(&a, ONE, 0).unwrap();
    assert_eq!(
        c.nft_transfer(&a, a.clone(), t.token_id.clone(), None, None).err(),
        Some(TransferError::SameOwner)
    );
    assert_eq!(
        c.nft_transfer_call(&a, a.clone(), t.token_id.clone(), None, None, s("")).err(),
        Some(TransferError::SameOwner)
    );
    assert_eq!(c.nft_token(t.token_id).unwrap().owner_id, "alice.near");
}

#[test]
fn default_meta_fields_and_low_price() {
    let c = Contract::new_default_meta(s("owner.near"), s("Tenk"), s("TENK"), s("bafyABC"), s("1"))
        .unwrap();
    let m = c.nft_metadata();
    assert_eq!(m.name, "Tenk");
    assert_eq!(m.symbol, "TENK");
    assert_eq!(m.spec, "nft-1.0.0");
    assert_eq!(m.base_uri, "bafyABC");
    assert_eq!(m.icon.as_deref(), Some(tenk::contract::DATA_IMAGE_SVG_NEAR_ICON));
    assert_eq!(c.unit_price(), "1");
    assert_eq!(
        Contract::new_default_meta(s("owner.near"), s("n"), s("S"), s("u"), s("0.007")).err(),
        Some(InitError::PriceTooLow)
    );
}

#[test]
fn tokens_listed_by_owner() {
    let mut c = collection("1", 4);
    let a = s("alice.near");
    let b = s("bob.near");
    let t0 = c.mint_with(&a, ONE, 0).unwrap();
    let t1 = c.mint_with(&a, ONE, 0).unwrap();
    let t2 = c.mint_with(&b, ONE, 0).unwrap();
    c.nft_transfer(&a, b.clone(), t0.token_id.clone(), None, None).unwrap();
    let mine: Vec<String> = c.nft_tokens_for_owner(a.clone()).into_iter().map(|t| t.token_id).collect();
    assert_eq!(mine, vec![t1.token_id.clone()]);
    let mut theirs: Vec<String> =
        c.nft_tokens_for_owner(b.clone()).into_iter().map(|t| t.token_id).collect();
    theirs.sort();
    let mut expected = vec![t0.token_id, t2.token_id];
    expected.sort();
    assert_eq!(theirs, expected);
    assert!(c.nft_tokens_for_owner(s("nobody.near")).is_empty());
}

#[test]
fn reverted_token_leaves_the_receivers_list() {
    let mut c = collection("1", 3);
    let a = s("alice.near");
    let b = s("bob.near");
    let t = c.mint_with(&a, ONE, 0).unwrap();
    c.nft_transfer_call(&a, b.clone(), t.token_id.clone(), None, None, s("")).unwrap();
    assert_eq!(c.nft_tokens_for_owner(b.clone()).len(), 1);
    c.nft_resolve_transfer(a.clone(), b.clone(), t.token_id.clone(), NotifyOutcome::Failed);
    assert!(c.nft_tokens_for_owner(b).is_empty());
    assert_eq!(c.nft_tokens_for_owner(a).len(), 1);
}
