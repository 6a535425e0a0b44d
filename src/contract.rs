//! The minting coordinator and the transfer protocol around the ledger.
use vstd::prelude::*;
use vstd::string::StringExecFns;
use crate::account::{is_valid_account_id, valid_account_id};
use crate::ledger::{Ledger, Token, TokenRecord, record_of};
use crate::metadata::{
    TokenMetadata,
    create_metadata,
    decimal,
    decimal_string,
    lemma_decimal_injective,
    media_uri,
    reference_uri,
};
use crate::price::{MIN_STORAGE_DEPOSIT, to_yocto, yocto_u128};
use crate::random::{draw_random, random_for_draw};
use crate::raffle::{Raffle, draw_all, draw_spec, full_pool, lemma_draw_keeps_rest, lemma_full_pool_draws};
use vstd::arithmetic::div_mod::lemma_small_mod;

verus! {

/// The metadata standard that the collection follows.
pub const NFT_METADATA_SPEC: &'static str = "nft-1.0.0";

/// The number of tokens of a collection created with default metadata.
pub const DEFAULT_SUPPLY: u64 = 5;

pub const DATA_IMAGE_SVG_NEAR_ICON: &'static str = "data:image/svg+xml,%3Csvg xmlns='http://www.w3.org/2000/svg' viewBox='0 0 288 288'%3E%3Cg id='l' data-name='l'%3E%3Cpath d='M187.58,79.81l-30.1,44.69a3.2,3.2,0,0,0,4.75,4.2L191.86,103a1.2,1.2,0,0,1,2,.91v80.46a1.2,1.2,0,0,1-2.12.77L102.18,77.93A15.35,15.35,0,0,0,90.47,72.5H87.34A15.34,15.34,0,0,0,72,87.84V201.16A15.34,15.34,0,0,0,87.34,216.5h0a15.35,15.35,0,0,0,13.08-7.31l30.1-44.69a3.2,3.2,0,0,0-4.75-4.2L96.14,186a1.2,1.2,0,0,1-2-.91V104.61a1.2,1.2,0,0,1,2.12-.77l89.55,107.23a15.35,15.35,0,0,0,11.71,5.43h3.13A15.34,15.34,0,0,0,216,201.16V87.84A15.34,15.34,0,0,0,200.66,72.5h0A15.35,15.35,0,0,0,187.58,79.81Z'/%3E%3C/g%3E%3C/svg%3E";

/// Descriptive metadata of the whole collection.
#[derive(Debug, Clone, PartialEq, Eq)]
pub struct ContractMetadata {
    pub spec: String,
    pub name: String,
    pub symbol: String,
    pub icon: Option<String>,
    pub base_uri: String,
}

/// The fields of collection metadata, as plain values.
pub open spec fn metadata_view(m: ContractMetadata) -> (Seq<char>, Seq<char>, Seq<char>, Option<
    Seq<char>,
>, Seq<char>) {
    (
        m.spec@,
        m.name@,
        m.symbol@,
        match m.icon {
            Some(i) => Some(i@),
            None => None,
        },
        m.base_uri@,
    )
}

/// Why a collection could not be created.
#[derive(Debug, Clone, Copy, PartialEq, Eq, Structural)]
pub enum InitError {
    /// The owner is no valid account name.
    InvalidOwner,
    /// The unit price is no decimal amount, or does not fit.
    InvalidPrice,
    /// The unit price does not cover the storage of one token.
    PriceTooLow,
}

/// Why a mint was refused.
#[derive(Debug, Clone, Copy, PartialEq, Eq, Structural)]
pub enum MintError {
    InsufficientSupply,
    IncorrectPayment,
}

/// Why a transfer was refused.
#[derive(Debug, Clone, Copy, PartialEq, Eq, Structural)]
pub enum TransferError {
    UnknownToken,
    Unauthorized,
    /// The receiver already owns the token.
    SameOwner,
}

/// Where a transfer with notification stands.
#[derive(Debug, Clone, Copy, PartialEq, Eq, Structural)]
pub enum TransferPhase {
    Initiated,
    AwaitingNotification,
    Finalized,
    Reverted,
}

/// How the notification of a receiver ended.
#[derive(Debug, Clone, Copy, PartialEq, Eq, Structural)]
pub enum NotifyOutcome {
    /// The receiver kept the token.
    Kept,
    /// The receiver asked for the token to go back.
    Returned,
    /// The call failed or ran out of time.
    Failed,
}

/// A change of owner, to be logged as `{"type": "transfer", ...}`.
#[derive(Debug, Clone, PartialEq, Eq)]
pub struct TransferEvent {
    pub token_id: String,
    pub sender_id: String,
    pub receiver_id: String,
}

/// A transfer whose receiver is being notified: what the resolve step needs.
#[derive(Debug, Clone, PartialEq, Eq)]
pub struct NotifiedTransfer {
    pub previous_owner_id: String,
    pub receiver_id: String,
    pub token_id: String,
    pub phase: TransferPhase,
}

/// The end of a notified transfer: its last phase, and the reversion
/// event when the token went back.
#[derive(Debug, Clone, PartialEq, Eq)]
pub struct Resolution {
    pub phase: TransferPhase,
    pub event: Option<TransferEvent>,
}

/// A collection of `total_supply` tokens, drawn at random for buyers.
/// Nothing is reserved ahead of a mint: each mint is one indivisible call,
/// so the supply check counts the pool alone.
pub struct Contract {
    owner_id: String,
    metadata: ContractMetadata,
    raffle: Raffle,
    ledger: Ledger,
    total_supply: u64,
    unit_price: String,
}

impl Contract {
    pub closed spec fn spec_owner_id(&self) -> Seq<char> {
        self.owner_id@
    }

    pub closed spec fn spec_metadata(&self) -> (Seq<char>, Seq<char>, Seq<char>, Option<
        Seq<char>,
    >, Seq<char>) {
        metadata_view(self.metadata)
    }

    pub closed spec fn spec_base_uri(&self) -> Seq<char> {
        self.metadata.base_uri@
    }

    pub closed spec fn spec_unit_price(&self) -> Seq<char> {
        self.unit_price@
    }

    pub closed spec fn spec_total_supply(&self) -> nat {
        self.total_supply as nat
    }

    /// The identifiers not minted yet.
    pub closed spec fn pool(&self) -> Seq<u64> {
        self.raffle@
    }

    /// The minted tokens by identifier.
    pub closed spec fn tokens(&self) -> Map<Seq<char>, TokenRecord> {
        self.ledger@
    }

    /// The pool never holds more identifiers than the supply.
    pub proof fn lemma_pool_len(&self)
        requires
            self.wf(),
        ensures
            self.pool().len() <= self.spec_total_supply(),
            self.pool().no_duplicates(),
    {
    }

    /// The unit price in the smallest unit.
    pub open spec fn price(&self) -> int {
        yocto_u128(self.spec_unit_price()).unwrap() as int
    }

    /// The number of tokens minted so far.
    pub open spec fn minted(&self) -> int {
        self.spec_total_supply() - self.pool().len()
    }

    /// The pool and the ledger together hold each identifier below the
    /// supply once: an identifier is minted exactly when it left the pool.
    pub closed spec fn wf(&self) -> bool {
        &&& self.raffle.wf()
        &&& self.ledger.wf()
        &&& self.raffle.spec_size() == self.total_supply
        &&& yocto_u128(self.unit_price@) is Some
        &&& forall|k: Seq<char>| #[trigger]
            self.ledger@.contains_key(k) ==> exists|id: u64|
                id < self.total_supply && k == decimal(id as nat) && !self.raffle@.contains(id)
        &&& forall|id: u64|
            id < self.total_supply && !self.raffle@.contains(id) ==> #[trigger] self.ledger@.contains_key(
                decimal(id as nat),
            )
    }

    /// A collection of `size` tokens sold at `unit_price` whole tokens each,
    /// owned by `owner_id`. Refused when the price is no amount or does not
    /// cover the storage of a token.
    pub fn new(owner_id: String, metadata: ContractMetadata, unit_price: String, size: u64) -> (r:
        Result<Contract, InitError>)
        ensures
            !valid_account_id(owner_id@) ==> r == Err::<Contract, InitError>(
                InitError::InvalidOwner,
            ),
            valid_account_id(owner_id@) && yocto_u128(unit_price@) is None ==> r == Err::<
                Contract,
                InitError,
            >(InitError::InvalidPrice),
            valid_account_id(owner_id@) && (yocto_u128(unit_price@) matches Some(p) && p
                < MIN_STORAGE_DEPOSIT) ==> r == Err::<Contract, InitError>(InitError::PriceTooLow),
            r is Ok <==> valid_account_id(owner_id@) && (yocto_u128(unit_price@) matches Some(p)
                && p >= MIN_STORAGE_DEPOSIT),
            r matches Ok(c) ==> {
                &&& c.wf()
                &&& c.spec_owner_id() == owner_id@
                &&& c.spec_base_uri() == metadata.base_uri@
                &&& c.spec_metadata() == metadata_view(metadata)
                &&& c.spec_unit_price() == unit_price@
                &&& c.spec_total_supply() == size
                &&& c.pool() == full_pool(size as nat)
                &&& c.tokens() == Map::<Seq<char>, TokenRecord>::empty()
            },
    {
        if !is_valid_account_id(owner_id.as_str()) {
            return Err(InitError::InvalidOwner);
        }
        match to_yocto(unit_price.as_str()) {
            None => Err(InitError::InvalidPrice),
            Some(p) => {
                if p < MIN_STORAGE_DEPOSIT {
                    return Err(InitError::PriceTooLow);
                }
                let raffle = Raffle::new(size);
                let c = Contract {
                    owner_id,
                    metadata,
                    raffle,
                    ledger: Ledger::new(),
                    total_supply: size,
                    unit_price,
                };
                proof {
                    assert forall|id: u64| id < size implies #[trigger] c.raffle@.contains(id) by {
                        assert(c.raffle@[id as int] == id);
                    }
                }
                Ok(c)
            },
        }
    }

    /// A collection of `DEFAULT_SUPPLY` tokens with the default icon.
    pub fn new_default_meta(
        owner_id: String,
        name: String,
        symbol: String,
        uri: String,
        unit_price: String,
    ) -> (r: Result<Contract, InitError>)
        ensures
            r is Ok <==> valid_account_id(owner_id@) && (yocto_u128(unit_price@) matches Some(p)
                && p >= MIN_STORAGE_DEPOSIT),
            !valid_account_id(owner_id@) ==> r == Err::<Contract, InitError>(
                InitError::InvalidOwner,
            ),
            valid_account_id(owner_id@) && yocto_u128(unit_price@) is None ==> r == Err::<
                Contract,
                InitError,
            >(InitError::InvalidPrice),
            valid_account_id(owner_id@) && (yocto_u128(unit_price@) matches Some(p) && p
                < MIN_STORAGE_DEPOSIT) ==> r == Err::<Contract, InitError>(InitError::PriceTooLow),
            r matches Ok(c) ==> {
                &&& c.wf()
                &&& c.spec_owner_id() == owner_id@
                &&& c.spec_base_uri() == uri@
                &&& c.spec_metadata() == (
                    NFT_METADATA_SPEC@,
                    name@,
                    symbol@,
                    Some(DATA_IMAGE_SVG_NEAR_ICON@),
                    uri@,
                )
                &&& c.spec_unit_price() == unit_price@
                &&& c.spec_total_supply() == DEFAULT_SUPPLY
                &&& c.pool() == full_pool(DEFAULT_SUPPLY as nat)
                &&& c.tokens() == Map::<Seq<char>, TokenRecord>::empty()
            },
    {
        let metadata = ContractMetadata {
            spec: String::from_str(NFT_METADATA_SPEC),
            name,
            symbol,
            icon: Some(String::from_str(DATA_IMAGE_SVG_NEAR_ICON)),
            base_uri: uri,
        };
        Contract::new(owner_id, metadata, unit_price, DEFAULT_SUPPLY)
    }

    /// The unit price, as the decimal text it was set with.
    pub fn unit_price(&self) -> (r: String)
        ensures
            r@ == self.spec_unit_price(),
    {
        self.unit_price.clone()
    }

    /// The number of tokens the collection was created with.
    pub fn total_supply(&self) -> (r: u64)
        ensures
            r == self.spec_total_supply(),
    {
        self.total_supply
    }

    /// The number of tokens that can still be minted.
    pub fn remaining_count(&self) -> (r: u64)
        requires
            self.wf(),
        ensures
            r == self.pool().len(),
    {
        self.raffle.len()
    }

    /// The number of tokens minted so far.
    pub fn minted_count(&self) -> (r: u64)
        requires
            self.wf(),
        ensures
            r == self.minted(),
    {
        self.total_supply - self.raffle.len()
    }

    /// Mints one token for `signer_id`; see `nft_mint_one`.
    pub fn nft_mint(&mut self, signer_id: &String, attached_deposit: u128, random_seed: &Vec<u8>) -> (r:
        Result<Token, MintError>)
        requires
            old(self).wf(),
        ensures
            Self::mint_post(
                *old(self),
                *final(self),
                signer_id@,
                attached_deposit,
                draw_random(random_seed@, old(self).minted() as u64) as u64,
                r,
            ),
    {
        self.nft_mint_one(signer_id, attached_deposit, random_seed)
    }

    /// What minting one token does: refused, with nothing changed, when the
    /// pool is empty or when a caller other than the owner attaches anything
    /// but the unit price; otherwise one identifier is drawn with `random`
    /// and recorded as `signer`'s token.
    pub open spec fn mint_post(
        before: Contract,
        after: Contract,
        signer: Seq<char>,
        deposit: u128,
        random: u64,
        r: Result<Token, MintError>,
    ) -> bool {
        &&& after.wf()
        &&& after.spec_total_supply() == before.spec_total_supply()
        &&& after.spec_unit_price() == before.spec_unit_price()
        &&& after.spec_owner_id() == before.spec_owner_id()
        &&& after.spec_base_uri() == before.spec_base_uri()
        &&& before.pool().len() == 0 ==> r == Err::<Token, MintError>(MintError::InsufficientSupply)
        &&& before.pool().len() > 0 && signer != before.spec_owner_id() && deposit != before.price()
            ==> r == Err::<Token, MintError>(MintError::IncorrectPayment)
        &&& r is Err ==> after == before
        &&& r is Ok <==> before.pool().len() > 0 && (signer == before.spec_owner_id() || deposit
            == before.price())
        &&& r matches Ok(t) ==> Self::mint_effect(before, after, signer, random, t)
    }

    /// A successful mint: the identifier drawn with `random` leaves the
    /// pool and enters the ledger as `signer`'s token `t`, with its two
    /// content addresses.
    pub open spec fn mint_effect(
        before: Contract,
        after: Contract,
        signer: Seq<char>,
        random: u64,
        t: Token,
    ) -> bool {
        let (pool, id) = draw_spec(before.pool(), random);
        &&& after.wf()
        &&& after.spec_total_supply() == before.spec_total_supply()
        &&& after.spec_unit_price() == before.spec_unit_price()
        &&& after.spec_owner_id() == before.spec_owner_id()
        &&& after.spec_base_uri() == before.spec_base_uri()
        &&& after.pool() == pool
        &&& after.pool().len() == before.pool().len() - 1
        &&& after.minted() == before.minted() + 1
        &&& t.token_id@ == decimal(id as nat)
        &&& t.owner_id@ == signer
        &&& t.metadata.media@ == media_uri(before.spec_base_uri(), id as nat)
        &&& t.metadata.reference@ == reference_uri(before.spec_base_uri(), id as nat)
        &&& !before.tokens().contains_key(t.token_id@)
        &&& after.tokens() == before.tokens().insert(t.token_id@, record_of(t))
    }

    /// Mints one token for `signer_id`, who attached `attached_deposit`.
    /// The identifier is drawn with the random value derived from the
    /// block's `random_seed` and the number of tokens minted so far, which
    /// grows with each draw.
    pub fn nft_mint_one(&mut self, signer_id: &String, attached_deposit: u128, random_seed: &Vec<
        u8,
    >) -> (r: Result<Token, MintError>)
        requires
            old(self).wf(),
        ensures
            Self::mint_post(
                *old(self),
                *final(self),
                signer_id@,
                attached_deposit,
                draw_random(random_seed@, old(self).minted() as u64) as u64,
                r,
            ),
    {
        let counter = self.minted_count();
        let random = random_for_draw(random_seed, counter);
        self.mint_with(signer_id, attached_deposit, random)
    }

    /// Mints one token for `signer_id`, who attached `attached_deposit`,
    /// drawing its identifier with `random`.
    pub fn mint_with(&mut self, signer_id: &String, attached_deposit: u128, random: u64) -> (r:
        Result<Token, MintError>)
        requires
            old(self).wf(),
        ensures
            Self::mint_post(*old(self), *final(self), signer_id@, attached_deposit, random, r),
    {
        if let Err(e) = self.assert_can_mint(signer_id, attached_deposit, 1) {
            return Err(e);
        }
        self.internal_mint(signer_id.clone(), random)
    }

    /// The price of `num` tokens in the smallest unit, where it fits.
    pub fn total_cost(&self, num: u32) -> (r: Option<u128>)
        requires
            self.wf(),
        ensures
            r matches Some(c) ==> c == self.price() * num,
            r is None <==> self.price() * num > u128::MAX,
    {
        crate::price::total_cost(self.unit_price.as_str(), num)
    }

    /// Whether `attached_deposit` pays exactly for `num` tokens.
    pub fn assert_deposit(&self, attached_deposit: u128, num: u32) -> (r: Result<(), MintError>)
        requires
            self.wf(),
        ensures
            r is Ok <==> attached_deposit == self.price() * num,
            r is Err ==> r == Err::<(), MintError>(MintError::IncorrectPayment),
    {
        match self.total_cost(num) {
            Some(c) => if attached_deposit == c {
                Ok(())
            } else {
                Err(MintError::IncorrectPayment)
            },
            None => Err(MintError::IncorrectPayment),
        }
    }

    /// Whether `signer_id` may mint `num` tokens now: enough are left, and
    /// the owner mints for free while anyone else pays the exact price.
    pub fn assert_can_mint(&self, signer_id: &String, attached_deposit: u128, num: u32) -> (r:
        Result<(), MintError>)
        requires
            self.wf(),
        ensures
            self.pool().len() < num ==> r == Err::<(), MintError>(MintError::InsufficientSupply),
            self.pool().len() >= num && signer_id@ != self.spec_owner_id() && attached_deposit
                != self.price() * num ==> r == Err::<(), MintError>(MintError::IncorrectPayment),
            r is Ok <==> self.pool().len() >= num && (signer_id@ == self.spec_owner_id()
                || attached_deposit == self.price() * num),
    {
        if self.raffle.len() < num as u64 {
            return Err(MintError::InsufficientSupply);
        }
        if *signer_id == self.owner_id {
            return Ok(());
        }
        self.assert_deposit(attached_deposit, num)
    }

    /// Draws an identifier with `random` and records it as `owner_id`'s
    /// token.
    fn internal_mint(&mut self, owner_id: String, random: u64) -> (r: Result<Token, MintError>)
        requires
            old(self).wf(),
            old(self).pool().len() > 0,
        ensures
            r matches Ok(t) && Self::mint_effect(*old(self), *final(self), owner_id@, random, t),
    {
        let ghost before = *self;
        let id = match self.raffle.draw_with(random) {
            Ok(id) => id,
            Err(_) => {
                return Err(MintError::InsufficientSupply);
            },
        };
        proof {
            lemma_draw_keeps_rest(before.raffle@, random);
        }
        let metadata = create_metadata(self.metadata.base_uri.as_str(), id);
        let token_id = decimal_string(id);
        let token = Token {
            token_id: token_id.clone(),
            owner_id: owner_id.clone(),
            metadata: TokenMetadata {
                media: metadata.media.clone(),
                reference: metadata.reference.clone(),
            },
        };
        proof {
            assert(id < self.total_supply);
            if before.ledger@.contains_key(token_id@) {
                let other = choose|other: u64|
                    other < before.total_supply && token_id@ == decimal(other as nat)
                        && !before.raffle@.contains(other);
                lemma_decimal_injective(other as nat, id as nat);
            }
        }
        self.ledger.insert(token);
        proof {
            let k = token_id@;
            assert forall|k2: Seq<char>| #[trigger] self.ledger@.contains_key(k2) implies exists|
                x: u64|
                x < self.total_supply && k2 == decimal(x as nat) && !self.raffle@.contains(x) by {
                if k2 == k {
                    assert(!self.raffle@.contains(id));
                } else {
                    assert(before.ledger@.contains_key(k2));
                    let x = choose|x: u64|
                        x < before.total_supply && k2 == decimal(x as nat) && !before.raffle@.contains(
                            x,
                        );
                    assert(!self.raffle@.contains(x));
                }
            }
            assert forall|x: u64| x < self.total_supply && !self.raffle@.contains(x) implies #[trigger]
                self.ledger@.contains_key(decimal(x as nat)) by {
                if x != id {
                    assert(!before.raffle@.contains(x));
                }
            }
        }
        Ok(
            Token {
                token_id,
                owner_id,
                metadata,
            },
        )
    }

    /// The token `token_id`, if it has been minted.
    pub fn nft_token(&self, token_id: String) -> (r: Option<Token>)
        requires
            self.wf(),
        ensures
            r is Some <==> self.tokens().contains_key(token_id@),
            r matches Some(t) ==> t.token_id@ == token_id@ && record_of(t) == self.tokens()[token_id@],
    {
        self.ledger.token(&token_id)
    }

    /// The tokens that `account_id` owns, each once.
    pub fn nft_tokens_for_owner(&self, account_id: String) -> (r: Vec<Token>)
        requires
            self.wf(),
        ensures
            forall|i: int|
                0 <= i < r@.len() ==> self.tokens().contains_key((#[trigger] r@[i]).token_id@)
                    && record_of(r@[i]) == self.tokens()[r@[i].token_id@] && r@[i].owner_id@
                    == account_id@,
            forall|k: Seq<char>|
                #[trigger] self.tokens().contains_key(k) && self.tokens()[k].owner == account_id@
                    ==> exists|i: int| 0 <= i < r@.len() && (#[trigger] r@[i]).token_id@ == k,
            forall|i: int, j: int|
                0 <= i < r@.len() && 0 <= j < r@.len() && i != j ==> (#[trigger] r@[i]).token_id@
                    != (#[trigger] r@[j]).token_id@,
    {
        self.ledger.tokens_for_owner(&account_id)
    }

    /// What a transfer of `token_id` from `sender` to `receiver` does to the
    /// ledger: refused, with nothing changed, for an unknown token or a
    /// sender that does not own it; otherwise the receiver owns it.
    pub open spec fn transfer_post(
        before: Contract,
        after: Contract,
        sender: Seq<char>,
        receiver: Seq<char>,
        token_id: Seq<char>,
        r: Result<(), TransferError>,
    ) -> bool {
        &&& after.wf()
        &&& !before.tokens().contains_key(token_id) ==> r == Err::<(), TransferError>(
            TransferError::UnknownToken,
        )
        &&& before.tokens().contains_key(token_id) && before.tokens()[token_id].owner != sender
            ==> r == Err::<(), TransferError>(TransferError::Unauthorized)
        &&& before.tokens().contains_key(token_id) && before.tokens()[token_id].owner == sender
            && sender == receiver ==> r == Err::<(), TransferError>(TransferError::SameOwner)
        &&& r is Ok <==> before.tokens().contains_key(token_id) && before.tokens()[token_id].owner
            == sender && sender != receiver
        &&& r is Err ==> after == before
        &&& r is Ok ==> {
            &&& after.tokens() == before.tokens().insert(
                token_id,
                TokenRecord { owner: receiver, ..before.tokens()[token_id] },
            )
            &&& after.pool() == before.pool()
            &&& after.spec_total_supply() == before.spec_total_supply()
            &&& after.spec_unit_price() == before.spec_unit_price()
            &&& after.spec_owner_id() == before.spec_owner_id()
            &&& after.spec_base_uri() == before.spec_base_uri()
        }
    }

    fn internal_transfer(&mut self, sender_id: &String, receiver_id: &String, token_id: &String) -> (r:
        Result<(), TransferError>)
        requires
            old(self).wf(),
        ensures
            Self::transfer_post(*old(self), *final(self), sender_id@, receiver_id@, token_id@, r),
    {
        match self.ledger.owner_of(token_id) {
            None => Err(TransferError::UnknownToken),
            Some(owner) => {
                if owner != *sender_id {
                    return Err(TransferError::Unauthorized);
                }
                if owner == *receiver_id {
                    return Err(TransferError::SameOwner);
                }
                self.ledger.set_owner(token_id, receiver_id.clone());
                Ok(())
            },
        }
    }

    /// Moves `token_id` from `sender_id`, who must own it, to another
    /// account `receiver_id`, and returns the event to log. The ledger grants no approvals, so
    /// `approval_id` gives no one else the right to move it; `memo` is
    /// carried by the caller's log only.
    pub fn nft_transfer(
        &mut self,
        sender_id: &String,
        receiver_id: String,
        token_id: String,
        approval_id: Option<u64>,
        memo: Option<String>,
    ) -> (r: Result<TransferEvent, TransferError>)
        requires
            old(self).wf(),
        ensures
            Self::transfer_post(
                *old(self),
                *final(self),
                sender_id@,
                receiver_id@,
                token_id@,
                match r {
                    Ok(_) => Ok(()),
                    Err(e) => Err(e),
                },
            ),
            r matches Ok(ev) ==> ev.token_id@ == token_id@ && ev.sender_id@ == sender_id@
                && ev.receiver_id@ == receiver_id@,
    {
        match self.internal_transfer(sender_id, &receiver_id, &token_id) {
            Ok(()) => Ok(TransferEvent { token_id, sender_id: sender_id.clone(), receiver_id }),
            Err(e) => Err(e),
        }
    }

    /// Moves `token_id` to `receiver_id` at once, before the receiver is
    /// notified with `msg`; the returned transfer awaits the outcome of that
    /// notification, which `nft_resolve_transfer` settles.
    pub fn nft_transfer_call(
        &mut self,
        sender_id: &String,
        receiver_id: String,
        token_id: String,
        approval_id: Option<u64>,
        memo: Option<String>,
        msg: String,
    ) -> (r: Result<NotifiedTransfer, TransferError>)
        requires
            old(self).wf(),
        ensures
            Self::transfer_post(
                *old(self),
                *final(self),
                sender_id@,
                receiver_id@,
                token_id@,
                match r {
                    Ok(_) => Ok(()),
                    Err(e) => Err(e),
                },
            ),
            r matches Ok(t) ==> t.previous_owner_id@ == sender_id@ && t.receiver_id@
                == receiver_id@ && t.token_id@ == token_id@ && t.phase
                == TransferPhase::AwaitingNotification,
    {
        match self.internal_transfer(sender_id, &receiver_id, &token_id) {
            Ok(()) => Ok(
                NotifiedTransfer {
                    previous_owner_id: sender_id.clone(),
                    receiver_id,
                    token_id,
                    phase: TransferPhase::AwaitingNotification,
                },
            ),
            Err(e) => Err(e),
        }
    }

    /// Whether resolving a notified transfer hands the token back: the
    /// receiver did not keep it, and still owns it.
    pub open spec fn reverts(
        before: Contract,
        receiver: Seq<char>,
        token_id: Seq<char>,
        outcome: NotifyOutcome,
    ) -> bool {
        outcome != NotifyOutcome::Kept && before.tokens().contains_key(token_id)
            && before.tokens()[token_id].owner == receiver
    }

    pub open spec fn resolve_post(
        before: Contract,
        after: Contract,
        previous_owner: Seq<char>,
        receiver: Seq<char>,
        token_id: Seq<char>,
        outcome: NotifyOutcome,
        r: Resolution,
    ) -> bool {
        &&& after.wf()
        &&& Self::reverts(before, receiver, token_id, outcome) ==> {
            &&& r.phase == TransferPhase::Reverted
            &&& after.tokens() == before.tokens().insert(
                token_id,
                TokenRecord { owner: previous_owner, ..before.tokens()[token_id] },
            )
            &&& after.pool() == before.pool()
            &&& after.spec_total_supply() == before.spec_total_supply()
            &&& after.spec_unit_price() == before.spec_unit_price()
            &&& after.spec_owner_id() == before.spec_owner_id()
            &&& after.spec_base_uri() == before.spec_base_uri()
            &&& r.event matches Some(ev) && ev.token_id@ == token_id && ev.sender_id@
                == previous_owner && ev.receiver_id@ == previous_owner
        }
        &&& !Self::reverts(before, receiver, token_id, outcome) ==> {
            &&& r.phase == TransferPhase::Finalized
            &&& r.event is None
            &&& after == before
        }
    }

    /// Settles a notified transfer once its notification ended with
    /// `outcome`. The token goes back to `previous_owner_id` when the
    /// receiver did not keep it and still owns it; the reversion is then
    /// reported by an event whose sender and receiver are both the previous
    /// owner. Otherwise the transfer stands and nothing changes.
    pub fn nft_resolve_transfer(
        &mut self,
        previous_owner_id: String,
        receiver_id: String,
        token_id: String,
        outcome: NotifyOutcome,
    ) -> (r: Resolution)
        requires
            old(self).wf(),
        ensures
            final(self).wf(),
            Self::resolve_post(
                *old(self),
                *final(self),
                previous_owner_id@,
                receiver_id@,
                token_id@,
                outcome,
                r,
            ),
    {
        if outcome == NotifyOutcome::Kept {
            return Resolution { phase: TransferPhase::Finalized, event: None };
        }
        match self.ledger.owner_of(&token_id) {
            Some(owner) => {
                if owner != receiver_id {
                    return Resolution { phase: TransferPhase::Finalized, event: None };
                }
                self.ledger.set_owner(&token_id, previous_owner_id.clone());
                Resolution {
                    phase: TransferPhase::Reverted,
                    event: Some(
                        TransferEvent {
                            token_id,
                            sender_id: previous_owner_id.clone(),
                            receiver_id: previous_owner_id,
                        },
                    ),
                }
            },
            None => Resolution { phase: TransferPhase::Finalized, event: None },
        }
    }

    /// With no change in between, two readings of the supply, or of the
    /// unit price, agree.
    pub proof fn lemma_queries_repeat(c: Contract, supply1: u64, supply2: u64, price1: String, price2: String)
        requires
            supply1 == c.spec_total_supply(),
            supply2 == c.spec_total_supply(),
            price1@ == c.spec_unit_price(),
            price2@ == c.spec_unit_price(),
        ensures
            supply1 == supply2,
            price1@ == price2@,
    {
    }

    /// The collection's descriptive metadata.
    pub fn nft_metadata(&self) -> (r: ContractMetadata)
        ensures
            metadata_view(r) == self.spec_metadata(),
            r.base_uri@ == self.spec_base_uri(),
    {
        ContractMetadata {
            spec: self.metadata.spec.clone(),
            name: self.metadata.name.clone(),
            symbol: self.metadata.symbol.clone(),
            icon: match &self.metadata.icon {
                Some(i) => Some(i.clone()),
                None => None,
            },
            base_uri: self.metadata.base_uri.clone(),
        }
    }
}


/// A chain of successful mints: each contract in `cs` follows from the one
/// before by minting `ts[i]` for `signers[i]` with the random value `rs[i]`.
pub open spec fn mint_chain(
    cs: Seq<Contract>,
    signers: Seq<Seq<char>>,
    rs: Seq<u64>,
    ts: Seq<Token>,
) -> bool {
    &&& cs.len() == rs.len() + 1
    &&& signers.len() == rs.len()
    &&& ts.len() == rs.len()
    &&& forall|i: int|
        0 <= i < rs.len() ==> #[trigger] Contract::mint_effect(cs[i], cs[i + 1], signers[i], rs[i], ts[i])
}

proof fn lemma_mint_chain_suffix(
    cs: Seq<Contract>,
    signers: Seq<Seq<char>>,
    rs: Seq<u64>,
    ts: Seq<Token>,
    k: int,
)
    requires
        mint_chain(cs, signers, rs, ts),
        0 <= k <= rs.len(),
        cs[k].pool().len() == rs.len() - k,
    ensures
        ({
            let (drawn, remaining) = draw_all(cs[k].pool(), rs.skip(k));
            &&& drawn.len() == rs.len() - k
            &&& remaining == cs[rs.len() as int].pool()
            &&& forall|j: int| 0 <= j < drawn.len() ==> ts[k + j].token_id@ == decimal(#[trigger] drawn[j] as nat)
        }),
    decreases rs.len() - k,
{
    let n = rs.len() as int;
    if k == n {
        assert(rs.skip(k).len() == 0);
    } else {
        assert(Contract::mint_effect(cs[k], cs[k + 1], signers[k], rs[k], ts[k]));
        assert(rs.skip(k)[0] == rs[k]);
        assert(rs.skip(k).skip(1) =~= rs.skip(k + 1));
        lemma_mint_chain_suffix(cs, signers, rs, ts, k + 1);
        let (d2, rem2) = draw_all(cs[k + 1].pool(), rs.skip(k + 1));
        let (drawn, remaining) = draw_all(cs[k].pool(), rs.skip(k));
        assert forall|j: int| 0 <= j < drawn.len() implies ts[k + j].token_id@ == decimal(
            #[trigger] drawn[j] as nat,
        ) by {
            if j > 0 {
                assert(drawn[j] == d2[j - 1]);
                assert(ts[(k + 1) + (j - 1)].token_id@ == decimal(d2[j - 1] as nat));
            }
        }
    }
}

/// Minting as many times as a fresh collection holds hands out every
/// identifier below its size exactly once, whatever the random values, and
/// empties the pool, so that the next mint finds no supply.
pub proof fn lemma_mints_permutation(
    cs: Seq<Contract>,
    signers: Seq<Seq<char>>,
    rs: Seq<u64>,
    ts: Seq<Token>,
)
    requires
        mint_chain(cs, signers, rs, ts),
        rs.len() <= u64::MAX,
        cs[0].pool() == full_pool(rs.len()),
    ensures
        cs[rs.len() as int].pool().len() == 0,
        exists|ids: Seq<u64>|
            {
                &&& ids.len() == rs.len()
                &&& ids.no_duplicates()
                &&& ids.to_set() == Set::new(|x: u64| x < rs.len())
                &&& forall|i: int| 0 <= i < rs.len() ==> (#[trigger] ts[i]).token_id@ == decimal(ids[i] as nat)
            },
{
    assert(rs.skip(0) =~= rs);
    lemma_mint_chain_suffix(cs, signers, rs, ts, 0);
    lemma_full_pool_draws(rs.len() as u64, rs);
    let (drawn, remaining) = draw_all(cs[0].pool(), rs);
    assert forall|i: int| 0 <= i < rs.len() implies (#[trigger] ts[i]).token_id@ == decimal(
        drawn[i] as nat,
    ) by {
        assert(ts[0 + i].token_id@ == decimal(drawn[i] as nat));
    }
}

/// Each identifier left in the pool is minted by exactly one random value
/// below the pool's length: a source uniform over that range mints every
/// remaining identifier with the same chance.
pub proof fn lemma_mint_uniform(before: Contract, x: u64)
    requires
        before.wf(),
        before.pool().contains(x),
    ensures
        exists|r0: u64|
            #![trigger draw_spec(before.pool(), r0)]
            r0 < before.pool().len() && forall|r: u64, after: Contract, signer: Seq<char>, t: Token|
                r < before.pool().len() && #[trigger] Contract::mint_effect(before, after, signer, r, t)
                    ==> (t.token_id@ == decimal(x as nat) <==> r == r0),
{
    let pool = before.pool();
    before.lemma_pool_len();
    let j = choose|j: int| 0 <= j < pool.len() && pool[j] == x;
    let r0 = j as u64;
    lemma_small_mod(r0 as nat, pool.len());
    assert(draw_spec(pool, r0).1 == x);
    assert forall|r: u64, after: Contract, signer: Seq<char>, t: Token|
        r < pool.len() && #[trigger] Contract::mint_effect(before, after, signer, r, t) implies (
        t.token_id@ == decimal(x as nat) <==> r == r0) by {
        lemma_small_mod(r as nat, pool.len());
        assert(draw_spec(pool, r).1 == pool[r as int]);
        if t.token_id@ == decimal(x as nat) {
            lemma_decimal_injective(pool[r as int] as nat, x as nat);
        }
    }
}

} // verus!
