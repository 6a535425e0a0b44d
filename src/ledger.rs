//! The ownership ledger: which account owns each minted token, and the
//! metadata it was minted with.
use vstd::prelude::*;
use crate::metadata::TokenMetadata;

verus! {

/// A token as handed to callers: its identifier, owner and metadata.
#[derive(Debug, Clone, PartialEq, Eq)]
pub struct Token {
    pub token_id: String,
    pub owner_id: String,
    pub metadata: TokenMetadata,
}

/// What the ledger knows of one token, as plain values.
pub struct TokenRecord {
    pub owner: Seq<char>,
    pub media: Seq<char>,
    pub reference: Seq<char>,
}

pub open spec fn record_of(t: Token) -> TokenRecord {
    TokenRecord { owner: t.owner_id@, media: t.metadata.media@, reference: t.metadata.reference@ }
}

/// Tokens by identifier. Each identifier has one entry and one owner.
pub struct Ledger {
    entries: Vec<Token>,
    records: Ghost<Map<Seq<char>, TokenRecord>>,
}

impl View for Ledger {
    type V = Map<Seq<char>, TokenRecord>;

    closed spec fn view(&self) -> Map<Seq<char>, TokenRecord> {
        self.records@
    }
}

impl Ledger {
    pub closed spec fn wf(&self) -> bool {
        &&& forall|i: int, j: int|
            0 <= i < self.entries@.len() && 0 <= j < self.entries@.len() && i != j
                ==> (#[trigger] self.entries@[i]).token_id@ != (#[trigger] self.entries@[j]).token_id@
        &&& forall|i: int| 0 <= i < self.entries@.len()
            ==> self.records@.contains_key((#[trigger] self.entries@[i]).token_id@)
                && self.records@[self.entries@[i].token_id@] == record_of(self.entries@[i])
        &&& forall|k: Seq<char>| #[trigger] self.records@.contains_key(k) ==> exists|i: int|
            0 <= i < self.entries@.len() && (#[trigger] self.entries@[i]).token_id@ == k
    }

    /// The owner of the token `k`, which must be in the ledger.
    pub open spec fn owner(&self, k: Seq<char>) -> Seq<char> {
        self@[k].owner
    }

    pub fn new() -> (r: Ledger)
        ensures
            r.wf(),
            r@ == Map::<Seq<char>, TokenRecord>::empty(),
    {
        Ledger { entries: Vec::new(), records: Ghost(Map::empty()) }
    }

    fn find(&self, token_id: &String) -> (r: Option<usize>)
        requires
            self.wf(),
        ensures
            r is None <==> !self@.contains_key(token_id@),
            r matches Some(i) ==> i < self.entries@.len() && self.entries@[i as int].token_id@
                == token_id@,
    {
        let mut i: usize = 0;
        while i < self.entries.len()
            invariant
                self.wf(),
                i <= self.entries@.len(),
                forall|j: int| 0 <= j < i ==> (#[trigger] self.entries@[j]).token_id@ != token_id@,
            decreases self.entries@.len() - i,
        {
            if self.entries[i].token_id == *token_id {
                return Some(i);
            }
            i += 1;
        }
        proof {
            if self@.contains_key(token_id@) {
                let j = choose|j: int|
                    0 <= j < self.entries@.len() && (#[trigger] self.entries@[j]).token_id@
                        == token_id@;
                assert(self.entries@[j].token_id@ != token_id@);
            }
        }
        None
    }

    /// Whether the token `token_id` has been minted.
    pub fn contains(&self, token_id: &String) -> (r: bool)
        requires
            self.wf(),
        ensures
            r == self@.contains_key(token_id@),
    {
        self.find(token_id).is_some()
    }

    /// The owner of the token `token_id`, if it has been minted.
    pub fn owner_of(&self, token_id: &String) -> (r: Option<String>)
        requires
            self.wf(),
        ensures
            r is Some <==> self@.contains_key(token_id@),
            r matches Some(o) ==> o@ == self.owner(token_id@),
    {
        match self.find(token_id) {
            Some(i) => Some(self.entries[i].owner_id.clone()),
            None => None,
        }
    }

    /// The token `token_id`, if it has been minted.
    pub fn token(&self, token_id: &String) -> (r: Option<Token>)
        requires
            self.wf(),
        ensures
            r is Some <==> self@.contains_key(token_id@),
            r matches Some(t) ==> t.token_id@ == token_id@ && record_of(t) == self@[token_id@],
    {
        match self.find(token_id) {
            Some(i) => {
                let e = &self.entries[i];
                Some(
                    Token {
                        token_id: e.token_id.clone(),
                        owner_id: e.owner_id.clone(),
                        metadata: TokenMetadata {
                            media: e.metadata.media.clone(),
                            reference: e.metadata.reference.clone(),
                        },
                    },
                )
            },
            None => None,
        }
    }

    /// The tokens that `account_id` owns, each once, in minting order.
    pub fn tokens_for_owner(&self, account_id: &String) -> (r: Vec<Token>)
        requires
            self.wf(),
        ensures
            forall|i: int|
                0 <= i < r@.len() ==> self@.contains_key((#[trigger] r@[i]).token_id@) && record_of(
                    r@[i],
                ) == self@[r@[i].token_id@] && r@[i].owner_id@ == account_id@,
            forall|k: Seq<char>|
                #[trigger] self@.contains_key(k) && self.owner(k) == account_id@ ==> exists|i: int|
                    0 <= i < r@.len() && (#[trigger] r@[i]).token_id@ == k,
            forall|i: int, j: int|
                0 <= i < r@.len() && 0 <= j < r@.len() && i != j ==> (#[trigger] r@[i]).token_id@
                    != (#[trigger] r@[j]).token_id@,
    {
        let mut r: Vec<Token> = Vec::new();
        let ghost mut pos: Seq<int> = seq![];
        let mut i: usize = 0;
        while i < self.entries.len()
            invariant
                self.wf(),
                i <= self.entries@.len(),
                pos.len() == r@.len(),
                forall|a: int|
                    0 <= a < r@.len() ==> 0 <= #[trigger] pos[a] < i && self.entries@[pos[a]].token_id@
                        == r@[a].token_id@ && record_of(r@[a]) == record_of(self.entries@[pos[a]])
                        && r@[a].owner_id@ == account_id@,
                forall|a: int, b: int| 0 <= a < b < r@.len() ==> #[trigger] pos[a] < #[trigger] pos[b],
                forall|j: int|
                    0 <= j < i && (#[trigger] self.entries@[j]).owner_id@ == account_id@ ==> exists|
                        a: int,
                    |
                        0 <= a < r@.len() && (#[trigger] r@[a]).token_id@ == self.entries@[j].token_id@,
            decreases self.entries@.len() - i,
        {
            let ghost r0 = r@;
            let e = &self.entries[i];
            if e.owner_id == *account_id {
                let t = Token {
                    token_id: e.token_id.clone(),
                    owner_id: e.owner_id.clone(),
                    metadata: TokenMetadata {
                        media: e.metadata.media.clone(),
                        reference: e.metadata.reference.clone(),
                    },
                };
                proof {
                    pos = pos.push(i as int);
                }
                r.push(t);
                proof {
                    let n = r@.len() - 1;
                    assert(r@[n].token_id@ == self.entries@[i as int].token_id@);
                }
            }
            proof {
                assert forall|j: int|
                    0 <= j < i + 1 && (#[trigger] self.entries@[j]).owner_id@ == account_id@ implies exists|
                    a: int,
                |
                    0 <= a < r@.len() && (#[trigger] r@[a]).token_id@ == self.entries@[j].token_id@ by {
                    if j < i {
                        let a = choose|a: int|
                            0 <= a < r0.len() && (#[trigger] r0[a]).token_id@ == self.entries@[j].token_id@;
                        assert(r@[a] == r0[a]);
                    } else {
                        assert(r@[r@.len() - 1].token_id@ == self.entries@[j].token_id@);
                    }
                }
            }
            i += 1;
        }
        proof {
            assert forall|a: int|
                0 <= a < r@.len() implies self@.contains_key((#[trigger] r@[a]).token_id@)
                && record_of(r@[a]) == self@[r@[a].token_id@] && r@[a].owner_id@ == account_id@ by {
                assert(self.records@.contains_key(self.entries@[pos[a]].token_id@));
            }
            assert forall|k: Seq<char>|
                #[trigger] self@.contains_key(k) && self.owner(k) == account_id@ implies exists|a: int|
                0 <= a < r@.len() && (#[trigger] r@[a]).token_id@ == k by {
                let j = choose|j: int| 0 <= j < self.entries@.len() && (#[trigger] self.entries@[j]).token_id@ == k;
                assert(self.records@[self.entries@[j].token_id@] == record_of(self.entries@[j]));
                assert(self.entries@[j].owner_id@ == account_id@);
            }
            assert forall|a: int, b: int|
                0 <= a < r@.len() && 0 <= b < r@.len() && a != b implies (#[trigger] r@[a]).token_id@
                != (#[trigger] r@[b]).token_id@ by {
                if a < b {
                    assert(pos[a] < pos[b]);
                } else {
                    assert(pos[b] < pos[a]);
                }
            }
        }
        r
    }

    /// Records a newly minted token.
    pub fn insert(&mut self, token: Token)
        requires
            old(self).wf(),
            !old(self)@.contains_key(token.token_id@),
        ensures
            final(self).wf(),
            final(self)@ == old(self)@.insert(token.token_id@, record_of(token)),
    {
        let ghost k = token.token_id@;
        let ghost rec = record_of(token);
        self.entries.push(token);
        self.records = Ghost(self.records@.insert(k, rec));
        proof {
            let n = self.entries@.len() - 1;
            assert(self.entries@[n].token_id@ == k);
            assert forall|k2: Seq<char>| #[trigger] self.records@.contains_key(k2) implies exists|
                i: int|
                0 <= i < self.entries@.len() && (#[trigger] self.entries@[i]).token_id@ == k2 by {
                if k2 != k {
                    let i = choose|i: int|
                        0 <= i < old(self).entries@.len() && (#[trigger] old(
                            self,
                        ).entries@[i]).token_id@ == k2;
                    assert(self.entries@[i] == old(self).entries@[i]);
                }
            }
            assert forall|i: int| 0 <= i < n implies (#[trigger] self.entries@[i]).token_id@
                != k by {
                assert(old(self).records@.contains_key(old(self).entries@[i].token_id@));
            }
        }
    }

    /// Gives the token `token_id`, which must be in the ledger, to `owner_id`.
    pub fn set_owner(&mut self, token_id: &String, owner_id: String)
        requires
            old(self).wf(),
            old(self)@.contains_key(token_id@),
        ensures
            final(self).wf(),
            final(self)@ == old(self)@.insert(
                token_id@,
                TokenRecord { owner: owner_id@, ..old(self)@[token_id@] },
            ),
    {
        let i = self.find(token_id).unwrap();
        let ghost k = token_id@;
        let ghost rec = TokenRecord { owner: owner_id@, ..self.records@[k] };
        let old_entry = &self.entries[i];
        let entry = Token {
            token_id: old_entry.token_id.clone(),
            owner_id,
            metadata: TokenMetadata {
                media: old_entry.metadata.media.clone(),
                reference: old_entry.metadata.reference.clone(),
            },
        };
        self.entries.set(i, entry);
        self.records = Ghost(self.records@.insert(k, rec));
        proof {
            assert(record_of(self.entries@[i as int]) == rec);
            assert forall|k2: Seq<char>| #[trigger] self.records@.contains_key(k2) implies exists|
                j: int|
                0 <= j < self.entries@.len() && (#[trigger] self.entries@[j]).token_id@ == k2 by {
                let j = choose|j: int|
                    0 <= j < old(self).entries@.len() && (#[trigger] old(
                        self,
                    ).entries@[j]).token_id@ == k2;
                if j != i {
                    assert(self.entries@[j] == old(self).entries@[j]);
                } else {
                    assert(self.entries@[j].token_id@ == k2);
                }
            }
            assert forall|j: int| 0 <= j < self.entries@.len() implies self.records@.contains_key(
                (#[trigger] self.entries@[j]).token_id@,
            ) && self.records@[self.entries@[j].token_id@] == record_of(self.entries@[j]) by {
                if j != i {
                    assert(self.entries@[j] == old(self).entries@[j]);
                    assert(old(self).entries@[j].token_id@ != k);
                }
            }
        }
    }
}

} // verus!
