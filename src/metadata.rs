//! Token identifiers as text, and the content addresses derived from them.
use vstd::prelude::*;
use vstd::string::StringExecFns;
use crate::price::{digit_value, digits_value};

verus! {

/// The gateway that content addresses are served from.
pub const GATEWAY: &'static str = "https://ipfs.io/ipfs/";

pub open spec fn digit_char(d: nat) -> char {
    if d == 0 {
        '0'
    } else if d == 1 {
        '1'
    } else if d == 2 {
        '2'
    } else if d == 3 {
        '3'
    } else if d == 4 {
        '4'
    } else if d == 5 {
        '5'
    } else if d == 6 {
        '6'
    } else if d == 7 {
        '7'
    } else if d == 8 {
        '8'
    } else {
        '9'
    }
}

/// The decimal text of `n`, without leading zeros.
pub open spec fn decimal(n: nat) -> Seq<char>
    decreases n,
{
    if n < 10 {
        seq![digit_char(n)]
    } else {
        decimal(n / 10).push(digit_char(n % 10))
    }
}

/// Reading the decimal text of `n` back gives `n`.
pub proof fn lemma_decimal_value(n: nat)
    ensures
        digits_value(decimal(n)) == n,
    decreases n,
{
    lemma_digit_char_value(n % 10);
    let s = decimal(n);
    if n >= 10 {
        lemma_decimal_value(n / 10);
        assert(s.drop_last() =~= decimal(n / 10));
        assert(s.last() == digit_char(n % 10));
        assert((n / 10) * 10 + n % 10 == n);
    } else {
        assert(s.drop_last() =~= Seq::<char>::empty());
        assert(digits_value(Seq::<char>::empty()) == 0);
        assert(s.last() == digit_char(n));
        assert(n % 10 == n);
    }
}

proof fn lemma_digit_char_value(d: nat)
    requires
        d < 10,
    ensures
        digit_value(digit_char(d)) == d,
{
}

/// Distinct numbers have distinct decimal texts.
pub proof fn lemma_decimal_injective(a: nat, b: nat)
    requires
        decimal(a) == decimal(b),
    ensures
        a == b,
{
    lemma_decimal_value(a);
    lemma_decimal_value(b);
}

/// `GATEWAY` followed by the collection's base address.
pub open spec fn base_url_of(base_uri: Seq<char>) -> Seq<char> {
    GATEWAY@ + base_uri
}

/// `<base url>/<id>/media`
pub open spec fn media_uri(base_uri: Seq<char>, id: nat) -> Seq<char> {
    base_url_of(base_uri) + "/"@ + decimal(id) + "/media"@
}

/// `<base url>/<id>/info.json`
pub open spec fn reference_uri(base_uri: Seq<char>, id: nat) -> Seq<char> {
    base_url_of(base_uri) + "/"@ + decimal(id) + "/info.json"@
}

/// What a token carries from its mint on: where its media and its
/// description live. No other descriptive field is set.
#[derive(Debug, Clone, PartialEq, Eq)]
pub struct TokenMetadata {
    pub media: String,
    pub reference: String,
}

fn digit_str(d: u64) -> (r: &'static str)
    requires
        d < 10,
    ensures
        r@ == seq![digit_char(d as nat)],
{
    proof {
        reveal_strlit("0");
        reveal_strlit("1");
        reveal_strlit("2");
        reveal_strlit("3");
        reveal_strlit("4");
        reveal_strlit("5");
        reveal_strlit("6");
        reveal_strlit("7");
        reveal_strlit("8");
        reveal_strlit("9");
    }
    if d == 0 {
        "0"
    } else if d == 1 {
        "1"
    } else if d == 2 {
        "2"
    } else if d == 3 {
        "3"
    } else if d == 4 {
        "4"
    } else if d == 5 {
        "5"
    } else if d == 6 {
        "6"
    } else if d == 7 {
        "7"
    } else if d == 8 {
        "8"
    } else {
        assert(seq!['9'] =~= "9"@);
        "9"
    }
}

/// The decimal text of `n`.
pub fn decimal_string(n: u64) -> (r: String)
    ensures
        r@ == decimal(n as nat),
    decreases n,
{
    if n < 10 {
        String::from_str(digit_str(n))
    } else {
        let mut s = decimal_string(n / 10);
        s.append(digit_str(n % 10));
        s
    }
}

/// The gateway address of a collection stored under `base_uri`.
pub fn base_url(base_uri: &str) -> (r: String)
    ensures
        r@ == base_url_of(base_uri@),
{
    let mut s = String::from_str(GATEWAY);
    s.append(base_uri);
    s
}

/// The metadata of the token `id` of a collection stored under `base_uri`.
pub fn create_metadata(base_uri: &str, id: u64) -> (r: TokenMetadata)
    ensures
        r.media@ == media_uri(base_uri@, id as nat),
        r.reference@ == reference_uri(base_uri@, id as nat),
{
    let url = base_url(base_uri);
    let digits = decimal_string(id);
    let mut media = url.clone();
    media.append("/");
    media.append(digits.as_str());
    media.append("/media");
    let mut reference = url;
    reference.append("/");
    reference.append(digits.as_str());
    reference.append("/info.json");
    TokenMetadata { media, reference }
}

} // verus!
