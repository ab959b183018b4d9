//! The exchange account, and the reading of its market listing.
use crate::json::{items, json_document, json_items, json_member, json_text, member, parse, str_of};
use vstd::prelude::*;
use vstd::string::StringExecFns;

verus! {

/// The credentials of the exchange account.
pub struct DeltaClient {
    pub api_key: String,
    pub api_secret: String,
}

/// Why a listing could not be read.
#[derive(Clone, Copy, Debug, PartialEq, Eq, Structural)]
pub enum ListingError {
    /// The body is no JSON document.
    Malformed,
}

/// The symbol that a product of the listing contributes: that of a product
/// whose `contract_type` is the string `perpetual` and whose `symbol` is a
/// string.
pub open spec fn listed_symbol(product: serde_json::Value) -> Option<Seq<char>> {
    match json_member(product, "contract_type"@) {
        Some(kind) => if json_text(kind) == Some("perpetual"@) {
            match json_member(product, "symbol"@) {
                Some(symbol) => json_text(symbol),
                None => None,
            }
        } else {
            None
        },
        None => None,
    }
}

/// The symbols that the products contribute, in the order of the products.
pub open spec fn listed_symbols(products: Seq<serde_json::Value>) -> Seq<Seq<char>>
    decreases products.len(),
{
    if products.len() == 0 {
        Seq::empty()
    } else {
        let before = listed_symbols(products.drop_last());
        match listed_symbol(products.last()) {
            Some(symbol) => before.push(symbol),
            None => before,
        }
    }
}

/// The perpetual markets of a listing: the symbols of the products in the
/// array `result`; none where the document has no such array.
pub open spec fn markets_in(listing: serde_json::Value) -> Seq<Seq<char>> {
    match json_member(listing, "result"@) {
        Some(result) => match json_items(result) {
            Some(products) => listed_symbols(products),
            None => Seq::empty(),
        },
        None => Seq::empty(),
    }
}

/// Whether two texts are the same.
pub fn same_text(a: &str, b: &str) -> (r: bool)
    ensures
        r == (a@ == b@),
{
    String::from_str(a) == String::from_str(b)
}

/// The symbol that one product contributes.
pub fn product_symbol(product: &serde_json::Value) -> (r: Option<String>)
    ensures
        match r {
            Some(symbol) => listed_symbol(*product) == Some(symbol@),
            None => listed_symbol(*product) is None,
        },
{
    let kind = match member(product, "contract_type") {
        Some(kind) => kind,
        None => {
            return None;
        },
    };
    let perpetual = match str_of(kind) {
        Some(name) => same_text(name, "perpetual"),
        None => false,
    };
    if !perpetual {
        return None;
    }
    match member(product, "symbol") {
        Some(symbol) => match str_of(symbol) {
            Some(name) => Some(String::from_str(name)),
            None => None,
        },
        None => None,
    }
}

/// The perpetual markets of a parsed listing.
pub fn listed_markets(listing: &serde_json::Value) -> (markets: Vec<String>)
    ensures
        markets.deep_view() == markets_in(*listing),
{
    let mut markets: Vec<String> = Vec::new();
    let products = match member(listing, "result") {
        Some(result) => match items(result) {
            Some(products) => products,
            None => {
                assert(markets.deep_view() =~= Seq::<Seq<char>>::empty());
                return markets;
            },
        },
        None => {
            assert(markets.deep_view() =~= Seq::<Seq<char>>::empty());
            return markets;
        },
    };
    let mut i: usize = 0;
    assert(markets.deep_view() =~= listed_symbols(products@.take(0)));
    while i < products.len()
        invariant
            i <= products.len(),
            markets.deep_view() == listed_symbols(products@.take(i as int)),
        decreases products.len() - i,
    {
        proof {
            assert(products@.take(i + 1).drop_last() == products@.take(i as int));
        }
        let ghost before = markets.deep_view();
        match product_symbol(&products[i]) {
            Some(symbol) => {
                let ghost name = symbol@;
                markets.push(symbol);
                assert(markets.deep_view() =~= before.push(name));
            },
            None => {},
        }
        i = i + 1;
    }
    proof {
        assert(products@.take(i as int) == products@);
    }
    markets
}

/// Reads the perpetual markets out of the body of a listing response. Fails
/// exactly when the body is no JSON document.
pub fn perpetual_markets(body: &str) -> (r: Result<Vec<String>, ListingError>)
    ensures
        match json_document(body@) {
            Some(listing) => r is Ok && r->Ok_0.deep_view() == markets_in(listing),
            None => r == Err::<Vec<String>, ListingError>(ListingError::Malformed),
        },
{
    match parse(body) {
        Ok(listing) => Ok(listed_markets(&listing)),
        Err(_) => Err(ListingError::Malformed),
    }
}

impl DeltaClient {
    /// A client with the given key and secret.
    pub fn new(api_key: String, api_secret: String) -> (client: Self)
        ensures
            client.api_key == api_key,
            client.api_secret == api_secret,
    {
        Self { api_key, api_secret }
    }
}

} // verus!
