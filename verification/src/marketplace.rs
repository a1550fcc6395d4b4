//! Marketplace activity records kept for the explorer.
use vstd::prelude::*;
use crate::account::Pubkey;

verus! {

/// What happened on the marketplace.
#[derive(Debug, Clone, Copy, PartialEq, Eq, Structural)]
pub enum MarketActivityKind {
    Listing,
    Sale,
    Cancel,
    Offer,
    OfferAccepted,
    OfferCancelled,
    PriceUpdate,
    AuctionCreated,
    AuctionBid,
    AuctionSettled,
    AuctionCancelled,
    CollectionOffer,
    CollectionOfferAccepted,
    Transfer,
}

/// One marketplace event, with the parties and price where they apply.
#[derive(Debug, Clone)]
pub struct MarketActivity {
    pub slot: u64,
    pub timestamp: u64,
    pub kind: MarketActivityKind,
    pub program: Pubkey,
    pub collection: Option<Pubkey>,
    pub token: Option<Pubkey>,
    pub token_id: Option<u64>,
    pub price: Option<u64>,
    pub seller: Option<Pubkey>,
    pub buyer: Option<Pubkey>,
    pub function: String,
    pub tx_signature: crate::hash::Hash,
}

} // verus!
