//! NFT marketplace: sellers list NFTs at a fixed price in a payment token of
//! their choice (optionally with an expiry); buyers purchase them, paying the
//! seller and a royalty recipient, or escrow lower offers that the seller may
//! accept. Listing, buying and delisting can be batched all-or-nothing, and
//! escrowed offers on closed listings can be refunded by anyone.
use vstd::prelude::*;
use std::collections::{HashMap, HashSet};
use crate::common::{Address, Transfer, BPS_DENOMINATOR, trunc_div, pair_key, make_pair_key, net_inflow, total_moved,
    lemma_net_inflow_single, lemma_net_inflow_append, map_sum, lemma_map_sum_insert, lemma_map_sum_remove_key};

verus! {

broadcast use vstd::std_specs::hash::group_hash_axioms;

/// Maximum number of listings a single `get_active_listings` call may return.
pub const MAX_LISTINGS_PAGE_SIZE: u32 = 50;

/// Maximum number of items accepted by a single batch entry point.
pub const MAX_BATCH_SIZE: u32 = 20;

/// Errors returned by [`MarketplaceContract`].
#[derive(Clone, Copy, Debug, PartialEq, Eq, Structural)]
pub enum MarketplaceError {
    AlreadyInitialized,
    NotInitialized,
    InvalidRoyalty,
    InvalidPrice,
    InvalidExpiry,
    PaymentTokenNotAllowed,
    EmptyBatch,
    BatchTooLarge,
    ListingNotFound,
    ListingInactive,
    ListingExpired,
    ListingNotExpired,
    ListingStillActive,
    SellerNotOwner,
    NotAuthorized,
    InvalidOfferAmount,
    OfferNotFound,
    /// A sale is already settling its token and NFT movements.
    Reentrant,
}

/// A fixed-price listing.
#[derive(Clone, Copy, Debug, PartialEq, Eq, Structural)]
pub struct Listing {
    pub nft_contract: Address,
    pub token_id: u32,
    pub seller: Address,
    pub price: i128,
    pub payment_token: Address,
    pub active: bool,
    /// Ledger sequence after which the listing can no longer be bought.
    pub expires_at: Option<u32>,
}

/// What a seller supplies to create one listing.
#[derive(Clone, Copy, Debug, PartialEq, Eq, Structural)]
pub struct ListingParams {
    pub nft_contract: Address,
    pub token_id: u32,
    pub price: i128,
    pub payment_token: Address,
    pub expires_at: Option<u32>,
}

/// A listing together with its id.
#[derive(Clone, Copy, Debug, PartialEq, Eq, Structural)]
pub struct ListingEntry {
    pub id: u64,
    pub listing: Listing,
}

/// One page of active listings and the cursor to resume from (`None` at the end).
pub struct ListingPage {
    pub listings: Vec<ListingEntry>,
    pub next_cursor: Option<u64>,
}

/// A royalty owed on a sale, as reported by the NFT contract.
#[derive(Clone, Copy, Debug, PartialEq, Eq, Structural)]
pub struct RoyaltyInfo {
    pub recipient: Address,
    /// Royalty amount for the given sale price (already computed).
    pub amount: i128,
}

/// What the NFT contract reports about a listed token at sale time.
#[derive(Clone, Copy, Debug, PartialEq, Eq, Structural)]
pub struct SaleFacts {
    /// The listing's seller still owns the NFT.
    pub seller_owns: bool,
    /// Per-token royalty configured on the NFT contract, if any.
    pub royalty: Option<RoyaltyInfo>,
}

/// An NFT movement (`transfer_from` with the marketplace as spender).
#[derive(Clone, Copy, Debug, PartialEq, Eq, Structural)]
pub struct NftTransfer {
    pub nft_contract: Address,
    pub from: Address,
    pub to: Address,
    pub token_id: u32,
}

/// The token and NFT movements that settle a sale.
pub struct Settlement {
    pub transfers: Vec<Transfer>,
    pub nft_transfers: Vec<NftTransfer>,
}

/// Marketplace-wide configuration set at initialization.
#[derive(Clone, Copy, Debug, PartialEq, Eq, Structural)]
pub struct MarketplaceConfig {
    pub admin: Address,
    /// Default payment token.
    pub payment_token: Address,
    /// Royalty in basis points (0–10 000) when the NFT contract reports none.
    pub royalty_bps: u32,
    pub royalty_recipient: Address,
}

/// NFT marketplace contract state.
pub struct MarketplaceContract {
    /// The marketplace's own account (holds escrowed offers).
    pub address: Address,
    pub config: Option<MarketplaceConfig>,
    pub whitelist_enabled: bool,
    /// Payment-token whitelist.
    pub allowed_tokens: HashSet<u64>,
    /// Listings, indexed by their id.
    pub listings: Vec<Listing>,
    /// Escrowed offers, keyed by `pair_key(listing_id, buyer)`.
    pub offers: HashMap<u128, i128>,
    /// Set while a sale's token and NFT movements are being performed.
    pub locked: bool,
}

/// The error a batch of `len` items is refused with, if any.
pub open spec fn batch_len_error(len: int) -> Option<MarketplaceError> {
    if len == 0 {
        Some(MarketplaceError::EmptyBatch)
    } else if len > MAX_BATCH_SIZE {
        Some(MarketplaceError::BatchTooLarge)
    } else {
        None
    }
}

/// The listing that `params` creates for `seller`.
pub open spec fn listing_of(seller: Address, params: ListingParams) -> Listing {
    Listing {
        nft_contract: params.nft_contract,
        token_id: params.token_id,
        seller,
        price: params.price,
        payment_token: params.payment_token,
        active: true,
        expires_at: params.expires_at,
    }
}

impl MarketplaceContract {
    pub open spec fn initialized(&self) -> bool {
        self.config is Some
    }

    pub open spec fn cfg(&self) -> MarketplaceConfig {
        self.config->0
    }

    /// Escrowed offer of `buyer` on listing `id`, if any.
    pub open spec fn offer_of(&self, id: u64, buyer: Address) -> Option<i128> {
        if self.offers@.contains_key(pair_key(id, buyer)) {
            Some(self.offers@[pair_key(id, buyer)])
        } else {
            None
        }
    }

    /// Well-formedness: listings exist only once initialized, and the id counter fits in `u64`.
    pub open spec fn wf(&self) -> bool {
        &&& self.listings.len() < u64::MAX
        &&& self.config is None ==> self.listings.len() == 0
        &&& self.config matches Some(c) ==> c.royalty_bps <= BPS_DENOMINATOR
        &&& forall|i: int| 0 <= i < self.listings.len() ==> #[trigger] self.listings@[i].price > 0
        &&& forall|k: u128| #[trigger] self.offers@.contains_key(k) ==> self.offers@[k] > 0
    }

    /// A fresh, uninitialized marketplace whose own account is `address`.
    pub fn new(address: Address) -> (r: Self)
        ensures
            r.address == address,
            r.config is None,
            !r.whitelist_enabled,
            r.allowed_tokens@ == Set::<u64>::empty(),
            r.listings@.len() == 0,
            r.offers@ == Map::<u128, i128>::empty(),
            !r.locked,
            r.wf(),
    {
        MarketplaceContract {
            address,
            config: None,
            whitelist_enabled: false,
            allowed_tokens: HashSet::new(),
            listings: Vec::new(),
            offers: HashMap::new(),
            locked: false,
        }
    }

    /// Initialize the marketplace. The default payment token is added to the whitelist.
    pub fn initialize(&mut self, admin: Address, payment_token: Address, royalty_bps: u32, royalty_recipient: Address)
        -> (r: Result<(), MarketplaceError>)
        requires
            old(self).wf(),
        ensures
            final(self).wf(),
            old(self).initialized() ==> r == Err::<(), MarketplaceError>(MarketplaceError::AlreadyInitialized),
            !old(self).initialized() && royalty_bps > BPS_DENOMINATOR ==> r == Err::<(), MarketplaceError>(MarketplaceError::InvalidRoyalty),
            r is Err ==> *final(self) == *old(self),
            !old(self).initialized() && royalty_bps <= BPS_DENOMINATOR ==> {
                &&& r is Ok
                &&& final(self).config == Some(MarketplaceConfig { admin, payment_token, royalty_bps, royalty_recipient })
                &&& !final(self).whitelist_enabled
                &&& final(self).allowed_tokens@ == old(self).allowed_tokens@.insert(payment_token)
                &&& final(self).listings@ == old(self).listings@
                &&& final(self).offers@ == old(self).offers@
                &&& final(self).address == old(self).address
                &&& final(self).locked == old(self).locked
            },
    {
        if self.config.is_some() {
            return Err(MarketplaceError::AlreadyInitialized);
        }
        if royalty_bps > BPS_DENOMINATOR {
            return Err(MarketplaceError::InvalidRoyalty);
        }
        self.config = Some(MarketplaceConfig { admin, payment_token, royalty_bps, royalty_recipient });
        self.whitelist_enabled = false;
        self.allowed_tokens.insert(payment_token);
        Ok(())
    }

    /// Add (`allowed = true`) or remove a payment token from the whitelist (admin only).
    /// Removing a token only affects new listings.
    pub fn set_payment_token_allowed(&mut self, token: Address, allowed: bool) -> (r: Result<(), MarketplaceError>)
        requires
            old(self).wf(),
        ensures
            final(self).wf(),
            !old(self).initialized() ==> r == Err::<(), MarketplaceError>(MarketplaceError::NotInitialized) && *final(self) == *old(self),
            old(self).initialized() ==> {
                &&& r is Ok
                &&& final(self).allowed_tokens@ == if allowed {
                    old(self).allowed_tokens@.insert(token)
                } else {
                    old(self).allowed_tokens@.remove(token)
                }
                &&& final(self).config == old(self).config
                &&& final(self).whitelist_enabled == old(self).whitelist_enabled
                &&& final(self).listings@ == old(self).listings@
                &&& final(self).offers@ == old(self).offers@
                &&& final(self).address == old(self).address
                &&& final(self).locked == old(self).locked
            },
    {
        if self.config.is_none() {
            return Err(MarketplaceError::NotInitialized);
        }
        if allowed {
            self.allowed_tokens.insert(token);
        } else {
            self.allowed_tokens.remove(&token);
        }
        Ok(())
    }

    /// Enable or disable enforcement of the payment-token whitelist on new listings (admin only).
    pub fn set_whitelist_enabled(&mut self, enabled: bool) -> (r: Result<(), MarketplaceError>)
        requires
            old(self).wf(),
        ensures
            final(self).wf(),
            !old(self).initialized() ==> r == Err::<(), MarketplaceError>(MarketplaceError::NotInitialized) && *final(self) == *old(self),
            old(self).initialized() ==> r is Ok && *final(self) == (MarketplaceContract { whitelist_enabled: enabled, ..*old(self) }),
    {
        if self.config.is_none() {
            return Err(MarketplaceError::NotInitialized);
        }
        self.whitelist_enabled = enabled;
        Ok(())
    }

    /// Return whether the payment-token whitelist is enforced on new listings.
    pub fn is_whitelist_enabled(&self) -> (r: bool)
        ensures
            r == self.whitelist_enabled,
    {
        self.whitelist_enabled
    }

    /// Return whether `token` is on the payment-token whitelist.
    pub fn is_payment_token_allowed(&self, token: Address) -> (r: bool)
        ensures
            r == self.allowed_tokens@.contains(token),
    {
        self.allowed_tokens.contains(&token)
    }

    /// Return the default payment token configured at initialization.
    pub fn get_default_payment_token(&self) -> (r: Option<Address>)
        ensures
            r == (match self.config {
                Some(c) => Some(c.payment_token),
                None => None,
            }),
    {
        match self.config {
            Some(c) => Some(c.payment_token),
            None => None,
        }
    }

    /// Refuse an empty batch or one larger than [`MAX_BATCH_SIZE`].
    pub fn check_batch_len(len: u32) -> (r: Result<(), MarketplaceError>)
        ensures
            r matches Err(e) ==> batch_len_error(len as int) == Some(e),
            r is Ok <==> batch_len_error(len as int) is None,
    {
        if len == 0 {
            return Err(MarketplaceError::EmptyBatch);
        }
        if len > MAX_BATCH_SIZE {
            return Err(MarketplaceError::BatchTooLarge);
        }
        Ok(())
    }

    /// `check_batch_len` for a collection of `len` items.
    fn check_batch_size(len: usize) -> (r: Result<(), MarketplaceError>)
        ensures
            r matches Err(e) ==> batch_len_error(len as int) == Some(e),
            r is Ok <==> batch_len_error(len as int) is None,
    {
        if len > MAX_BATCH_SIZE as usize {
            return Err(MarketplaceError::BatchTooLarge);
        }
        Self::check_batch_len(len as u32)
    }

    /// The error that creating a listing from `params` at `ledger` is refused with, if any.
    pub open spec fn list_error(&self, params: ListingParams, ledger: u32) -> Option<MarketplaceError> {
        if !self.initialized() {
            Some(MarketplaceError::NotInitialized)
        } else if params.price <= 0 {
            Some(MarketplaceError::InvalidPrice)
        } else if params.expires_at matches Some(e) && e <= ledger {
            Some(MarketplaceError::InvalidExpiry)
        } else if self.whitelist_enabled && !self.allowed_tokens@.contains(params.payment_token) {
            Some(MarketplaceError::PaymentTokenNotAllowed)
        } else {
            None
        }
    }

    fn list_check(&self, params: &ListingParams, ledger: u32) -> (r: Result<(), MarketplaceError>)
        ensures
            r matches Err(e) ==> self.list_error(*params, ledger) == Some(e),
            r is Ok <==> self.list_error(*params, ledger) is None,
    {
        if self.config.is_none() {
            return Err(MarketplaceError::NotInitialized);
        }
        if params.price <= 0 {
            return Err(MarketplaceError::InvalidPrice);
        }
        if let Some(e) = params.expires_at {
            if e <= ledger {
                return Err(MarketplaceError::InvalidExpiry);
            }
        }
        if self.whitelist_enabled && !self.allowed_tokens.contains(&params.payment_token) {
            return Err(MarketplaceError::PaymentTokenNotAllowed);
        }
        Ok(())
    }

    fn list_impl(&mut self, seller: Address, params: ListingParams, ledger: u32) -> (r: Result<u64, MarketplaceError>)
        requires
            old(self).wf(),
            old(self).listings.len() + 1 < u64::MAX,
        ensures
            final(self).wf(),
            r is Err <==> old(self).list_error(params, ledger) is Some,
            r matches Err(e) ==> Some(e) == old(self).list_error(params, ledger) && *final(self) == *old(self),
            r matches Ok(id) ==> {
                &&& id == old(self).listings.len()
                &&& *final(self) == (MarketplaceContract { listings: final(self).listings, ..*old(self) })
                &&& final(self).listings@ == old(self).listings@.push(listing_of(seller, params))
            },
    {
        self.list_check(&params, ledger)?;
        let id = self.listings.len() as u64;
        self.listings.push(Listing {
            nft_contract: params.nft_contract,
            token_id: params.token_id,
            seller,
            price: params.price,
            payment_token: params.payment_token,
            active: true,
            expires_at: params.expires_at,
        });
        Ok(id)
    }

    /// List an NFT for sale at `price`, paid in `payment_token`. Returns the listing id.
    pub fn list(&mut self, seller: Address, nft_contract: Address, token_id: u32, price: i128, payment_token: Address, ledger: u32)
        -> (r: Result<u64, MarketplaceError>)
        requires
            old(self).wf(),
            old(self).listings.len() + 1 < u64::MAX,
        ensures
            final(self).wf(),
            ({
                let params = ListingParams { nft_contract, token_id, price, payment_token, expires_at: None };
                &&& r is Err <==> old(self).list_error(params, ledger) is Some
                &&& r matches Err(e) ==> Some(e) == old(self).list_error(params, ledger) && *final(self) == *old(self)
                &&& r matches Ok(id) ==> {
                    &&& id == old(self).listings.len()
                    &&& *final(self) == (MarketplaceContract { listings: final(self).listings, ..*old(self) })
                    &&& final(self).listings@ == old(self).listings@.push(listing_of(seller, params))
                }
            }),
    {
        self.list_impl(seller, ListingParams { nft_contract, token_id, price, payment_token, expires_at: None }, ledger)
    }

    /// List an NFT for sale with an expiry ledger after which it can no longer be bought.
    pub fn list_with_expiry(
        &mut self,
        seller: Address,
        nft_contract: Address,
        token_id: u32,
        price: i128,
        payment_token: Address,
        expires_at: u32,
        ledger: u32,
    ) -> (r: Result<u64, MarketplaceError>)
        requires
            old(self).wf(),
            old(self).listings.len() + 1 < u64::MAX,
        ensures
            final(self).wf(),
            ({
                let params = ListingParams { nft_contract, token_id, price, payment_token, expires_at: Some(expires_at) };
                &&& r is Err <==> old(self).list_error(params, ledger) is Some
                &&& r matches Err(e) ==> Some(e) == old(self).list_error(params, ledger) && *final(self) == *old(self)
                &&& r matches Ok(id) ==> {
                    &&& id == old(self).listings.len()
                    &&& *final(self) == (MarketplaceContract { listings: final(self).listings, ..*old(self) })
                    &&& final(self).listings@ == old(self).listings@.push(listing_of(seller, params))
                }
            }),
    {
        self.list_impl(
            seller,
            ListingParams { nft_contract, token_id, price, payment_token, expires_at: Some(expires_at) },
            ledger,
        )
    }

    /// The first error among `items`, in order, if any.
    pub open spec fn first_list_error(&self, items: Seq<ListingParams>, ledger: u32) -> Option<MarketplaceError>
        decreases items.len(),
    {
        if items.len() == 0 {
            None
        } else if self.list_error(items[0], ledger) is Some {
            self.list_error(items[0], ledger)
        } else {
            self.first_list_error(items.drop_first(), ledger)
        }
    }

    /// The error `list_batch` is refused with, if any.
    pub open spec fn list_batch_error(&self, items: Seq<ListingParams>, ledger: u32) -> Option<MarketplaceError> {
        if batch_len_error(items.len() as int) is Some {
            batch_len_error(items.len() as int)
        } else {
            self.first_list_error(items, ledger)
        }
    }

    /// Create several listings for `seller`, all-or-nothing. Returns the new ids in input order.
    pub fn list_batch(&mut self, seller: Address, items: Vec<ListingParams>, ledger: u32) -> (r: Result<Vec<u64>, MarketplaceError>)
        requires
            old(self).wf(),
            old(self).listings.len() + MAX_BATCH_SIZE + 1 < u64::MAX,
        ensures
            final(self).wf(),
            r is Err <==> old(self).list_batch_error(items@, ledger) is Some,
            r matches Err(e) ==> Some(e) == old(self).list_batch_error(items@, ledger) && *final(self) == *old(self),
            r matches Ok(ids) ==> {
                &&& *final(self) == (MarketplaceContract { listings: final(self).listings, ..*old(self) })
                &&& final(self).listings@ == old(self).listings@ + items@.map_values(|p: ListingParams| listing_of(seller, p))
                &&& ids@ == Seq::new(items@.len(), |k: int| (old(self).listings.len() + k) as u64)
            },
    {
        Self::check_batch_size(items.len())?;
        let n = items.len();
        let mut k: usize = 0;
        assert(items@.skip(0) =~= items@);
        while k < n
            invariant
                n == items.len(),
                0 <= k <= n,
                *self == *old(self),
                old(self).wf(),
                old(self).listings.len() + MAX_BATCH_SIZE + 1 < u64::MAX,
                batch_len_error(n as int) is None,
                self.first_list_error(items@, ledger) == self.first_list_error(items@.skip(k as int), ledger),
                forall|i: int| 0 <= i < k ==> self.list_error(#[trigger] items@[i], ledger) is None,
            decreases n - k,
        {
            assert(items@.skip(k as int).drop_first() =~= items@.skip(k + 1));
            assert(items@.skip(k as int)[0] == items@[k as int]);
            self.list_check(&items[k], ledger)?;
            k = k + 1;
        }
        assert(items@.skip(n as int).len() == 0);
        let ghost old_self = *self;
        let mut ids: Vec<u64> = Vec::new();
        let mut j: usize = 0;
        while j < n
            invariant
                n == items.len(),
                0 <= j <= n,
                n <= MAX_BATCH_SIZE,
                old_self.wf(),
                old_self.listings.len() + MAX_BATCH_SIZE + 1 < u64::MAX,
                old_self.first_list_error(items@, ledger) is None,
                forall|i: int| 0 <= i < n ==> old_self.list_error(#[trigger] items@[i], ledger) is None,
                *self == (MarketplaceContract { listings: self.listings, ..old_self }),
                self.listings@ == old_self.listings@ + items@.take(j as int).map_values(|p: ListingParams| listing_of(seller, p)),
                ids@ == Seq::new(j as nat, |i: int| (old_self.listings.len() + i) as u64),
            decreases n - j,
        {
            let item = items[j];
            assert(self.list_error(item, ledger) == old_self.list_error(item, ledger));
            let id = self.list_impl(seller, item, ledger);
            match id {
                Ok(id) => ids.push(id),
                Err(_) => {
                    assert(false);
                    return Err(MarketplaceError::NotInitialized);
                },
            }
            assert(items@.take(j + 1) =~= items@.take(j as int).push(item));
            assert(items@.take(j + 1).map_values(|p: ListingParams| listing_of(seller, p))
                =~= items@.take(j as int).map_values(|p: ListingParams| listing_of(seller, p)).push(listing_of(seller, item)));
            j = j + 1;
        }
        assert(items@.take(n as int) =~= items@);
        Ok(ids)
    }

    /// The royalty owed on a sale at `sale_price` and its recipient: the NFT
    /// contract's own royalty when it reports one, else the marketplace rate.
    pub open spec fn royalty_for(&self, facts: SaleFacts, sale_price: i128) -> (i128, Address) {
        match facts.royalty {
            Some(r) => (r.amount, r.recipient),
            None => (trunc_div(sale_price * self.cfg().royalty_bps, 10_000) as i128, self.cfg().royalty_recipient),
        }
    }

    /// Computing the royalty and the seller's share at `sale_price` stays within `i128`.
    pub open spec fn sale_fits(&self, facts: SaleFacts, sale_price: i128) -> bool {
        match facts.royalty {
            Some(r) => i128::MIN <= sale_price - r.amount <= i128::MAX,
            None => i128::MIN <= sale_price * self.cfg().royalty_bps <= i128::MAX,
        }
    }

    /// The payments settling a sale of `l` at `sale_price` paid by `payer`: the
    /// seller gets the price minus the royalty, and a positive royalty goes to its recipient.
    pub open spec fn sale_transfers(&self, payer: Address, l: Listing, sale_price: i128, facts: SaleFacts) -> Seq<Transfer> {
        let (royalty, recipient) = self.royalty_for(facts, sale_price);
        seq![Transfer::spec_new(l.payment_token, payer, l.seller, (sale_price - royalty) as i128)] + (if royalty > 0 {
            seq![Transfer::spec_new(l.payment_token, payer, recipient, royalty)]
        } else {
            Seq::<Transfer>::empty()
        })
    }

    /// The NFT movement settling a sale of `l` to `buyer`.
    pub open spec fn sale_nft(l: Listing, buyer: Address) -> NftTransfer {
        NftTransfer { nft_contract: l.nft_contract, from: l.seller, to: buyer, token_id: l.token_id }
    }

    /// The error buying listing `id` out of `listings` is refused with, if any.
    pub open spec fn buy_error_in(listings: Seq<Listing>, id: u64, facts: SaleFacts, ledger: u32) -> Option<MarketplaceError> {
        if id >= listings.len() {
            Some(MarketplaceError::ListingNotFound)
        } else if !listings[id as int].active {
            Some(MarketplaceError::ListingInactive)
        } else if listings[id as int].expires_at matches Some(e) && ledger > e {
            Some(MarketplaceError::ListingExpired)
        } else if !facts.seller_owns {
            Some(MarketplaceError::SellerNotOwner)
        } else {
            None
        }
    }

    /// Buying `ids` one after another out of `listings`: the listings after the
    /// purchases and the token and NFT movements, or the first error.
    pub open spec fn buy_all(&self, listings: Seq<Listing>, buyer: Address, ids: Seq<u64>, facts: Seq<SaleFacts>, ledger: u32)
        -> Result<(Seq<Listing>, Seq<Transfer>, Seq<NftTransfer>), MarketplaceError>
        decreases ids.len(),
    {
        if ids.len() == 0 {
            Ok((listings, Seq::empty(), Seq::empty()))
        } else {
            match self.buy_all(listings, buyer, ids.drop_last(), facts, ledger) {
                Err(e) => Err(e),
                Ok((ls, ts, ns)) => {
                    let id = ids.last();
                    let f = facts[ids.len() - 1];
                    match Self::buy_error_in(ls, id, f, ledger) {
                        Some(e) => Err(e),
                        None => {
                            let l = ls[id as int];
                            Ok((
                                ls.update(id as int, Listing { active: false, ..l }),
                                ts + self.sale_transfers(buyer, l, l.price, f),
                                ns.push(Self::sale_nft(l, buyer)),
                            ))
                        },
                    }
                },
            }
        }
    }

    /// Every sale in the batch stays within `i128` when computing royalties.
    pub open spec fn batch_fits(&self, ids: Seq<u64>, facts: Seq<SaleFacts>) -> bool {
        forall|i: int| 0 <= i < ids.len() && ids[i] < self.listings.len() ==>
            self.sale_fits(facts[i], #[trigger] self.listings@[ids[i] as int].price)
    }

    /// Computes the royalty and its recipient for a sale at `sale_price`.
    fn resolve_royalty(&self, facts: &SaleFacts, sale_price: i128) -> (r: (i128, Address))
        requires
            self.initialized(),
            self.wf(),
            sale_price >= 0,
            self.sale_fits(*facts, sale_price),
        ensures
            r == self.royalty_for(*facts, sale_price),
    {
        match facts.royalty {
            Some(r) => (r.amount, r.recipient),
            None => {
                let c = self.config.unwrap();
                ((sale_price * (c.royalty_bps as i128)) / 10_000, c.royalty_recipient)
            },
        }
    }

    /// Pushes the payments settling a sale onto `transfers`.
    fn push_sale_transfers(&self, transfers: &mut Vec<Transfer>, payer: Address, l: &Listing, sale_price: i128, facts: &SaleFacts)
        requires
            self.initialized(),
            self.wf(),
            sale_price >= 0,
            self.sale_fits(*facts, sale_price),
        ensures
            final(transfers)@ == old(transfers)@ + self.sale_transfers(payer, *l, sale_price, *facts),
    {
        let (royalty, recipient) = self.resolve_royalty(facts, sale_price);
        let ghost before = transfers@;
        transfers.push(Transfer { token: l.payment_token, from: payer, to: l.seller, amount: sale_price - royalty });
        if royalty > 0 {
            transfers.push(Transfer { token: l.payment_token, from: payer, to: recipient, amount: royalty });
        }
        assert(transfers@ =~= before + self.sale_transfers(payer, *l, sale_price, *facts));
    }

    /// Buys `ids` in order on `listings`, accumulating the movements.
    fn buy_batch_on(
        &self,
        listings: &mut Vec<Listing>,
        buyer: Address,
        ids: &Vec<u64>,
        facts: &Vec<SaleFacts>,
        ledger: u32,
    ) -> (r: Result<(Vec<Transfer>, Vec<NftTransfer>), MarketplaceError>)
        requires
            self.initialized(),
            self.wf(),
            old(listings)@ == self.listings@,
            facts.len() >= ids.len(),
            self.batch_fits(ids@, facts@),
            forall|i: int| 0 <= i < self.listings.len() ==> #[trigger] self.listings@[i].price > 0,
        ensures
            match self.buy_all(self.listings@, buyer, ids@, facts@, ledger) {
                Err(e) => r == Err::<(Vec<Transfer>, Vec<NftTransfer>), MarketplaceError>(e),
                Ok((ls, ts, ns)) => r matches Ok((ts2, ns2)) && ts2@ == ts && ns2@ == ns && final(listings)@ == ls,
            },
            r is Ok ==> final(listings)@.len() == self.listings@.len(),
            r is Ok ==> forall|i: int| 0 <= i < self.listings.len() ==> (#[trigger] final(listings)@[i]).price == self.listings@[i].price,
    {
        let mut transfers: Vec<Transfer> = Vec::new();
        let mut nfts: Vec<NftTransfer> = Vec::new();
        let n = ids.len();
        let mut k: usize = 0;
        assert(ids@.take(0) =~= Seq::<u64>::empty());
        while k < n
            invariant
                n == ids.len(),
                0 <= k <= n,
                facts.len() >= ids.len(),
                self.initialized(),
                self.wf(),
                self.batch_fits(ids@, facts@),
                forall|i: int| 0 <= i < self.listings.len() ==> #[trigger] self.listings@[i].price > 0,
                listings@.len() == self.listings@.len(),
                forall|i: int| 0 <= i < listings@.len() ==> (#[trigger] listings@[i]).price == self.listings@[i].price,
                self.buy_all(self.listings@, buyer, ids@.take(k as int), facts@, ledger) == Ok::<(Seq<Listing>, Seq<Transfer>, Seq<NftTransfer>), MarketplaceError>((listings@, transfers@, nfts@)),
            decreases n - k,
        {
            let id = ids[k];
            let f = facts[k];
            assert(ids@.take(k + 1).drop_last() =~= ids@.take(k as int));
            assert(ids@.take(k + 1).last() == id);
            if id >= listings.len() as u64 {
                assert(self.buy_all(self.listings@, buyer, ids@.take(k + 1), facts@, ledger)
                    == Err::<(Seq<Listing>, Seq<Transfer>, Seq<NftTransfer>), MarketplaceError>(MarketplaceError::ListingNotFound));
                proof { self.lemma_buy_all_err_extends(buyer, ids@, facts@, ledger, k as int + 1, n as int); }
                assert(ids@.take(n as int) =~= ids@);
                return Err(MarketplaceError::ListingNotFound);
            }
            let l = listings[id as usize];
            let err = if !l.active {
                Some(MarketplaceError::ListingInactive)
            } else if l.expires_at.is_some() && ledger > l.expires_at.unwrap() {
                Some(MarketplaceError::ListingExpired)
            } else if !f.seller_owns {
                Some(MarketplaceError::SellerNotOwner)
            } else {
                None
            };
            if let Some(e) = err {
                assert(self.buy_all(self.listings@, buyer, ids@.take(k + 1), facts@, ledger)
                    == Err::<(Seq<Listing>, Seq<Transfer>, Seq<NftTransfer>), MarketplaceError>(e));
                proof { self.lemma_buy_all_err_extends(buyer, ids@, facts@, ledger, k as int + 1, n as int); }
                assert(ids@.take(n as int) =~= ids@);
                return Err(e);
            }
            assert(self.sale_fits(facts@[k as int], self.listings@[ids@[k as int] as int].price));
            self.push_sale_transfers(&mut transfers, buyer, &l, l.price, &f);
            nfts.push(NftTransfer { nft_contract: l.nft_contract, from: l.seller, to: buyer, token_id: l.token_id });
            listings.set(id as usize, Listing { active: false, ..l });
            k = k + 1;
        }
        assert(ids@.take(n as int) =~= ids@);
        Ok((transfers, nfts))
    }

    /// Once a prefix of the batch fails, every longer prefix fails with the same error.
    proof fn lemma_buy_all_err_extends(&self, buyer: Address, ids: Seq<u64>, facts: Seq<SaleFacts>, ledger: u32, k: int, m: int)
        requires
            0 <= k <= m <= ids.len(),
            self.buy_all(self.listings@, buyer, ids.take(k), facts, ledger) is Err,
        ensures
            self.buy_all(self.listings@, buyer, ids.take(m), facts, ledger) == self.buy_all(self.listings@, buyer, ids.take(k), facts, ledger),
        decreases m - k,
    {
        if k < m {
            assert(ids.take(k + 1).drop_last() =~= ids.take(k));
            self.lemma_buy_all_err_extends(buyer, ids, facts, ledger, k + 1, m);
        }
    }

    /// The error buying listing `id` is refused with, if any.
    pub open spec fn buy_error(&self, id: u64, facts: SaleFacts, ledger: u32) -> Option<MarketplaceError> {
        if !self.initialized() {
            Some(MarketplaceError::NotInitialized)
        } else if self.locked {
            Some(MarketplaceError::Reentrant)
        } else {
            Self::buy_error_in(self.listings@, id, facts, ledger)
        }
    }

    /// Buy listing `listing_id`, given what the NFT contract reports about it.
    ///
    /// A ghost listing (the seller no longer owns the NFT) is refused before any
    /// payment. The buyer pays the seller the price minus the royalty and pays
    /// the royalty to its recipient, in the listing's token; the NFT goes to the buyer.
    pub fn buy(&mut self, buyer: Address, listing_id: u64, facts: SaleFacts, ledger: u32) -> (r: Result<Settlement, MarketplaceError>)
        requires
            old(self).wf(),
            listing_id < old(self).listings.len() ==> old(self).sale_fits(facts, old(self).listings@[listing_id as int].price),
        ensures
            final(self).wf(),
            r is Err <==> old(self).buy_error(listing_id, facts, ledger) is Some,
            r matches Err(e) ==> Some(e) == old(self).buy_error(listing_id, facts, ledger) && *final(self) == *old(self),
            r matches Ok(st) ==> {
                let l = old(self).listings@[listing_id as int];
                let (royalty, recipient) = old(self).royalty_for(facts, l.price);
                &&& final(self).listings@ == old(self).listings@.update(listing_id as int, Listing { active: false, ..l })
                &&& *final(self) == (MarketplaceContract { listings: final(self).listings, ..*old(self) })
                &&& st.transfers@ == old(self).sale_transfers(buyer, l, l.price, facts)
                &&& st.nft_transfers@ == seq![Self::sale_nft(l, buyer)]
                &&& royalty >= 0 ==> total_moved(st.transfers@, l.payment_token) == l.price
            },
    {
        if self.config.is_none() {
            return Err(MarketplaceError::NotInitialized);
        }
        if self.locked {
            return Err(MarketplaceError::Reentrant);
        }
        if listing_id >= self.listings.len() as u64 {
            return Err(MarketplaceError::ListingNotFound);
        }
        let l = self.listings[listing_id as usize];
        if !l.active {
            return Err(MarketplaceError::ListingInactive);
        }
        if let Some(e) = l.expires_at {
            if ledger > e {
                return Err(MarketplaceError::ListingExpired);
            }
        }
        if !facts.seller_owns {
            return Err(MarketplaceError::SellerNotOwner);
        }
        let mut transfers: Vec<Transfer> = Vec::new();
        self.push_sale_transfers(&mut transfers, buyer, &l, l.price, &facts);
        let mut nft_transfers: Vec<NftTransfer> = Vec::new();
        nft_transfers.push(NftTransfer { nft_contract: l.nft_contract, from: l.seller, to: buyer, token_id: l.token_id });
        self.listings.set(listing_id as usize, Listing { active: false, ..l });
        proof {
            let (royalty, recipient) = self.royalty_for(facts, l.price);
            reveal_with_fuel(total_moved, 3);
            if royalty > 0 {
                assert(transfers@.drop_last() =~= seq![transfers@[0]]);
                assert(seq![transfers@[0]].drop_last() =~= Seq::<Transfer>::empty());
            } else {
                assert(transfers@.drop_last() =~= Seq::<Transfer>::empty());
            }
        }
        Ok(Settlement { transfers, nft_transfers })
    }

    /// The error `buy_batch` is refused with, or its outcome.
    pub open spec fn buy_batch_outcome(&self, buyer: Address, ids: Seq<u64>, facts: Seq<SaleFacts>, ledger: u32)
        -> Result<(Seq<Listing>, Seq<Transfer>, Seq<NftTransfer>), MarketplaceError>
    {
        if batch_len_error(ids.len() as int) is Some {
            Err(batch_len_error(ids.len() as int)->0)
        } else if !self.initialized() {
            Err(MarketplaceError::NotInitialized)
        } else if self.locked {
            Err(MarketplaceError::Reentrant)
        } else {
            self.buy_all(self.listings@, buyer, ids, facts, ledger)
        }
    }

    /// Buy several listings in one transaction, all-or-nothing: they are bought
    /// in order with the same checks as [`Self::buy`] (so a repeated id fails
    /// as inactive), and if any purchase fails nothing changes. `facts[i]` is
    /// what the NFT contract reports about the listing `listing_ids[i]`.
    pub fn buy_batch(&mut self, buyer: Address, listing_ids: Vec<u64>, facts: Vec<SaleFacts>, ledger: u32)
        -> (r: Result<Settlement, MarketplaceError>)
        requires
            old(self).wf(),
            facts.len() == listing_ids.len(),
            old(self).batch_fits(listing_ids@, facts@),
        ensures
            final(self).wf(),
            match old(self).buy_batch_outcome(buyer, listing_ids@, facts@, ledger) {
                Err(e) => r == Err::<Settlement, MarketplaceError>(e) && *final(self) == *old(self),
                Ok((ls, ts, ns)) => r matches Ok(st) && st.transfers@ == ts && st.nft_transfers@ == ns
                    && final(self).listings@ == ls
                    && *final(self) == (MarketplaceContract { listings: final(self).listings, ..*old(self) }),
            },
    {
        Self::check_batch_size(listing_ids.len())?;
        if self.config.is_none() {
            return Err(MarketplaceError::NotInitialized);
        }
        if self.locked {
            return Err(MarketplaceError::Reentrant);
        }
        let mut scratch = self.listings.clone();
        assert(scratch@ =~= self.listings@);
        let (transfers, nft_transfers) = self.buy_batch_on(&mut scratch, buyer, &listing_ids, &facts, ledger)?;
        self.listings = scratch;
        Ok(Settlement { transfers, nft_transfers })
    }

    /// The error cancelling listing `id` out of `listings` as `seller` is refused with, if any.
    pub open spec fn cancel_error_in(listings: Seq<Listing>, seller: Address, id: u64) -> Option<MarketplaceError> {
        if id >= listings.len() {
            Some(MarketplaceError::ListingNotFound)
        } else if !listings[id as int].active {
            Some(MarketplaceError::ListingInactive)
        } else if listings[id as int].seller != seller {
            Some(MarketplaceError::NotAuthorized)
        } else {
            None
        }
    }

    /// Cancelling `ids` one after another out of `listings`, or the first error.
    pub open spec fn cancel_all(listings: Seq<Listing>, seller: Address, ids: Seq<u64>) -> Result<Seq<Listing>, MarketplaceError>
        decreases ids.len(),
    {
        if ids.len() == 0 {
            Ok(listings)
        } else {
            match Self::cancel_all(listings, seller, ids.drop_last()) {
                Err(e) => Err(e),
                Ok(ls) => match Self::cancel_error_in(ls, seller, ids.last()) {
                    Some(e) => Err(e),
                    None => Ok(ls.update(ids.last() as int, Listing { active: false, ..ls[ids.last() as int] })),
                },
            }
        }
    }

    proof fn lemma_cancel_all_err_extends(listings: Seq<Listing>, seller: Address, ids: Seq<u64>, k: int, m: int)
        requires
            0 <= k <= m <= ids.len(),
            Self::cancel_all(listings, seller, ids.take(k)) is Err,
        ensures
            Self::cancel_all(listings, seller, ids.take(m)) == Self::cancel_all(listings, seller, ids.take(k)),
        decreases m - k,
    {
        if k < m {
            assert(ids.take(k + 1).drop_last() =~= ids.take(k));
            Self::lemma_cancel_all_err_extends(listings, seller, ids, k + 1, m);
        }
    }

    /// Cancels `ids` in order on `listings`.
    fn cancel_batch_on(listings: &mut Vec<Listing>, seller: Address, ids: &Vec<u64>) -> (r: Result<(), MarketplaceError>)
        ensures
            match Self::cancel_all(old(listings)@, seller, ids@) {
                Err(e) => r == Err::<(), MarketplaceError>(e),
                Ok(ls) => r is Ok && final(listings)@ == ls,
            },
            final(listings)@.len() == old(listings)@.len(),
            forall|i: int| 0 <= i < old(listings)@.len() ==> (#[trigger] final(listings)@[i]).price == old(listings)@[i].price,
    {
        let ghost start = listings@;
        let n = ids.len();
        let mut k: usize = 0;
        assert(ids@.take(0) =~= Seq::<u64>::empty());
        while k < n
            invariant
                n == ids.len(),
                0 <= k <= n,
                start == old(listings)@,
                listings@.len() == start.len(),
                forall|i: int| 0 <= i < start.len() ==> (#[trigger] listings@[i]).price == start[i].price,
                Self::cancel_all(start, seller, ids@.take(k as int)) == Ok::<Seq<Listing>, MarketplaceError>(listings@),
            decreases n - k,
        {
            let id = ids[k];
            assert(ids@.take(k + 1).drop_last() =~= ids@.take(k as int));
            assert(ids@.take(k + 1).last() == id);
            let err = if id >= listings.len() as u64 {
                Some(MarketplaceError::ListingNotFound)
            } else if !listings[id as usize].active {
                Some(MarketplaceError::ListingInactive)
            } else if listings[id as usize].seller != seller {
                Some(MarketplaceError::NotAuthorized)
            } else {
                None
            };
            if let Some(e) = err {
                assert(Self::cancel_all(start, seller, ids@.take(k + 1)) == Err::<Seq<Listing>, MarketplaceError>(e));
                proof { Self::lemma_cancel_all_err_extends(start, seller, ids@, k as int + 1, n as int); }
                assert(ids@.take(n as int) =~= ids@);
                return Err(e);
            }
            let l = listings[id as usize];
            listings.set(id as usize, Listing { active: false, ..l });
            k = k + 1;
        }
        assert(ids@.take(n as int) =~= ids@);
        Ok(())
    }

    /// Cancel a listing (seller only). Escrowed offers stay until refunded by `sweep_offers`.
    pub fn cancel(&mut self, seller: Address, listing_id: u64) -> (r: Result<(), MarketplaceError>)
        requires
            old(self).wf(),
        ensures
            final(self).wf(),
            !old(self).initialized() ==> r == Err::<(), MarketplaceError>(MarketplaceError::NotInitialized),
            old(self).initialized() ==> match Self::cancel_error_in(old(self).listings@, seller, listing_id) {
                Some(e) => r == Err::<(), MarketplaceError>(e),
                None => r is Ok,
            },
            r is Err ==> *final(self) == *old(self),
            r is Ok ==> {
                &&& final(self).listings@ == old(self).listings@.update(
                    listing_id as int,
                    Listing { active: false, ..old(self).listings@[listing_id as int] },
                )
                &&& *final(self) == (MarketplaceContract { listings: final(self).listings, ..*old(self) })
            },
    {
        if self.config.is_none() {
            return Err(MarketplaceError::NotInitialized);
        }
        if listing_id >= self.listings.len() as u64 {
            return Err(MarketplaceError::ListingNotFound);
        }
        let l = self.listings[listing_id as usize];
        if !l.active {
            return Err(MarketplaceError::ListingInactive);
        }
        if l.seller != seller {
            return Err(MarketplaceError::NotAuthorized);
        }
        self.listings.set(listing_id as usize, Listing { active: false, ..l });
        Ok(())
    }

    /// The error `cancel_batch` is refused with, or the listings after it.
    pub open spec fn cancel_batch_outcome(&self, seller: Address, ids: Seq<u64>) -> Result<Seq<Listing>, MarketplaceError> {
        if batch_len_error(ids.len() as int) is Some {
            Err(batch_len_error(ids.len() as int)->0)
        } else if !self.initialized() {
            Err(MarketplaceError::NotInitialized)
        } else {
            Self::cancel_all(self.listings@, seller, ids)
        }
    }

    /// Cancel several listings, all-or-nothing: if any cannot be cancelled by `seller`, none are.
    pub fn cancel_batch(&mut self, seller: Address, listing_ids: Vec<u64>) -> (r: Result<(), MarketplaceError>)
        requires
            old(self).wf(),
        ensures
            final(self).wf(),
            match old(self).cancel_batch_outcome(seller, listing_ids@) {
                Err(e) => r == Err::<(), MarketplaceError>(e) && *final(self) == *old(self),
                Ok(ls) => r is Ok && final(self).listings@ == ls
                    && *final(self) == (MarketplaceContract { listings: final(self).listings, ..*old(self) }),
            },
    {
        Self::check_batch_size(listing_ids.len())?;
        if self.config.is_none() {
            return Err(MarketplaceError::NotInitialized);
        }
        let mut scratch = self.listings.clone();
        assert(scratch@ =~= self.listings@);
        Self::cancel_batch_on(&mut scratch, seller, &listing_ids)?;
        self.listings = scratch;
        Ok(())
    }

    /// The error `sweep_expired` is refused with, if any.
    pub open spec fn sweep_expired_error(&self, seller: Address, id: u64, ledger: u32) -> Option<MarketplaceError> {
        if !self.initialized() {
            Some(MarketplaceError::NotInitialized)
        } else if Self::cancel_error_in(self.listings@, seller, id) is Some {
            Self::cancel_error_in(self.listings@, seller, id)
        } else if self.listings@[id as int].expires_at matches Some(e) && ledger > e {
            None
        } else {
            Some(MarketplaceError::ListingNotExpired)
        }
    }

    /// Reclaim a listing whose expiry has passed (seller only), marking it inactive.
    pub fn sweep_expired(&mut self, seller: Address, listing_id: u64, ledger: u32) -> (r: Result<(), MarketplaceError>)
        requires
            old(self).wf(),
        ensures
            final(self).wf(),
            r is Err <==> old(self).sweep_expired_error(seller, listing_id, ledger) is Some,
            r matches Err(e) ==> Some(e) == old(self).sweep_expired_error(seller, listing_id, ledger) && *final(self) == *old(self),
            r is Ok ==> {
                &&& final(self).listings@ == old(self).listings@.update(
                    listing_id as int,
                    Listing { active: false, ..old(self).listings@[listing_id as int] },
                )
                &&& *final(self) == (MarketplaceContract { listings: final(self).listings, ..*old(self) })
            },
    {
        if self.config.is_none() {
            return Err(MarketplaceError::NotInitialized);
        }
        if listing_id >= self.listings.len() as u64 {
            return Err(MarketplaceError::ListingNotFound);
        }
        let l = self.listings[listing_id as usize];
        if !l.active {
            return Err(MarketplaceError::ListingInactive);
        }
        if l.seller != seller {
            return Err(MarketplaceError::NotAuthorized);
        }
        let expires_at = match l.expires_at {
            Some(e) => e,
            None => return Err(MarketplaceError::ListingNotExpired),
        };
        if ledger <= expires_at {
            return Err(MarketplaceError::ListingNotExpired);
        }
        self.listings.set(listing_id as usize, Listing { active: false, ..l });
        Ok(())
    }

    /// The error `invalidate_listing` is refused with, if any.
    pub open spec fn invalidate_error(&self, id: u64) -> Option<MarketplaceError> {
        if !self.initialized() {
            Some(MarketplaceError::NotInitialized)
        } else if id >= self.listings.len() {
            Some(MarketplaceError::ListingNotFound)
        } else if !self.listings@[id as int].active {
            Some(MarketplaceError::ListingInactive)
        } else {
            None
        }
    }

    /// Close a ghost listing (anyone may call). `seller_owns` is whether the
    /// listing's seller still owns the NFT; returns `true` when the listing was
    /// invalidated and `false` (leaving it untouched) when the seller still owns it.
    pub fn invalidate_listing(&mut self, listing_id: u64, seller_owns: bool) -> (r: Result<bool, MarketplaceError>)
        requires
            old(self).wf(),
        ensures
            final(self).wf(),
            r is Err <==> old(self).invalidate_error(listing_id) is Some,
            r matches Err(e) ==> Some(e) == old(self).invalidate_error(listing_id) && *final(self) == *old(self),
            r matches Ok(done) ==> {
                &&& done == !seller_owns
                &&& seller_owns ==> *final(self) == *old(self)
                &&& !seller_owns ==> final(self).listings@ == old(self).listings@.update(
                    listing_id as int,
                    Listing { active: false, ..old(self).listings@[listing_id as int] },
                )
                &&& *final(self) == (MarketplaceContract { listings: final(self).listings, ..*old(self) })
            },
    {
        if self.config.is_none() {
            return Err(MarketplaceError::NotInitialized);
        }
        if listing_id >= self.listings.len() as u64 {
            return Err(MarketplaceError::ListingNotFound);
        }
        let l = self.listings[listing_id as usize];
        if !l.active {
            return Err(MarketplaceError::ListingInactive);
        }
        if seller_owns {
            return Ok(false);
        }
        self.listings.set(listing_id as usize, Listing { active: false, ..l });
        Ok(true)
    }

    /// The error `make_offer` is refused with, if any.
    pub open spec fn make_offer_error(&self, id: u64, amount: i128) -> Option<MarketplaceError> {
        if !self.initialized() {
            Some(MarketplaceError::NotInitialized)
        } else if id >= self.listings.len() {
            Some(MarketplaceError::ListingNotFound)
        } else if !self.listings@[id as int].active {
            Some(MarketplaceError::ListingInactive)
        } else if amount <= 0 || amount >= self.listings@[id as int].price {
            Some(MarketplaceError::InvalidOfferAmount)
        } else {
            None
        }
    }

    /// Escrow an offer of `amount` (below the asking price) on listing
    /// `listing_id`, in the listing's token. A previous offer from the same
    /// buyer on the same listing is refunded and replaced.
    pub fn make_offer(&mut self, buyer: Address, listing_id: u64, amount: i128) -> (r: Result<Vec<Transfer>, MarketplaceError>)
        requires
            old(self).wf(),
        ensures
            final(self).wf(),
            r is Err <==> old(self).make_offer_error(listing_id, amount) is Some,
            r matches Err(e) ==> Some(e) == old(self).make_offer_error(listing_id, amount) && *final(self) == *old(self),
            r matches Ok(ts) ==> {
                let l = old(self).listings@[listing_id as int];
                let deposit = seq![Transfer::spec_new(l.payment_token, buyer, old(self).address, amount)];
                &&& ts@ == match old(self).offer_of(listing_id, buyer) {
                    Some(prior) => seq![Transfer::spec_new(l.payment_token, old(self).address, buyer, prior)] + deposit,
                    None => deposit,
                }
                &&& final(self).offers@ == old(self).offers@.insert(pair_key(listing_id, buyer), amount)
                &&& *final(self) == (MarketplaceContract { offers: final(self).offers, ..*old(self) })
                &&& buyer != old(self).address ==> net_inflow(ts@, l.payment_token, old(self).address)
                    == map_sum(final(self).offers@) - map_sum(old(self).offers@)
            },
    {
        if self.config.is_none() {
            return Err(MarketplaceError::NotInitialized);
        }
        if listing_id >= self.listings.len() as u64 {
            return Err(MarketplaceError::ListingNotFound);
        }
        let l = self.listings[listing_id as usize];
        if !l.active {
            return Err(MarketplaceError::ListingInactive);
        }
        if amount <= 0 || amount >= l.price {
            return Err(MarketplaceError::InvalidOfferAmount);
        }
        let key = make_pair_key(listing_id, buyer);
        let mut transfers: Vec<Transfer> = Vec::new();
        match self.offers.get(&key) {
            Some(prior) => {
                transfers.push(Transfer { token: l.payment_token, from: self.address, to: buyer, amount: *prior });
            },
            None => {},
        }
        let ghost refunds = transfers@;
        transfers.push(Transfer { token: l.payment_token, from: buyer, to: self.address, amount });
        let ghost old_offers = self.offers@;
        self.offers.insert(key, amount);
        proof {
            lemma_map_sum_insert(old_offers, key, amount);
            let deposit = seq![Transfer::spec_new(l.payment_token, buyer, self.address, amount)];
            assert(transfers@ =~= refunds + deposit);
            lemma_net_inflow_append(refunds, deposit, l.payment_token, self.address);
            lemma_net_inflow_single(deposit[0], l.payment_token, self.address);
            if refunds.len() > 0 {
                assert(refunds =~= seq![refunds[0]]);
                lemma_net_inflow_single(refunds[0], l.payment_token, self.address);
            }
        }
        Ok(transfers)
    }

    /// The error `accept_offer` is refused with, if any.
    pub open spec fn accept_offer_error(&self, seller: Address, id: u64, buyer: Address, facts: SaleFacts) -> Option<MarketplaceError> {
        if !self.initialized() {
            Some(MarketplaceError::NotInitialized)
        } else if Self::cancel_error_in(self.listings@, seller, id) is Some {
            Self::cancel_error_in(self.listings@, seller, id)
        } else if self.offer_of(id, buyer) is None {
            Some(MarketplaceError::OfferNotFound)
        } else if !facts.seller_owns {
            Some(MarketplaceError::SellerNotOwner)
        } else if self.locked {
            Some(MarketplaceError::Reentrant)
        } else {
            None
        }
    }

    /// Accept `buyer`'s escrowed offer on listing `listing_id` (seller only).
    /// The escrow pays the seller the offer minus the royalty and pays the
    /// royalty to its recipient; the NFT goes to the buyer.
    pub fn accept_offer(&mut self, seller: Address, listing_id: u64, buyer: Address, facts: SaleFacts)
        -> (r: Result<Settlement, MarketplaceError>)
        requires
            old(self).wf(),
            old(self).offer_of(listing_id, buyer) matches Some(amount) ==> old(self).sale_fits(facts, amount),
        ensures
            final(self).wf(),
            r is Err <==> old(self).accept_offer_error(seller, listing_id, buyer, facts) is Some,
            r matches Err(e) ==> Some(e) == old(self).accept_offer_error(seller, listing_id, buyer, facts) && *final(self) == *old(self),
            r matches Ok(st) ==> {
                let l = old(self).listings@[listing_id as int];
                let amount = old(self).offer_of(listing_id, buyer)->0;
                let (royalty, recipient) = old(self).royalty_for(facts, amount);
                &&& final(self).listings@ == old(self).listings@.update(listing_id as int, Listing { active: false, ..l })
                &&& final(self).offers@ == old(self).offers@.remove(pair_key(listing_id, buyer))
                &&& *final(self) == (MarketplaceContract { listings: final(self).listings, offers: final(self).offers, ..*old(self) })
                &&& st.transfers@ == old(self).sale_transfers(old(self).address, l, amount, facts)
                &&& st.nft_transfers@ == seq![Self::sale_nft(l, buyer)]
                &&& royalty >= 0 && l.seller != old(self).address && recipient != old(self).address
                    ==> net_inflow(st.transfers@, l.payment_token, old(self).address)
                    == map_sum(final(self).offers@) - map_sum(old(self).offers@)
            },
    {
        if self.config.is_none() {
            return Err(MarketplaceError::NotInitialized);
        }
        if listing_id >= self.listings.len() as u64 {
            return Err(MarketplaceError::ListingNotFound);
        }
        let l = self.listings[listing_id as usize];
        if !l.active {
            return Err(MarketplaceError::ListingInactive);
        }
        if l.seller != seller {
            return Err(MarketplaceError::NotAuthorized);
        }
        let key = make_pair_key(listing_id, buyer);
        let amount: i128 = match self.offers.get(&key) {
            Some(a) => *a,
            None => return Err(MarketplaceError::OfferNotFound),
        };
        if !facts.seller_owns {
            return Err(MarketplaceError::SellerNotOwner);
        }
        if self.locked {
            return Err(MarketplaceError::Reentrant);
        }
        let ghost old_offers = self.offers@;
        self.listings.set(listing_id as usize, Listing { active: false, ..l });
        self.offers.remove(&key);
        let mut transfers: Vec<Transfer> = Vec::new();
        self.push_sale_transfers(&mut transfers, self.address, &l, amount, &facts);
        let mut nft_transfers: Vec<NftTransfer> = Vec::new();
        nft_transfers.push(NftTransfer { nft_contract: l.nft_contract, from: l.seller, to: buyer, token_id: l.token_id });
        proof {
            lemma_map_sum_remove_key(old_offers, key);
            let (royalty, recipient) = self.royalty_for(facts, amount);
            let first = seq![transfers@[0]];
            lemma_net_inflow_single(transfers@[0], l.payment_token, self.address);
            if royalty > 0 {
                let second = seq![transfers@[1]];
                assert(transfers@ =~= first + second);
                lemma_net_inflow_append(first, second, l.payment_token, self.address);
                lemma_net_inflow_single(transfers@[1], l.payment_token, self.address);
            } else {
                assert(transfers@ =~= first);
            }
        }
        Ok(Settlement { transfers, nft_transfers })
    }

    /// The error `cancel_offer` is refused with, if any.
    pub open spec fn cancel_offer_error(&self, buyer: Address, id: u64) -> Option<MarketplaceError> {
        if !self.initialized() {
            Some(MarketplaceError::NotInitialized)
        } else if id >= self.listings.len() {
            Some(MarketplaceError::ListingNotFound)
        } else if self.offer_of(id, buyer) is None {
            Some(MarketplaceError::OfferNotFound)
        } else {
            None
        }
    }

    /// Cancel `buyer`'s unaccepted offer, refunding the escrow in the listing's token.
    pub fn cancel_offer(&mut self, buyer: Address, listing_id: u64) -> (r: Result<Vec<Transfer>, MarketplaceError>)
        requires
            old(self).wf(),
        ensures
            final(self).wf(),
            r is Err <==> old(self).cancel_offer_error(buyer, listing_id) is Some,
            r matches Err(e) ==> Some(e) == old(self).cancel_offer_error(buyer, listing_id) && *final(self) == *old(self),
            r matches Ok(ts) ==> {
                let l = old(self).listings@[listing_id as int];
                &&& ts@ == seq![Transfer::spec_new(l.payment_token, old(self).address, buyer, old(self).offer_of(listing_id, buyer)->0)]
                &&& final(self).offers@ == old(self).offers@.remove(pair_key(listing_id, buyer))
                &&& *final(self) == (MarketplaceContract { offers: final(self).offers, ..*old(self) })
                &&& buyer != old(self).address ==> net_inflow(ts@, l.payment_token, old(self).address)
                    == map_sum(final(self).offers@) - map_sum(old(self).offers@)
            },
    {
        if self.config.is_none() {
            return Err(MarketplaceError::NotInitialized);
        }
        if listing_id >= self.listings.len() as u64 {
            return Err(MarketplaceError::ListingNotFound);
        }
        let l = self.listings[listing_id as usize];
        let key = make_pair_key(listing_id, buyer);
        let amount: i128 = match self.offers.get(&key) {
            Some(a) => *a,
            None => return Err(MarketplaceError::OfferNotFound),
        };
        let ghost old_offers = self.offers@;
        self.offers.remove(&key);
        let mut transfers: Vec<Transfer> = Vec::new();
        transfers.push(Transfer { token: l.payment_token, from: self.address, to: buyer, amount });
        proof {
            lemma_map_sum_remove_key(old_offers, key);
            lemma_net_inflow_single(transfers@[0], l.payment_token, self.address);
        }
        Ok(transfers)
    }

    /// Refunding the offers of `buyers` on listing `id` in order: the offers
    /// left, the refunds made, and how many offers were refunded. A buyer
    /// without an offer (or already refunded earlier in the list) is skipped.
    pub open spec fn sweep_all(offers: Map<u128, i128>, address: Address, token: Address, id: u64, buyers: Seq<Address>)
        -> (Map<u128, i128>, Seq<Transfer>, nat)
        decreases buyers.len(),
    {
        if buyers.len() == 0 {
            (offers, Seq::empty(), 0)
        } else {
            let (m, ts, count) = Self::sweep_all(offers, address, token, id, buyers.drop_last());
            let b = buyers.last();
            let key = pair_key(id, b);
            if m.contains_key(key) {
                (m.remove(key), ts.push(Transfer::spec_new(token, address, b, m[key])), count + 1)
            } else {
                (m, ts, count)
            }
        }
    }

    /// The error `sweep_offers` is refused with, if any.
    pub open spec fn sweep_offers_error(&self, id: u64, buyers_len: int) -> Option<MarketplaceError> {
        if !self.initialized() {
            Some(MarketplaceError::NotInitialized)
        } else if batch_len_error(buyers_len) is Some {
            batch_len_error(buyers_len)
        } else if id >= self.listings.len() {
            Some(MarketplaceError::ListingNotFound)
        } else if self.listings@[id as int].active {
            Some(MarketplaceError::ListingStillActive)
        } else if self.locked {
            Some(MarketplaceError::Reentrant)
        } else {
            None
        }
    }

    /// Refund the escrowed offers of `buyers` on a closed listing (anyone may
    /// call). Returns how many offers were refunded; each offer is refunded at
    /// most once, to the buyer who made it.
    pub fn sweep_offers(&mut self, listing_id: u64, buyers: Vec<Address>) -> (r: Result<(u32, Vec<Transfer>), MarketplaceError>)
        requires
            old(self).wf(),
        ensures
            final(self).wf(),
            r is Err <==> old(self).sweep_offers_error(listing_id, buyers.len() as int) is Some,
            r matches Err(e) ==> Some(e) == old(self).sweep_offers_error(listing_id, buyers.len() as int) && *final(self) == *old(self),
            r matches Ok((count, ts)) ==> {
                let token = old(self).listings@[listing_id as int].payment_token;
                let (m, refunds, n) = Self::sweep_all(old(self).offers@, old(self).address, token, listing_id, buyers@);
                &&& final(self).offers@ == m
                &&& ts@ == refunds
                &&& count == n
                &&& *final(self) == (MarketplaceContract { offers: final(self).offers, ..*old(self) })
                &&& !buyers@.contains(old(self).address) ==> net_inflow(ts@, token, old(self).address)
                    == map_sum(final(self).offers@) - map_sum(old(self).offers@)
            },
    {
        if self.config.is_none() {
            return Err(MarketplaceError::NotInitialized);
        }
        Self::check_batch_size(buyers.len())?;
        if listing_id >= self.listings.len() as u64 {
            return Err(MarketplaceError::ListingNotFound);
        }
        let l = self.listings[listing_id as usize];
        if l.active {
            return Err(MarketplaceError::ListingStillActive);
        }
        if self.locked {
            return Err(MarketplaceError::Reentrant);
        }
        let ghost start = *self;
        let token = l.payment_token;
        let mut transfers: Vec<Transfer> = Vec::new();
        let mut refunded: u32 = 0;
        let n = buyers.len();
        let mut k: usize = 0;
        assert(buyers@.take(0) =~= Seq::<Address>::empty());
        while k < n
            invariant
                n == buyers.len(),
                n <= MAX_BATCH_SIZE,
                0 <= k <= n,
                start.wf(),
                *self == (MarketplaceContract { offers: self.offers, ..start }),
                forall|q: u128| #[trigger] self.offers@.contains_key(q) ==> self.offers@[q] > 0,
                self.offers@.dom().subset_of(start.offers@.dom()),
                (self.offers@, transfers@, refunded as nat) == Self::sweep_all(start.offers@, start.address, token, listing_id, buyers@.take(k as int)),
                refunded <= k,
                !buyers@.contains(start.address) ==> net_inflow(transfers@, token, start.address)
                    == map_sum(self.offers@) - map_sum(start.offers@),
            decreases n - k,
        {
            let b = buyers[k];
            assert(buyers@.take(k + 1).drop_last() =~= buyers@.take(k as int));
            assert(buyers@.take(k + 1).last() == b);
            let key = make_pair_key(listing_id, b);
            let found: Option<i128> = match self.offers.get(&key) {
                Some(a) => Some(*a),
                None => None,
            };
            if let Some(amount) = found {
                let ghost before_offers = self.offers@;
                let ghost before_ts = transfers@;
                self.offers.remove(&key);
                transfers.push(Transfer { token, from: self.address, to: b, amount });
                refunded = refunded + 1;
                proof {
                    lemma_map_sum_remove_key(before_offers, key);
                    lemma_net_inflow_append(before_ts, seq![transfers@.last()], token, start.address);
                    lemma_net_inflow_single(transfers@.last(), token, start.address);
                    assert(transfers@ =~= before_ts + seq![transfers@.last()]);
                    if !buyers@.contains(start.address) {
                        assert(buyers@[k as int] == b);
                    }
                }
            }
            k = k + 1;
        }
        assert(buyers@.take(n as int) =~= buyers@);
        Ok((refunded, transfers))
    }

    /// Take the guard held while a sale's movements are performed; refused
    /// with `Reentrant` while it is already held.
    pub fn acquire_lock(&mut self) -> (r: Result<(), MarketplaceError>)
        requires
            old(self).wf(),
        ensures
            final(self).wf(),
            old(self).locked ==> r == Err::<(), MarketplaceError>(MarketplaceError::Reentrant) && *final(self) == *old(self),
            !old(self).locked ==> r is Ok && *final(self) == (MarketplaceContract { locked: true, ..*old(self) }),
    {
        if self.locked {
            return Err(MarketplaceError::Reentrant);
        }
        self.locked = true;
        Ok(())
    }

    /// Release the guard once a sale's movements are done.
    pub fn release_lock(&mut self)
        requires
            old(self).wf(),
        ensures
            final(self).wf(),
            *final(self) == (MarketplaceContract { locked: false, ..*old(self) }),
    {
        self.locked = false;
    }

    /// Return listing `listing_id`, or `None` if it does not exist.
    pub fn get_listing(&self, listing_id: u64) -> (r: Option<Listing>)
        ensures
            r == (if listing_id < self.listings.len() { Some(self.listings@[listing_id as int]) } else { None::<Listing> }),
    {
        if listing_id < self.listings.len() as u64 {
            Some(self.listings[listing_id as usize])
        } else {
            None
        }
    }

    /// Return the escrowed offer of `buyer` on `listing_id`, or `None`.
    pub fn get_offer(&self, listing_id: u64, buyer: Address) -> (r: Option<i128>)
        ensures
            r == self.offer_of(listing_id, buyer),
    {
        match self.offers.get(&make_pair_key(listing_id, buyer)) {
            Some(a) => Some(*a),
            None => None,
        }
    }

    /// The page of active, still-owned listings found by scanning from `id`
    /// with room for `room` more entries, and the id to resume from.
    pub open spec fn scan(listings: Seq<Listing>, owned: Seq<bool>, id: int, room: int) -> (Seq<ListingEntry>, Option<u64>)
        decreases listings.len() - id,
    {
        if id < 0 || id >= listings.len() {
            (Seq::empty(), None)
        } else if room <= 0 {
            (Seq::empty(), Some(id as u64))
        } else {
            let shown = listings[id].active && owned[id];
            let (rest, next) = Self::scan(listings, owned, id + 1, if shown { room - 1 } else { room });
            (
                if shown { seq![ListingEntry { id: id as u64, listing: listings[id] }] + rest } else { rest },
                next,
            )
        }
    }

    /// What a page found by `scan` from `id` with room for `room` entries
    /// holds: at most `room` entries, each an active, still-owned listing
    /// with its own id, ids increasing from `id`; `next` is set only when the
    /// page filled up before the end, to an id past every entry; and every
    /// shown listing from `id` up to `next` (or to the end) is in the page.
    pub open spec fn page_facts(listings: Seq<Listing>, owned: Seq<bool>, id: int, room: int,
        page: Seq<ListingEntry>, next: Option<u64>) -> bool
    {
        let end = match next { Some(c) => c as int, None => listings.len() as int };
        &&& page.len() <= room
        &&& forall|k: int| 0 <= k < page.len() ==> {
            &&& id <= #[trigger] page[k].id < listings.len()
            &&& page[k].listing == listings[page[k].id as int]
            &&& listings[page[k].id as int].active
            &&& owned[page[k].id as int]
        }
        &&& forall|a: int, b: int| 0 <= a < b < page.len() ==> page[a].id < page[b].id
        &&& next matches Some(c) ==> {
            &&& id <= c < listings.len()
            &&& page.len() == room
            &&& forall|k: int| 0 <= k < page.len() ==> #[trigger] page[k].id < c
        }
        &&& forall|j: int| id <= j < end && listings[j].active && owned[j]
            ==> exists|k: int| 0 <= k < page.len() && #[trigger] page[k].id == j
    }

    /// `scan` finds exactly what `page_facts` describes.
    pub proof fn lemma_scan(listings: Seq<Listing>, owned: Seq<bool>, id: int, room: int)
        requires
            0 <= id,
            0 <= room,
            owned.len() == listings.len(),
            listings.len() < u64::MAX,
        ensures
            ({
                let (page, next) = Self::scan(listings, owned, id, room);
                Self::page_facts(listings, owned, id, room, page, next)
            }),
        decreases listings.len() - id,
    {
        if id >= listings.len() || room <= 0 {
        } else {
            let shown = listings[id].active && owned[id];
            let room2 = if shown { room - 1 } else { room };
            Self::lemma_scan(listings, owned, id + 1, room2);
            let (rest, next) = Self::scan(listings, owned, id + 1, room2);
            let (page, next2) = Self::scan(listings, owned, id, room);
            if shown {
                let e = ListingEntry { id: id as u64, listing: listings[id] };
                assert(page == seq![e] + rest);
                assert forall|k: int| 0 <= k < page.len() implies {
                    &&& id <= #[trigger] page[k].id < listings.len()
                    &&& page[k].listing == listings[page[k].id as int]
                    &&& listings[page[k].id as int].active
                    &&& owned[page[k].id as int]
                } by {
                    if k > 0 {
                        assert(page[k] == rest[k - 1]);
                    }
                }
                assert forall|a: int, b: int| 0 <= a < b < page.len() implies page[a].id < page[b].id by {
                    assert(page[b] == rest[b - 1]);
                    if a > 0 {
                        assert(page[a] == rest[a - 1]);
                    }
                }
                if next is Some {
                    let c = next->0;
                    assert forall|k: int| 0 <= k < page.len() implies #[trigger] page[k].id < c by {
                        if k > 0 {
                            assert(page[k] == rest[k - 1]);
                        }
                    }
                }
                let end = match next { Some(c) => c as int, None => listings.len() as int };
                assert forall|j: int| id <= j < end && listings[j].active && owned[j]
                    implies exists|k: int| 0 <= k < page.len() && #[trigger] page[k].id == j by {
                    if j == id {
                        assert(page[0].id == j);
                    } else {
                        let k = choose|k: int| 0 <= k < rest.len() && #[trigger] rest[k].id == j;
                        assert(page[k + 1] == rest[k]);
                    }
                }
            } else {
                let end = match next { Some(c) => c as int, None => listings.len() as int };
                assert forall|j: int| id <= j < end && listings[j].active && owned[j]
                    implies exists|k: int| 0 <= k < page.len() && #[trigger] page[k].id == j by {
                    let k = choose|k: int| 0 <= k < rest.len() && #[trigger] rest[k].id == j;
                    assert(page[k].id == j);
                }
            }
        }
    }

    /// `limit` clamped to `[1, MAX_LISTINGS_PAGE_SIZE]`.
    pub open spec fn page_limit(limit: u32) -> int {
        if limit < 1 { 1 } else if limit > MAX_LISTINGS_PAGE_SIZE { MAX_LISTINGS_PAGE_SIZE as int } else { limit as int }
    }

    /// Enumerate active listings from `cursor`, at most `limit` of them (a
    /// `limit` of 0 counts as 1, and at most [`MAX_LISTINGS_PAGE_SIZE`]).
    /// Ghost listings are filtered out: `seller_owns[id]` is whether the seller
    /// of listing `id` still owns its NFT. `next_cursor` is `None` once the end
    /// of the listings has been reached.
    pub fn get_active_listings(&self, cursor: u64, limit: u32, seller_owns: &Vec<bool>) -> (r: ListingPage)
        requires
            self.wf(),
            seller_owns.len() == self.listings.len(),
        ensures
            (r.listings@, r.next_cursor) == Self::scan(self.listings@, seller_owns@, cursor as int, Self::page_limit(limit)),
            Self::page_facts(self.listings@, seller_owns@, cursor as int, Self::page_limit(limit), r.listings@, r.next_cursor),
    {
        proof {
            Self::lemma_scan(self.listings@, seller_owns@, cursor as int, Self::page_limit(limit));
        }
        let capped: u32 = if limit < 1 {
            1
        } else if limit > MAX_LISTINGS_PAGE_SIZE {
            MAX_LISTINGS_PAGE_SIZE
        } else {
            limit
        };
        let next_id = self.listings.len() as u64;
        let mut listings: Vec<ListingEntry> = Vec::new();
        let mut id = cursor;
        let mut next_cursor: Option<u64> = None;
        let ghost target = Self::scan(self.listings@, seller_owns@, cursor as int, capped as int);
        while id < next_id
            invariant_except_break
                next_id == self.listings.len(),
                seller_owns.len() == self.listings.len(),
                self.wf(),
                listings.len() <= capped,
                next_cursor is None,
                listings@ + Self::scan(self.listings@, seller_owns@, id as int, capped - listings.len()).0 == target.0,
                Self::scan(self.listings@, seller_owns@, id as int, capped - listings.len()).1 == target.1,
            ensures
                (listings@, next_cursor) == target,
            decreases next_id - id,
        {
            if listings.len() >= capped as usize {
                next_cursor = Some(id);
                assert(listings@ + Seq::<ListingEntry>::empty() =~= listings@);
                break;
            }
            let l = self.listings[id as usize];
            let shown = l.active && seller_owns[id as usize];
            let ghost room = capped - listings.len();
            let ghost rest = Self::scan(self.listings@, seller_owns@, id + 1, if shown { room - 1 } else { room });
            if shown {
                let ghost before = listings@;
                listings.push(ListingEntry { id, listing: l });
                assert(before + (seq![ListingEntry { id, listing: l }] + rest.0) =~= listings@ + rest.0);
            }
            id = id + 1;
        }
        if id >= next_id && next_cursor.is_none() {
            assert(listings@ + Seq::<ListingEntry>::empty() =~= listings@);
        }
        ListingPage { listings, next_cursor }
    }
}

/// Law: the royalty the NFT contract reports is the one paid, amount and
/// recipient as reported, whatever the amount (0 included): the seller gets
/// the price minus that amount and the recipient gets the amount when it is
/// positive, nothing else. Without a reported royalty the marketplace rate
/// applies: the largest amount whose `BPS_DENOMINATOR` multiple is at most
/// `price * royalty_bps` goes to the marketplace's royalty recipient.
pub proof fn lemma_sale_pays_reported_royalty(m: MarketplaceContract, payer: Address, l: Listing, price: i128, facts: SaleFacts)
    requires
        price >= 0,
        m.cfg().royalty_bps <= BPS_DENOMINATOR,
    ensures
        facts.royalty matches Some(r) ==> {
            let ts = m.sale_transfers(payer, l, price, facts);
            &&& ts[0] == Transfer::spec_new(l.payment_token, payer, l.seller, (price - r.amount) as i128)
            &&& r.amount > 0 ==> ts.len() == 2 && ts[1] == Transfer::spec_new(l.payment_token, payer, r.recipient, r.amount)
            &&& r.amount <= 0 ==> ts.len() == 1
        },
        facts.royalty is None ==> {
            let (royalty, recipient) = m.royalty_for(facts, price);
            &&& recipient == m.cfg().royalty_recipient
            &&& BPS_DENOMINATOR * royalty <= price * m.cfg().royalty_bps
            &&& price * m.cfg().royalty_bps < BPS_DENOMINATOR * (royalty + 1)
        },
{
    if facts.royalty is None {
        let bps = m.cfg().royalty_bps;
        let x = price * bps;
        let q = x / 10_000;
        assert(0 <= x <= price * 10_000) by (nonlinear_arith)
            requires
                x == price * bps,
                price >= 0,
                0 <= bps <= 10_000;
        assert(10_000 * q <= x < 10_000 * (q + 1) && 0 <= q <= price) by (nonlinear_arith)
            requires
                q == x / 10_000,
                0 <= x <= price * 10_000,
                price >= 0;
        assert(trunc_div(x, 10_000) == q);
    }
}
} // verus!
