use vstd::prelude::*;

verus! {

/// The identities that a trade offer, and each reply to it, carries: the
/// request, the player who offers and the player offered to.
#[derive(Debug, Clone, Copy, PartialEq, Eq, Structural)]
pub struct TradeOfferIds {
    pub id_request: i32,
    pub id_from: i32,
    pub id_to: i32,
}

/// A player turns down a trade offer: the refusal carries the offer's
/// identities and goes to the player who made the offer. Returns the refusal
/// and the player it goes to.
pub fn trade_offer_refusal(req: TradeOfferIds) -> (r: (TradeOfferIds, i32))
    ensures
        r.0 == req,
        r.1 == req.id_from,
{
    let resp = TradeOfferIds { id_request: req.id_request, id_from: req.id_from, id_to: req.id_to };
    (resp, resp.id_from)
}

/// A player withdraws a trade offer: the cancellation carries the offer's
/// identities and goes to the player named as its sender. Returns the
/// cancellation and the player it goes to.
pub fn trade_offer_cancel(req: TradeOfferIds) -> (r: (TradeOfferIds, i32))
    ensures
        r.0 == req,
        r.1 == req.id_from,
{
    let resp = TradeOfferIds { id_request: req.id_request, id_from: req.id_from, id_to: req.id_to };
    (resp, resp.id_from)
}

} // verus!
