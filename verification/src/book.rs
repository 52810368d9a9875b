//! Live limit-order-book snapshot for a single instrument.
//!
//! Each side is a sequence of [`PriceLevel`]s with unique prices, bids sorted
//! by descending price and asks by ascending price. A quantity-zero update
//! removes the level; any other valid update upserts it.
//!
//! The book itself is a plain sequential structure; a process that feeds it
//! from several producers shares it behind a lock of its own.

use vstd::prelude::*;
use crate::num::scale;
use crate::types::{PriceLevel, Side, valid_price, valid_qty, MAX_QTY};

verus! {

/// Rejected depth updates: the one failure mode of [`OrderBook::update_level`].
#[derive(Clone, Copy, Debug, PartialEq, Eq, Structural)]
pub enum BookError {
    /// The price is negative or beyond the representable range.
    InvalidPrice,
    /// The quantity is negative or beyond the representable range.
    InvalidQuantity,
}

/// Prices strictly descending: the bid-side order.
pub open spec fn sorted_desc(s: Seq<PriceLevel>) -> bool {
    forall|i: int, j: int| 0 <= i < j < s.len() ==> s[i].price > s[j].price
}

/// Prices strictly ascending: the ask-side order.
pub open spec fn sorted_asc(s: Seq<PriceLevel>) -> bool {
    forall|i: int, j: int| 0 <= i < j < s.len() ==> s[i].price < s[j].price
}

/// Every stored level is well formed (valid price, positive quantity).
pub open spec fn levels_wf(s: Seq<PriceLevel>) -> bool {
    forall|i: int| 0 <= i < s.len() ==> #[trigger] s[i].wf()
}

/// The result of one depth update on a descending (bid) side: remove the
/// level at `price` when `qty` is zero, else insert or replace it, keeping
/// the order. This is the exact specification of `update_level` for bids.
pub open spec fn upsert_desc(s: Seq<PriceLevel>, price: i64, qty: i64) -> Seq<PriceLevel>
    decreases s.len(),
{
    if s.len() == 0 {
        if qty > 0 {
            seq![PriceLevel { price, quantity: qty }]
        } else {
            Seq::empty()
        }
    } else if s[0].price == price {
        if qty > 0 {
            seq![PriceLevel { price, quantity: qty }] + s.drop_first()
        } else {
            s.drop_first()
        }
    } else if s[0].price < price {
        if qty > 0 {
            seq![PriceLevel { price, quantity: qty }] + s
        } else {
            s
        }
    } else {
        seq![s[0]] + upsert_desc(s.drop_first(), price, qty)
    }
}

/// The result of one depth update on an ascending (ask) side.
pub open spec fn upsert_asc(s: Seq<PriceLevel>, price: i64, qty: i64) -> Seq<PriceLevel>
    decreases s.len(),
{
    if s.len() == 0 {
        if qty > 0 {
            seq![PriceLevel { price, quantity: qty }]
        } else {
            Seq::empty()
        }
    } else if s[0].price == price {
        if qty > 0 {
            seq![PriceLevel { price, quantity: qty }] + s.drop_first()
        } else {
            s.drop_first()
        }
    } else if s[0].price > price {
        if qty > 0 {
            seq![PriceLevel { price, quantity: qty }] + s
        } else {
            s
        }
    } else {
        seq![s[0]] + upsert_asc(s.drop_first(), price, qty)
    }
}

/// An upsert on a well-formed descending side keeps it well formed, puts the
/// new quantity at `price` (or removes the price when the quantity is zero),
/// and leaves every other level in place.
pub proof fn lemma_upsert_desc_wf(s: Seq<PriceLevel>, price: i64, qty: i64)
    requires
        sorted_desc(s),
        levels_wf(s),
        valid_price(price),
        valid_qty(qty),
    ensures
        sorted_desc(upsert_desc(s, price, qty)),
        levels_wf(upsert_desc(s, price, qty)),
        qty == 0 ==> forall|i: int|
            0 <= i < upsert_desc(s, price, qty).len() ==> #[trigger] upsert_desc(
                s,
                price,
                qty,
            )[i].price != price,
        forall|i: int|
            0 <= i < upsert_desc(s, price, qty).len() ==> s.contains(
                #[trigger] upsert_desc(s, price, qty)[i],
            ) || upsert_desc(s, price, qty)[i] == (PriceLevel { price, quantity: qty }),
        forall|j: int|
            0 <= j < s.len() && #[trigger] s[j].price != price ==> upsert_desc(
                s,
                price,
                qty,
            ).contains(s[j]),
    decreases s.len(),
{
    let r = upsert_desc(s, price, qty);
    let lvl = PriceLevel { price, quantity: qty };
    if s.len() == 0 {
        if qty > 0 {
            assert(r == seq![lvl]);
            assert(r[0] == lvl);
        }
    } else if s[0].price == price {
        assert forall|j: int| 0 <= j < s.len() && #[trigger] s[j].price != price implies r.contains(
            s[j],
        ) by {
            if qty > 0 {
                assert(r[j] == s[j]);
            } else {
                assert(r[j - 1] == s[j]);
            }
        }
        if qty == 0 {
            assert forall|i: int| 0 <= i < r.len() implies #[trigger] r[i].price != price by {
                assert(s[i + 1].price < s[0].price);
            }
        }
    } else if s[0].price < price {
        assert forall|j: int| 0 <= j < s.len() && #[trigger] s[j].price != price implies r.contains(
            s[j],
        ) by {
            if qty > 0 {
                assert(r[j + 1] == s[j]);
            } else {
                assert(r[j] == s[j]);
            }
        }
        if qty == 0 {
            assert forall|i: int| 0 <= i < r.len() implies #[trigger] r[i].price != price by {
                if i > 0 {
                    assert(s[i].price < s[0].price);
                }
            }
        }
    } else {
        let t = s.drop_first();
        assert(sorted_desc(t)) by {
            assert forall|i: int, j: int| 0 <= i < j < t.len() implies t[i].price > t[j].price by {
                assert(s[i + 1].price > s[j + 1].price);
            }
        }
        assert(levels_wf(t)) by {
            assert forall|i: int| 0 <= i < t.len() implies #[trigger] t[i].wf() by {
                assert(s[i + 1].wf());
            }
        }
        lemma_upsert_desc_wf(t, price, qty);
        let rr = upsert_desc(t, price, qty);
        assert(r == seq![s[0]] + rr);
        assert(r[0] == s[0]);
        // every element of the recursive result sits below the kept head
        assert forall|i: int| 0 <= i < rr.len() implies s[0].price > #[trigger] rr[i].price by {
            if t.contains(rr[i]) {
                let k = choose|k: int| 0 <= k < t.len() && t[k] == rr[i];
                assert(s[k + 1] == t[k]);
            } else {
                assert(rr[i] == lvl);
            }
        }
        assert forall|i: int, j: int| 0 <= i < j < r.len() implies r[i].price > r[j].price by {
            if i > 0 {
                assert(rr[i - 1].price > rr[j - 1].price);
            } else {
                assert(r[j] == rr[j - 1]);
            }
        }
        assert forall|i: int| 0 <= i < r.len() implies #[trigger] r[i].wf() by {
            if i > 0 {
                assert(rr[i - 1].wf());
            }
        }
        if qty == 0 {
            assert forall|i: int| 0 <= i < r.len() implies #[trigger] r[i].price != price by {
                if i > 0 {
                    assert(rr[i - 1].price != price);
                }
            }
        }
        assert forall|i: int|
            0 <= i < r.len() implies s.contains(#[trigger] r[i]) || r[i] == lvl by {
            if i == 0 {
                assert(s[0] == r[0]);
            } else {
                if t.contains(rr[i - 1]) {
                    let k = choose|k: int| 0 <= k < t.len() && t[k] == rr[i - 1];
                    assert(s[k + 1] == rr[i - 1]);
                }
            }
        }
        assert forall|j: int| 0 <= j < s.len() && #[trigger] s[j].price != price implies r.contains(
            s[j],
        ) by {
            if j == 0 {
                assert(r[0] == s[j]);
            } else {
                assert(t[j - 1] == s[j]);
                assert(rr.contains(t[j - 1]));
                let k = choose|k: int| 0 <= k < rr.len() && rr[k] == t[j - 1];
                assert(r[k + 1] == s[j]);
            }
        }
    }
}

/// Mirror of [`lemma_upsert_desc_wf`] for an ascending side.
pub proof fn lemma_upsert_asc_wf(s: Seq<PriceLevel>, price: i64, qty: i64)
    requires
        sorted_asc(s),
        levels_wf(s),
        valid_price(price),
        valid_qty(qty),
    ensures
        sorted_asc(upsert_asc(s, price, qty)),
        levels_wf(upsert_asc(s, price, qty)),
        qty == 0 ==> forall|i: int|
            0 <= i < upsert_asc(s, price, qty).len() ==> #[trigger] upsert_asc(
                s,
                price,
                qty,
            )[i].price != price,
        forall|i: int|
            0 <= i < upsert_asc(s, price, qty).len() ==> s.contains(
                #[trigger] upsert_asc(s, price, qty)[i],
            ) || upsert_asc(s, price, qty)[i] == (PriceLevel { price, quantity: qty }),
        forall|j: int|
            0 <= j < s.len() && #[trigger] s[j].price != price ==> upsert_asc(
                s,
                price,
                qty,
            ).contains(s[j]),
    decreases s.len(),
{
    let r = upsert_asc(s, price, qty);
    let lvl = PriceLevel { price, quantity: qty };
    if s.len() == 0 {
        if qty > 0 {
            assert(r == seq![lvl]);
            assert(r[0] == lvl);
        }
    } else if s[0].price == price {
        assert forall|j: int| 0 <= j < s.len() && #[trigger] s[j].price != price implies r.contains(
            s[j],
        ) by {
            if qty > 0 {
                assert(r[j] == s[j]);
            } else {
                assert(r[j - 1] == s[j]);
            }
        }
        if qty == 0 {
            assert forall|i: int| 0 <= i < r.len() implies #[trigger] r[i].price != price by {
                assert(s[i + 1].price > s[0].price);
            }
        }
    } else if s[0].price > price {
        assert forall|j: int| 0 <= j < s.len() && #[trigger] s[j].price != price implies r.contains(
            s[j],
        ) by {
            if qty > 0 {
                assert(r[j + 1] == s[j]);
            } else {
                assert(r[j] == s[j]);
            }
        }
        if qty == 0 {
            assert forall|i: int| 0 <= i < r.len() implies #[trigger] r[i].price != price by {
                if i > 0 {
                    assert(s[i].price > s[0].price);
                }
            }
        }
    } else {
        let t = s.drop_first();
        assert(sorted_asc(t)) by {
            assert forall|i: int, j: int| 0 <= i < j < t.len() implies t[i].price < t[j].price by {
                assert(s[i + 1].price < s[j + 1].price);
            }
        }
        assert(levels_wf(t)) by {
            assert forall|i: int| 0 <= i < t.len() implies #[trigger] t[i].wf() by {
                assert(s[i + 1].wf());
            }
        }
        lemma_upsert_asc_wf(t, price, qty);
        let rr = upsert_asc(t, price, qty);
        assert(r == seq![s[0]] + rr);
        assert(r[0] == s[0]);
        assert forall|i: int| 0 <= i < rr.len() implies s[0].price < #[trigger] rr[i].price by {
            if t.contains(rr[i]) {
                let k = choose|k: int| 0 <= k < t.len() && t[k] == rr[i];
                assert(s[k + 1] == t[k]);
            } else {
                assert(rr[i] == lvl);
            }
        }
        assert forall|i: int, j: int| 0 <= i < j < r.len() implies r[i].price < r[j].price by {
            if i > 0 {
                assert(rr[i - 1].price < rr[j - 1].price);
            } else {
                assert(r[j] == rr[j - 1]);
            }
        }
        assert forall|i: int| 0 <= i < r.len() implies #[trigger] r[i].wf() by {
            if i > 0 {
                assert(rr[i - 1].wf());
            }
        }
        if qty == 0 {
            assert forall|i: int| 0 <= i < r.len() implies #[trigger] r[i].price != price by {
                if i > 0 {
                    assert(rr[i - 1].price != price);
                }
            }
        }
        assert forall|i: int|
            0 <= i < r.len() implies s.contains(#[trigger] r[i]) || r[i] == lvl by {
            if i == 0 {
                assert(s[0] == r[0]);
            } else {
                if t.contains(rr[i - 1]) {
                    let k = choose|k: int| 0 <= k < t.len() && t[k] == rr[i - 1];
                    assert(s[k + 1] == rr[i - 1]);
                }
            }
        }
        assert forall|j: int| 0 <= j < s.len() && #[trigger] s[j].price != price implies r.contains(
            s[j],
        ) by {
            if j == 0 {
                assert(r[0] == s[j]);
            } else {
                assert(t[j - 1] == s[j]);
                assert(rr.contains(t[j - 1]));
                let k = choose|k: int| 0 <= k < rr.len() && rr[k] == t[j - 1];
                assert(r[k + 1] == s[j]);
            }
        }
    }
}

/// Sum of the quantities of the first `n` levels.
pub open spec fn qty_sum(s: Seq<PriceLevel>, n: int) -> int
    decreases n,
{
    if n <= 0 {
        0
    } else {
        qty_sum(s, n - 1) + s[n - 1].quantity
    }
}

/// On a well-formed side the partial sums are positive and bounded.
pub proof fn lemma_qty_sum_bounds(s: Seq<PriceLevel>, n: int)
    requires
        levels_wf(s),
        0 <= n <= s.len(),
    ensures
        n <= qty_sum(s, n) <= n * MAX_QTY,
    decreases n,
{
    if n > 0 {
        lemma_qty_sum_bounds(s, n - 1);
        assert(s[n - 1].wf());
        assert((n - 1) * MAX_QTY + MAX_QTY == n * MAX_QTY) by (nonlinear_arith);
    }
}

/// The number of levels the imbalance looks at per side.
pub open spec fn depth_count(s: Seq<PriceLevel>, levels: int) -> int {
    if levels <= s.len() {
        levels
    } else {
        s.len() as int
    }
}

/// Exact value of [`OrderBook::calculate_imbalance`]: bid quantity over the
/// top levels divided by ask quantity over the top levels, at fixed-point
/// scale, or nothing when the ask-side sum is zero (which also covers an
/// empty book).
pub open spec fn imbalance_of(bids: Seq<PriceLevel>, asks: Seq<PriceLevel>, levels: int) -> Option<
    int,
> {
    let sb = qty_sum(bids, depth_count(bids, levels));
    let sa = qty_sum(asks, depth_count(asks, levels));
    if sa <= 0 {
        None
    } else {
        Some(sb * scale() / sa)
    }
}

/// Walking one kept head commutes with the upsert: the loop invariant step
/// for the descending scan.
proof fn lemma_upsert_desc_step(s: Seq<PriceLevel>, i: int, price: i64, qty: i64)
    requires
        0 <= i < s.len(),
        s[i].price > price,
    ensures
        s.take(i) + upsert_desc(s.skip(i), price, qty) == s.take(i + 1) + upsert_desc(
            s.skip(i + 1),
            price,
            qty,
        ),
{
    let sk = s.skip(i);
    assert(sk[0] == s[i]);
    assert(sk.drop_first() =~= s.skip(i + 1));
    assert(upsert_desc(sk, price, qty) == seq![s[i]] + upsert_desc(s.skip(i + 1), price, qty));
    assert(s.take(i) + (seq![s[i]] + upsert_desc(s.skip(i + 1), price, qty)) =~= s.take(i + 1)
        + upsert_desc(s.skip(i + 1), price, qty));
}

/// Mirror of [`lemma_upsert_desc_step`] for the ascending scan.
proof fn lemma_upsert_asc_step(s: Seq<PriceLevel>, i: int, price: i64, qty: i64)
    requires
        0 <= i < s.len(),
        s[i].price < price,
    ensures
        s.take(i) + upsert_asc(s.skip(i), price, qty) == s.take(i + 1) + upsert_asc(
            s.skip(i + 1),
            price,
            qty,
        ),
{
    let sk = s.skip(i);
    assert(sk[0] == s[i]);
    assert(sk.drop_first() =~= s.skip(i + 1));
    assert(upsert_asc(sk, price, qty) == seq![s[i]] + upsert_asc(s.skip(i + 1), price, qty));
    assert(s.take(i) + (seq![s[i]] + upsert_asc(s.skip(i + 1), price, qty)) =~= s.take(i + 1)
        + upsert_asc(s.skip(i + 1), price, qty));
}

/// Applies one update to a descending side in place.
fn upsert_vec_desc(v: &mut Vec<PriceLevel>, price: i64, qty: i64)
    requires
        valid_price(price),
        valid_qty(qty),
    ensures
        final(v)@ == upsert_desc(old(v)@, price, qty),
{
    let ghost s = v@;
    let lvl = PriceLevel { price, quantity: qty };
    let mut i: usize = 0;
    proof {
        assert(s.skip(0) =~= s);
        assert(s.take(0) + upsert_desc(s, price, qty) =~= upsert_desc(s, price, qty));
    }
    while i < v.len() && v[i].price > price
        invariant
            v@ == s,
            0 <= i <= s.len(),
            upsert_desc(s, price, qty) == s.take(i as int) + upsert_desc(
                s.skip(i as int),
                price,
                qty,
            ),
        decreases s.len() - i,
    {
        proof {
            lemma_upsert_desc_step(s, i as int, price, qty);
        }
        i = i + 1;
    }
    if i == v.len() {
        if qty > 0 {
            v.push(lvl);
            proof {
                assert(upsert_desc(s.skip(i as int), price, qty) =~= seq![lvl]);
                assert(v@ =~= s.take(i as int) + upsert_desc(s.skip(i as int), price, qty));
            }
        } else {
            proof {
                assert(upsert_desc(s.skip(i as int), price, qty) =~= Seq::<PriceLevel>::empty());
                assert(v@ =~= s.take(i as int) + upsert_desc(s.skip(i as int), price, qty));
            }
        }
    } else if v[i].price == price {
        proof {
            assert(s.skip(i as int)[0] == s[i as int]);
            assert(s.skip(i as int).drop_first() =~= s.skip(i as int + 1));
        }
        if qty > 0 {
            v.set(i, lvl);
            proof {
                assert(upsert_desc(s.skip(i as int), price, qty) == seq![lvl] + s.skip(
                    i as int + 1,
                ));
                assert(v@ =~= s.take(i as int) + (seq![lvl] + s.skip(i as int + 1)));
            }
        } else {
            v.remove(i);
            proof {
                assert(upsert_desc(s.skip(i as int), price, qty) == s.skip(i as int + 1));
                assert(v@ =~= s.take(i as int) + s.skip(i as int + 1));
            }
        }
    } else {
        proof {
            assert(s.skip(i as int)[0] == s[i as int]);
        }
        if qty > 0 {
            v.insert(i, lvl);
            proof {
                assert(upsert_desc(s.skip(i as int), price, qty) == seq![lvl] + s.skip(i as int));
                assert(v@ =~= s.take(i as int) + (seq![lvl] + s.skip(i as int)));
            }
        } else {
            proof {
                assert(upsert_desc(s.skip(i as int), price, qty) == s.skip(i as int));
                assert(v@ =~= s.take(i as int) + s.skip(i as int));
            }
        }
    }
}

/// Applies one update to an ascending side in place.
fn upsert_vec_asc(v: &mut Vec<PriceLevel>, price: i64, qty: i64)
    requires
        valid_price(price),
        valid_qty(qty),
    ensures
        final(v)@ == upsert_asc(old(v)@, price, qty),
{
    let ghost s = v@;
    let lvl = PriceLevel { price, quantity: qty };
    let mut i: usize = 0;
    proof {
        assert(s.skip(0) =~= s);
        assert(s.take(0) + upsert_asc(s, price, qty) =~= upsert_asc(s, price, qty));
    }
    while i < v.len() && v[i].price < price
        invariant
            v@ == s,
            0 <= i <= s.len(),
            upsert_asc(s, price, qty) == s.take(i as int) + upsert_asc(
                s.skip(i as int),
                price,
                qty,
            ),
        decreases s.len() - i,
    {
        proof {
            lemma_upsert_asc_step(s, i as int, price, qty);
        }
        i = i + 1;
    }
    if i == v.len() {
        if qty > 0 {
            v.push(lvl);
            proof {
                assert(upsert_asc(s.skip(i as int), price, qty) =~= seq![lvl]);
                assert(v@ =~= s.take(i as int) + upsert_asc(s.skip(i as int), price, qty));
            }
        } else {
            proof {
                assert(upsert_asc(s.skip(i as int), price, qty) =~= Seq::<PriceLevel>::empty());
                assert(v@ =~= s.take(i as int) + upsert_asc(s.skip(i as int), price, qty));
            }
        }
    } else if v[i].price == price {
        proof {
            assert(s.skip(i as int)[0] == s[i as int]);
            assert(s.skip(i as int).drop_first() =~= s.skip(i as int + 1));
        }
        if qty > 0 {
            v.set(i, lvl);
            proof {
                assert(upsert_asc(s.skip(i as int), price, qty) == seq![lvl] + s.skip(i as int + 1));
                assert(v@ =~= s.take(i as int) + (seq![lvl] + s.skip(i as int + 1)));
            }
        } else {
            v.remove(i);
            proof {
                assert(upsert_asc(s.skip(i as int), price, qty) == s.skip(i as int + 1));
                assert(v@ =~= s.take(i as int) + s.skip(i as int + 1));
            }
        }
    } else {
        proof {
            assert(s.skip(i as int)[0] == s[i as int]);
        }
        if qty > 0 {
            v.insert(i, lvl);
            proof {
                assert(upsert_asc(s.skip(i as int), price, qty) == seq![lvl] + s.skip(i as int));
                assert(v@ =~= s.take(i as int) + (seq![lvl] + s.skip(i as int)));
            }
        } else {
            proof {
                assert(upsert_asc(s.skip(i as int), price, qty) == s.skip(i as int));
                assert(v@ =~= s.take(i as int) + s.skip(i as int));
            }
        }
    }
}


/// The order book: one instrument's symbol and its two sides.
#[derive(Debug)]
pub struct OrderBook {
    symbol: String,
    bids: Vec<PriceLevel>,
    asks: Vec<PriceLevel>,
}

impl OrderBook {
    /// Both sides sorted the right way around, with unique prices and
    /// well-formed levels: the book's invariant, established by [`Self::new`]
    /// and preserved by every update.
    pub open spec fn wf(self) -> bool {
        sorted_desc(self.spec_bids()) && levels_wf(self.spec_bids()) && sorted_asc(
            self.spec_asks(),
        ) && levels_wf(self.spec_asks())
    }

    /// The bid side, best (highest) price first.
    pub closed spec fn spec_bids(self) -> Seq<PriceLevel> {
        self.bids@
    }

    /// The ask side, best (lowest) price first.
    pub closed spec fn spec_asks(self) -> Seq<PriceLevel> {
        self.asks@
    }

    /// The instrument this book tracks.
    pub closed spec fn spec_symbol(self) -> Seq<char> {
        self.symbol@
    }

    /// Creates an empty book for one symbol.
    pub fn new(symbol: &str) -> (r: OrderBook)
        ensures
            r.wf(),
            r.spec_bids().len() == 0,
            r.spec_asks().len() == 0,
            r.spec_symbol() == symbol@,
    {
        OrderBook {
            symbol: <String as vstd::string::StringExecFns>::from_str(symbol),
            bids: Vec::new(),
            asks: Vec::new(),
        }
    }

    /// Upserts the level at `price` on `side` when `quantity` is positive and
    /// removes it when the quantity is zero; rejects out-of-range input
    /// without touching the book. This is the book's only mutation.
    pub fn update_level(&mut self, side: Side, price: i64, quantity: i64) -> (r: Result<
        (),
        BookError,
    >)
        requires
            old(self).wf(),
        ensures
            final(self).wf(),
            final(self).spec_symbol() == old(self).spec_symbol(),
            !valid_price(price) ==> r == Result::<(), BookError>::Err(BookError::InvalidPrice),
            valid_price(price) && !valid_qty(quantity) ==> r == Result::<(), BookError>::Err(
                BookError::InvalidQuantity,
            ),
            r is Err ==> *final(self) == *old(self),
            r is Ok <==> valid_price(price) && valid_qty(quantity),
            r is Ok && side is Buy ==> final(self).spec_bids() == upsert_desc(
                old(self).spec_bids(),
                price,
                quantity,
            ) && final(self).spec_asks() == old(self).spec_asks(),
            r is Ok && side is Sell ==> final(self).spec_asks() == upsert_asc(
                old(self).spec_asks(),
                price,
                quantity,
            ) && final(self).spec_bids() == old(self).spec_bids(),
            // a quantity-zero update leaves the price absent from its side
            r is Ok && quantity == 0 ==> forall|i: int|
                0 <= i < final(self).side_seq(side).len() ==> #[trigger] final(self).side_seq(
                    side,
                )[i].price != price,
    {
        if price < 0 || price > crate::types::MAX_PRICE {
            return Err(BookError::InvalidPrice);
        }
        if quantity < 0 || quantity > MAX_QTY {
            return Err(BookError::InvalidQuantity);
        }
        match side {
            Side::Buy => {
                proof {
                    lemma_upsert_desc_wf(self.bids@, price, quantity);
                }
                upsert_vec_desc(&mut self.bids, price, quantity);
            },
            Side::Sell => {
                proof {
                    lemma_upsert_asc_wf(self.asks@, price, quantity);
                }
                upsert_vec_asc(&mut self.asks, price, quantity);
            },
        }
        Ok(())
    }

    /// The side's levels, best first.
    pub open spec fn side_seq(self, side: Side) -> Seq<PriceLevel> {
        if side is Buy {
            self.spec_bids()
        } else {
            self.spec_asks()
        }
    }

    /// Best bid and best ask, each absent when its side is empty.
    pub fn get_top_of_book(&self) -> (r: (Option<PriceLevel>, Option<PriceLevel>))
        ensures
            r.0 == (if self.spec_bids().len() > 0 {
                Some(self.spec_bids()[0])
            } else {
                Option::<PriceLevel>::None
            }),
            r.1 == (if self.spec_asks().len() > 0 {
                Some(self.spec_asks()[0])
            } else {
                Option::<PriceLevel>::None
            }),
    {
        let bb = if self.bids.len() > 0 {
            Some(self.bids[0])
        } else {
            None
        };
        let ba = if self.asks.len() > 0 {
            Some(self.asks[0])
        } else {
            None
        };
        (bb, ba)
    }

    /// Midpoint of the two best prices, when both sides are non-empty.
    pub open spec fn spec_mid_price(self) -> Option<int> {
        if self.spec_bids().len() > 0 && self.spec_asks().len() > 0 {
            Some((self.spec_bids()[0].price + self.spec_asks()[0].price) / 2)
        } else {
            None
        }
    }

    /// `(best_bid + best_ask) / 2` when both sides are non-empty.
    pub fn get_mid_price(&self) -> (r: Option<i64>)
        requires
            self.wf(),
        ensures
            r matches Some(m) ==> self.spec_mid_price() == Some(m as int) && valid_price(m),
            r is None <==> self.spec_mid_price() is None,
    {
        if self.bids.len() > 0 && self.asks.len() > 0 {
            proof {
                assert(self.spec_bids()[0].wf());
                assert(self.spec_asks()[0].wf());
                let s = self.spec_bids()[0].price + self.spec_asks()[0].price;
                vstd::arithmetic::div_mod::lemma_div_pos_is_pos(s as int, 2);
                vstd::arithmetic::div_mod::lemma_div_is_ordered(
                    s as int,
                    2 * (crate::types::MAX_PRICE as int),
                    2,
                );
                vstd::arithmetic::div_mod::lemma_div_multiples_vanish(
                    crate::types::MAX_PRICE as int,
                    2,
                );
            }
            Some((self.bids[0].price + self.asks[0].price) / 2)
        } else {
            None
        }
    }

    /// Spread in basis points at fixed-point scale:
    /// `(best_ask - best_bid) / mid * 10000`, when the mid price is positive.
    pub open spec fn spec_spread_bps(self) -> Option<int> {
        match self.spec_mid_price() {
            Some(mid) => {
                if mid <= 0 {
                    None
                } else {
                    let diff = self.spec_asks()[0].price - self.spec_bids()[0].price;
                    if diff >= 0 {
                        Some(diff * 100_000_000 / mid)
                    } else {
                        Some(-((-diff) * 100_000_000 / mid))
                    }
                }
            },
            None => None,
        }
    }

    /// Spread in basis points at fixed-point scale.
    pub fn get_spread_bps(&self) -> (r: Option<i64>)
        requires
            self.wf(),
        ensures
            r matches Some(x) ==> self.spec_spread_bps() == Some(x as int),
            r is None <==> self.spec_spread_bps() is None,
    {
        if self.bids.len() > 0 && self.asks.len() > 0 {
            let bid = self.bids[0].price;
            let ask = self.asks[0].price;
            proof {
                assert(self.spec_bids()[0].wf());
                assert(self.spec_asks()[0].wf());
            }
            let mid = (bid + ask) / 2;
            if mid <= 0 {
                return None;
            }
            proof {
                lemma_spread_quotient_bound(bid as int, ask as int, mid as int);
            }
            if ask >= bid {
                let diff = (ask - bid) as i128;
                let q = diff * 100_000_000i128 / (mid as i128);
                Some(q as i64)
            } else {
                let diff = (bid - ask) as i128;
                let q = diff * 100_000_000i128 / (mid as i128);
                Some(-(q as i64))
            }
        } else {
            None
        }
    }

    /// Bid depth over ask depth for the top `levels` levels, at fixed-point
    /// scale; see [`imbalance_of`].
    pub fn calculate_imbalance(&self, levels: usize) -> (r: Option<i128>)
        requires
            self.wf(),
        ensures
            r matches Some(x) ==> imbalance_of(self.spec_bids(), self.spec_asks(), levels as int)
                == Some(x as int),
            r is None <==> imbalance_of(self.spec_bids(), self.spec_asks(), levels as int) is None,
    {
        let sb = sum_prefix(&self.bids, levels);
        let sa = sum_prefix(&self.asks, levels);
        if sa == 0 {
            None
        } else {
            proof {
                lemma_qty_sum_bounds(self.bids@, depth_count(self.bids@, levels as int));
                assert(depth_count(self.bids@, levels as int) * MAX_QTY <= 18_446_744_073_709_551_616
                    * MAX_QTY) by (nonlinear_arith)
                    requires
                        0 <= depth_count(self.bids@, levels as int) <= 18_446_744_073_709_551_616,
                ;
                assert(sb * scale() <= 18_446_744_073_709_551_616 * MAX_QTY * scale())
                    by (nonlinear_arith)
                    requires
                        0 <= sb <= 18_446_744_073_709_551_616 * MAX_QTY,
                ;
            }
            Some(sb * (crate::num::SCALE as i128) / sa)
        }
    }

    /// Up to `levels` levels per side, nearest to the mid first.
    pub fn get_depth(&self, levels: usize) -> (r: (Vec<PriceLevel>, Vec<PriceLevel>))
        ensures
            r.0@ == self.spec_bids().take(depth_count(self.spec_bids(), levels as int)),
            r.1@ == self.spec_asks().take(depth_count(self.spec_asks(), levels as int)),
    {
        let b = prefix_levels(&self.bids, levels);
        let a = prefix_levels(&self.asks, levels);
        (b, a)
    }

    /// `(bid_level_count, ask_level_count)`.
    pub fn get_book_depth_count(&self) -> (r: (usize, usize))
        ensures
            r.0 == self.spec_bids().len(),
            r.1 == self.spec_asks().len(),
    {
        (self.bids.len(), self.asks.len())
    }

    /// The instrument this book tracks.
    pub fn symbol(&self) -> (r: &str)
        ensures
            r@ == self.spec_symbol(),
    {
        self.symbol.as_str()
    }
}

/// The spread quotient is bounded by three times the bps scale, because the
/// best-price difference never exceeds three times the mid price.
proof fn lemma_spread_quotient_bound(bid: int, ask: int, mid: int)
    requires
        0 <= bid,
        0 <= ask,
        mid == (bid + ask) / 2,
        mid >= 1,
    ensures
        0 <= (ask - bid) * 100_000_000 / mid <= 300_000_000 || ask < bid,
        0 <= (bid - ask) * 100_000_000 / mid <= 300_000_000 || bid < ask,
{
    vstd::arithmetic::div_mod::lemma_fundamental_div_mod(bid + ask, 2);
    assert(bid + ask <= 2 * mid + 1);
    assert(2 * mid + 1 <= 3 * mid);
    if ask >= bid {
        let d = ask - bid;
        assert(d <= 3 * mid);
        assert(d * 100_000_000 <= mid * 300_000_000) by (nonlinear_arith)
            requires
                0 <= d <= 3 * mid,
        ;
        vstd::arithmetic::div_mod::lemma_div_is_ordered(d * 100_000_000, mid * 300_000_000, mid);
        vstd::arithmetic::div_mod::lemma_div_multiples_vanish(300_000_000, mid);
        vstd::arithmetic::div_mod::lemma_div_pos_is_pos(d * 100_000_000, mid);
        assert(d * 100_000_000 >= 0) by (nonlinear_arith)
            requires
                d >= 0,
        ;
    }
    if bid >= ask {
        let d = bid - ask;
        assert(d <= 3 * mid);
        assert(d * 100_000_000 <= mid * 300_000_000) by (nonlinear_arith)
            requires
                0 <= d <= 3 * mid,
        ;
        vstd::arithmetic::div_mod::lemma_div_is_ordered(d * 100_000_000, mid * 300_000_000, mid);
        vstd::arithmetic::div_mod::lemma_div_multiples_vanish(300_000_000, mid);
        vstd::arithmetic::div_mod::lemma_div_pos_is_pos(d * 100_000_000, mid);
        assert(d * 100_000_000 >= 0) by (nonlinear_arith)
            requires
                d >= 0,
        ;
    }
}

/// Sums the quantities of the first `levels` levels into a wide accumulator.
fn sum_prefix(v: &Vec<PriceLevel>, levels: usize) -> (r: i128)
    requires
        levels_wf(v@),
    ensures
        r == qty_sum(v@, depth_count(v@, levels as int)),
        0 <= r <= depth_count(v@, levels as int) * MAX_QTY,
{
    let n: usize = if levels < v.len() {
        levels
    } else {
        v.len()
    };
    let mut sum: i128 = 0;
    let mut i: usize = 0;
    while i < n
        invariant
            0 <= i <= n,
            n == depth_count(v@, levels as int),
            n <= v@.len(),
            levels_wf(v@),
            sum == qty_sum(v@, i as int),
            0 <= sum <= i * MAX_QTY,
        decreases n - i,
    {
        proof {
            assert(v@[i as int].wf());
            assert(i * MAX_QTY + MAX_QTY == (i + 1) * MAX_QTY) by (nonlinear_arith);
            assert((i + 1) * MAX_QTY <= 18_446_744_073_709_551_616 * MAX_QTY) by (nonlinear_arith)
                requires
                    0 <= i + 1 <= 18_446_744_073_709_551_616,
            ;
        }
        sum = sum + (v[i].quantity as i128);
        i = i + 1;
    }
    sum
}

/// Copies the first `levels` levels of a side.
fn prefix_levels(v: &Vec<PriceLevel>, levels: usize) -> (r: Vec<PriceLevel>)
    ensures
        r@ == v@.take(depth_count(v@, levels as int)),
{
    let n: usize = if levels < v.len() {
        levels
    } else {
        v.len()
    };
    let mut out: Vec<PriceLevel> = Vec::new();
    let mut i: usize = 0;
    while i < n
        invariant
            0 <= i <= n,
            n == depth_count(v@, levels as int),
            n <= v@.len(),
            out@ == v@.take(i as int),
        decreases n - i,
    {
        out.push(v[i]);
        proof {
            assert(out@ =~= v@.take(i + 1));
        }
        i = i + 1;
    }
    out
}

/// A price that occurs on neither level of a side is absent from every depth
/// query over it: together with the quantity-zero clause of
/// [`OrderBook::update_level`], removing a level keeps its price out of all
/// subsequent `get_depth` prefixes (and so out of anything computed from
/// them), whatever further updates at other prices happen in between.
pub proof fn lemma_absent_price_not_in_depth(s: Seq<PriceLevel>, price: i64, levels: int)
    requires
        forall|i: int| 0 <= i < s.len() ==> #[trigger] s[i].price != price,
    ensures
        forall|i: int|
            0 <= i < depth_count(s, levels) ==> #[trigger] s.take(depth_count(s, levels))[i].price
                != price,
{
}


/// A defined imbalance ratio is non-negative and at most
/// `levels * MAX_QTY * SCALE`, since each side sums at most `levels`
/// well-formed quantities and the ask-side sum is at least one.
pub proof fn lemma_imbalance_in_range(bids: Seq<PriceLevel>, asks: Seq<PriceLevel>, levels: int)
    requires
        levels_wf(bids),
        levels_wf(asks),
        levels >= 0,
        imbalance_of(bids, asks, levels) is Some,
    ensures
        0 <= imbalance_of(bids, asks, levels).unwrap() <= levels * MAX_QTY * scale(),
{
    let nb = depth_count(bids, levels);
    let na = depth_count(asks, levels);
    let sb = qty_sum(bids, nb);
    let sa = qty_sum(asks, na);
    lemma_qty_sum_bounds(bids, nb);
    assert(sb <= levels * MAX_QTY) by (nonlinear_arith)
        requires
            sb <= nb * MAX_QTY,
            0 <= nb <= levels,
    ;
    vstd::arithmetic::div_mod::lemma_div_pos_is_pos(sb * scale(), sa);
    assert(sb * scale() >= 0) by (nonlinear_arith)
        requires
            sb >= 0,
    ;
    vstd::arithmetic::div_mod::lemma_div_is_ordered_by_denominator(sb * scale(), 1, sa);
    vstd::arithmetic::div_mod::lemma_div_basics_2(sb * scale());
    assert(sb * scale() <= levels * MAX_QTY * scale()) by (nonlinear_arith)
        requires
            0 <= sb <= levels * MAX_QTY,
    ;
}

/// Pointwise larger quantities make a larger prefix sum.
pub proof fn lemma_qty_sum_monotone(s1: Seq<PriceLevel>, s2: Seq<PriceLevel>, n: int)
    requires
        0 <= n <= s1.len(),
        n <= s2.len(),
        forall|i: int| 0 <= i < n ==> #[trigger] s1[i].quantity <= s2[i].quantity,
    ensures
        qty_sum(s1, n) <= qty_sum(s2, n),
    decreases n,
{
    if n > 0 {
        lemma_qty_sum_monotone(s1, s2, n - 1);
    }
}

/// The imbalance ratio is monotonically non-decreasing in bid volume,
/// holding the ask side fixed: raising bid quantities pointwise (at the same
/// number of levels) never lowers the ratio.
pub proof fn lemma_imbalance_monotone_in_bids(
    bids1: Seq<PriceLevel>,
    bids2: Seq<PriceLevel>,
    asks: Seq<PriceLevel>,
    levels: int,
)
    requires
        levels_wf(bids1),
        bids1.len() == bids2.len(),
        forall|i: int| 0 <= i < bids1.len() ==> #[trigger] bids1[i].quantity <= bids2[i].quantity,
        imbalance_of(bids1, asks, levels) is Some,
    ensures
        imbalance_of(bids2, asks, levels) is Some,
        imbalance_of(bids1, asks, levels).unwrap() <= imbalance_of(bids2, asks, levels).unwrap(),
{
    let n = depth_count(bids1, levels);
    let sa = qty_sum(asks, depth_count(asks, levels));
    let sb1 = qty_sum(bids1, n);
    let sb2 = qty_sum(bids2, n);
    lemma_qty_sum_monotone(bids1, bids2, n);
    assert(sb1 * scale() <= sb2 * scale()) by (nonlinear_arith)
        requires
            sb1 <= sb2,
    ;
    vstd::arithmetic::div_mod::lemma_div_is_ordered(sb1 * scale(), sb2 * scale(), sa);
}

/// The imbalance ratio is monotonically non-increasing in ask volume,
/// holding the bid side fixed: raising ask quantities pointwise (at the same
/// number of levels) never raises the ratio.
pub proof fn lemma_imbalance_antitone_in_asks(
    bids: Seq<PriceLevel>,
    asks1: Seq<PriceLevel>,
    asks2: Seq<PriceLevel>,
    levels: int,
)
    requires
        levels_wf(bids),
        levels_wf(asks1),
        asks1.len() == asks2.len(),
        forall|i: int| 0 <= i < asks1.len() ==> #[trigger] asks1[i].quantity <= asks2[i].quantity,
        imbalance_of(bids, asks1, levels) is Some,
    ensures
        imbalance_of(bids, asks2, levels) is Some,
        imbalance_of(bids, asks2, levels).unwrap() <= imbalance_of(bids, asks1, levels).unwrap(),
{
    let na = depth_count(asks1, levels);
    let sa1 = qty_sum(asks1, na);
    let sa2 = qty_sum(asks2, na);
    let sb = qty_sum(bids, depth_count(bids, levels));
    lemma_qty_sum_monotone(asks1, asks2, na);
    lemma_qty_sum_bounds(bids, depth_count(bids, levels));
    assert(sb * scale() >= 0) by (nonlinear_arith)
        requires
            sb >= 0,
    ;
    vstd::arithmetic::div_mod::lemma_div_is_ordered_by_denominator(sb * scale(), sa1, sa2);
}

} // verus!
