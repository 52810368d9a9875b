//! Position tracking with profit-and-loss arithmetic.
//!
//! All money values are fixed-point `i64`s scaled by [`crate::num::SCALE`];
//! combined amounts saturate at the representable bounds.

use vstd::prelude::*;
use crate::num::{scale, tdiv, tdiv_i128, clamp_i64, clamp_to_i64, sat_add_i64, lemma_tdiv_bound};
use crate::types::{Side, valid_price, valid_qty, MAX_PRICE, MAX_QTY};
use crate::risk::elapsed_ms;

verus! {

/// Relies on `str`'s `PartialEq`: two string slices are equal exactly when
/// their character sequences are (UTF-8 encodes a character sequence
/// injectively, so byte equality and character equality coincide).
pub assume_specification[ <str as PartialEq<str>>::eq ](a: &str, b: &str) -> (r: bool)
    ensures
        r == (a@ == b@),
;

/// String equality through the specified `str::eq`.
fn str_eq(a: &str, b: &str) -> (r: bool)
    ensures
        r == (a@ == b@),
{
    <str as PartialEq<str>>::eq(a, b)
}

/// A price found in a list of valid prices is valid.
proof fn lemma_find_price_valid(prices: Seq<(String, i64)>, sym: Seq<char>, j: int)
    requires
        forall|i: int| 0 <= i < prices.len() ==> valid_price((#[trigger] prices[i]).1),
        0 <= j,
    ensures
        find_price(prices, sym, j) matches Some(px) ==> valid_price(px),
    decreases prices.len() - j,
{
    if j < prices.len() && prices[j].0@ != sym {
        lemma_find_price_valid(prices, sym, j + 1);
    }
}

/// The one failure of position bookkeeping: no open position for a symbol.
#[derive(Clone, Copy, Debug, PartialEq, Eq, Structural)]
pub enum PositionError {
    NotFound,
}

/// Signed price move times quantity, truncating toward zero: the gross
/// profit before fees.
pub open spec fn pnl_gross(side: Side, entry: int, cur: int, qty: int) -> int {
    let diff = if side is Buy {
        cur - entry
    } else {
        entry - cur
    };
    tdiv(diff * qty, scale())
}

/// Unrealized profit and loss: the gross profit less the fees paid,
/// saturated at the representable bounds.
pub open spec fn pnl_of(side: Side, entry: int, cur: int, qty: int, fees: int) -> int {
    clamp_i64(pnl_gross(side, entry, cur, qty) - fees)
}

/// Cost basis: entry price times quantity.
pub open spec fn notional_of(entry: int, qty: int) -> int {
    entry * qty / scale()
}

/// Unrealized profit as a percentage of the cost basis, at fixed-point
/// scale; zero on a zero basis.
pub open spec fn pnl_pct_of(side: Side, entry: int, cur: int, qty: int, fees: int) -> int {
    let cb = notional_of(entry, qty);
    if cb == 0 {
        0
    } else {
        clamp_i64(tdiv(pnl_of(side, entry, cur, qty, fees) * 100 * scale(), cb))
    }
}

/// One open or closed position.
#[derive(Clone, Debug)]
pub struct Position {
    pub symbol: String,
    pub side: Side,
    pub entry_price: i64,
    pub quantity: i64,
    pub entry_time_ms: u64,
    pub realized_pnl: i64,
    pub fees_paid: i64,
}

impl Position {
    /// Entry price and quantity in range, fees non-negative.
    pub open spec fn wf(self) -> bool {
        valid_price(self.entry_price) && valid_qty(self.quantity) && self.fees_paid >= 0
    }

    /// Opens a position at the given entry time.
    pub fn new_at(
        symbol: String,
        side: Side,
        entry_price: i64,
        quantity: i64,
        fees: i64,
        entry_time_ms: u64,
    ) -> (r: Position)
        requires
            valid_price(entry_price),
            valid_qty(quantity),
            fees >= 0,
        ensures
            r.wf(),
            r.symbol@ == symbol@,
            r.side == side,
            r.entry_price == entry_price,
            r.quantity == quantity,
            r.entry_time_ms == entry_time_ms,
            r.realized_pnl == 0,
            r.fees_paid == fees,
    {
        Position {
            symbol,
            side,
            entry_price,
            quantity,
            entry_time_ms,
            realized_pnl: 0,
            fees_paid: fees,
        }
    }

    /// Opens a position now: [`Self::new_at`] at whatever instant the wall
    /// clock returned.
    pub fn new(symbol: String, side: Side, entry_price: i64, quantity: i64, fees: i64) -> (r:
        Position)
        requires
            valid_price(entry_price),
            valid_qty(quantity),
            fees >= 0,
        ensures
            r.wf(),
            r.symbol@ == symbol@,
            r.side == side,
            r.entry_price == entry_price,
            r.quantity == quantity,
            r.realized_pnl == 0,
            r.fees_paid == fees,
    {
        let now = crate::clock::now_millis();
        Position::new_at(symbol, side, entry_price, quantity, fees, now)
    }

    /// Unrealized profit and loss at the given price: the signed price move
    /// times the quantity, less the fees paid.
    pub fn unrealized_pnl(&self, current_price: i64) -> (r: i64)
        requires
            self.wf(),
            valid_price(current_price),
        ensures
            r as int == pnl_of(
                self.side,
                self.entry_price as int,
                current_price as int,
                self.quantity as int,
                self.fees_paid as int,
            ),
    {
        let diff: i64 = match self.side {
            Side::Buy => current_price - self.entry_price,
            Side::Sell => self.entry_price - current_price,
        };
        proof {
            assert(-(scale() * ((MAX_PRICE as int) * (MAX_QTY as int))) <= (diff as int)
                * (self.quantity as int) <= scale() * ((MAX_PRICE as int) * (MAX_QTY as int)))
                by (nonlinear_arith)
                requires
                    -(MAX_PRICE as int) <= diff as int <= MAX_PRICE as int,
                    0 <= self.quantity as int <= MAX_QTY as int,
            ;
            lemma_tdiv_bound(
                (diff as int) * (self.quantity as int),
                scale(),
                (MAX_PRICE as int) * (MAX_QTY as int),
            );
        }
        let gross: i128 = tdiv_i128((diff as i128) * (self.quantity as i128), crate::num::SCALE as i128);
        clamp_to_i64(gross - (self.fees_paid as i128))
    }

    /// Unrealized profit as a percentage of the cost basis, at fixed-point
    /// scale.
    pub fn unrealized_pnl_percent(&self, current_price: i64) -> (r: i64)
        requires
            self.wf(),
            valid_price(current_price),
        ensures
            r as int == pnl_pct_of(
                self.side,
                self.entry_price as int,
                current_price as int,
                self.quantity as int,
                self.fees_paid as int,
            ),
    {
        let pnl = self.unrealized_pnl(current_price);
        let cb = self.notional_value();
        if cb == 0 {
            return 0;
        }
        proof {
            vstd::arithmetic::div_mod::lemma_div_pos_is_pos(
                (self.entry_price as int) * (self.quantity as int),
                scale(),
            );
            assert((self.entry_price as int) * (self.quantity as int) >= 0) by (nonlinear_arith)
                requires
                    self.entry_price >= 0,
                    self.quantity >= 0,
            ;
            assert((pnl as int) * 100 * scale() == (pnl as int) * 1_000_000) by (nonlinear_arith);
        }
        let num: i128 = (pnl as i128) * 1_000_000i128;
        clamp_to_i64(tdiv_i128(num, cb as i128))
    }

    /// Closes the position at the given price: the realized profit is the
    /// unrealized profit less the exit fees, and the exit fees join the
    /// fees paid.
    pub fn close(&mut self, exit_price: i64, exit_fees: i64) -> (r: i64)
        requires
            old(self).wf(),
            valid_price(exit_price),
            exit_fees >= 0,
        ensures
            final(self).wf(),
            r as int == clamp_i64(
                pnl_of(
                    old(self).side,
                    old(self).entry_price as int,
                    exit_price as int,
                    old(self).quantity as int,
                    old(self).fees_paid as int,
                ) - exit_fees,
            ),
            final(self).realized_pnl == r,
            final(self).fees_paid as int == clamp_i64(old(self).fees_paid + exit_fees),
            final(self).symbol@ == old(self).symbol@,
            final(self).side == old(self).side,
            final(self).entry_price == old(self).entry_price,
            final(self).quantity == old(self).quantity,
            final(self).entry_time_ms == old(self).entry_time_ms,
    {
        let up = self.unrealized_pnl(exit_price);
        let pnl = clamp_to_i64((up as i128) - (exit_fees as i128));
        self.realized_pnl = pnl;
        self.fees_paid = sat_add_i64(self.fees_paid, exit_fees);
        pnl
    }

    /// Cost basis: entry price times quantity.
    pub fn notional_value(&self) -> (r: i64)
        requires
            self.wf(),
        ensures
            r as int == notional_of(self.entry_price as int, self.quantity as int),
            0 <= r <= 1_000_000_000_000_000_000,
    {
        proof {
            vstd::arithmetic::div_mod::lemma_div_pos_is_pos(
                (self.entry_price as int) * (self.quantity as int),
                scale(),
            );
            assert(0 <= (self.entry_price as int) * (self.quantity as int) <= scale() * (
            1_000_000_000_000_000_000)) by (nonlinear_arith)
                requires
                    0 <= self.entry_price <= MAX_PRICE,
                    0 <= self.quantity <= MAX_QTY,
            ;
            vstd::arithmetic::div_mod::lemma_div_is_ordered(
                (self.entry_price as int) * (self.quantity as int),
                scale() * 1_000_000_000_000_000_000,
                scale(),
            );
            vstd::arithmetic::div_mod::lemma_div_multiples_vanish(
                1_000_000_000_000_000_000,
                scale(),
            );
        }
        (((self.entry_price as i128) * (self.quantity as i128)) / (crate::num::SCALE as i128)) as i64
    }

    /// Milliseconds the position has been open as of the given instant.
    pub fn age_at(&self, now_ms: u64) -> (r: u64)
        ensures
            r as int == elapsed_ms(now_ms, self.entry_time_ms),
    {
        if now_ms >= self.entry_time_ms {
            now_ms - self.entry_time_ms
        } else {
            0
        }
    }

    /// Milliseconds the position has been open, by the wall clock.
    pub fn age(&self) -> u64 {
        let now = crate::clock::now_millis();
        self.age_at(now)
    }

    /// Whether the position has been open longer than allowed, as of the
    /// given instant.
    pub fn is_expired_at(&self, max_hold_time_ms: u64, now_ms: u64) -> (r: bool)
        ensures
            r == (elapsed_ms(now_ms, self.entry_time_ms) > max_hold_time_ms as int),
    {
        self.age_at(now_ms) > max_hold_time_ms
    }

    /// Whether the position has been open longer than allowed, by the wall
    /// clock.
    pub fn is_expired(&self, max_hold_time_ms: u64) -> bool {
        let now = crate::clock::now_millis();
        self.is_expired_at(max_hold_time_ms, now)
    }

    /// Whether the profit target is reached: the profit percentage is at
    /// least `take_profit_bps / 100` percent.
    pub fn take_profit_hit(&self, current_price: i64, take_profit_bps: i64) -> (r: bool)
        requires
            self.wf(),
            valid_price(current_price),
        ensures
            r == (pnl_pct_of(
                self.side,
                self.entry_price as int,
                current_price as int,
                self.quantity as int,
                self.fees_paid as int,
            ) >= tdiv(take_profit_bps as int, 100)),
    {
        let pct = self.unrealized_pnl_percent(current_price);
        let target: i64 = tdiv_i128(take_profit_bps as i128, 100) as i64;
        pct >= target
    }

    /// Whether the loss floor is hit: the profit percentage is at or below
    /// `-(stop_loss_bps / 100)` percent.
    pub fn stop_loss_hit(&self, current_price: i64, stop_loss_bps: i64) -> (r: bool)
        requires
            self.wf(),
            valid_price(current_price),
            stop_loss_bps >= 0,
        ensures
            r == (pnl_pct_of(
                self.side,
                self.entry_price as int,
                current_price as int,
                self.quantity as int,
                self.fees_paid as int,
            ) <= -(stop_loss_bps as int / 100)),
    {
        let pct = self.unrealized_pnl_percent(current_price);
        let target: i64 = -(stop_loss_bps / 100);
        pct <= target
    }
}

/// Index of the first position with the given symbol, from `j` on; `-1`
/// when there is none.
pub open spec fn find_sym(s: Seq<Position>, sym: Seq<char>, j: int) -> int
    decreases s.len() - j,
{
    if j < 0 || j >= s.len() {
        -1
    } else if s[j].symbol@ == sym {
        j
    } else {
        find_sym(s, sym, j + 1)
    }
}

/// Saturating sum of the unrealized profits of the positions whose symbol
/// appears in the price list (first match per symbol).
pub open spec fn sum_unreal(s: Seq<Position>, prices: Seq<(String, i64)>) -> int
    decreases s.len(),
{
    if s.len() == 0 {
        0
    } else {
        let p = s.last();
        let rest = sum_unreal(s.drop_last(), prices);
        match find_price(prices, p.symbol@, 0) {
            Some(px) => clamp_i64(
                rest + pnl_of(
                    p.side,
                    p.entry_price as int,
                    px as int,
                    p.quantity as int,
                    p.fees_paid as int,
                ),
            ),
            None => rest,
        }
    }
}

/// Price listed for a symbol, first match from `j` on.
pub open spec fn find_price(prices: Seq<(String, i64)>, sym: Seq<char>, j: int) -> Option<i64>
    decreases prices.len() - j,
{
    if j < 0 || j >= prices.len() {
        None
    } else if prices[j].0@ == sym {
        Some(prices[j].1)
    } else {
        find_price(prices, sym, j + 1)
    }
}

/// Saturating sum of the cost bases of all open positions.
pub open spec fn sum_notional(s: Seq<Position>) -> int
    decreases s.len(),
{
    if s.len() == 0 {
        0
    } else {
        clamp_i64(
            sum_notional(s.drop_last()) + notional_of(
                s.last().entry_price as int,
                s.last().quantity as int,
            ),
        )
    }
}

/// How many closed positions realized a profit.
pub open spec fn count_wins(s: Seq<Position>) -> int
    decreases s.len(),
{
    if s.len() == 0 {
        0
    } else {
        count_wins(s.drop_last()) + (if s.last().realized_pnl > 0 {
            1int
        } else {
            0int
        })
    }
}

/// Book of open and closed positions with realized totals.
#[derive(Debug)]
pub struct PositionManager {
    positions: Vec<Position>,
    closed_positions: Vec<Position>,
    total_realized_pnl: i64,
    total_fees: i64,
}

impl PositionManager {
    /// The open positions, oldest first.
    pub closed spec fn spec_open(self) -> Seq<Position> {
        self.positions@
    }

    /// The closed positions, in closing order.
    pub closed spec fn spec_closed(self) -> Seq<Position> {
        self.closed_positions@
    }

    /// Total realized profit and loss (saturating).
    pub closed spec fn spec_total_realized(self) -> int {
        self.total_realized_pnl as int
    }

    /// Total fees paid (saturating).
    pub closed spec fn spec_total_fees(self) -> int {
        self.total_fees as int
    }

    /// Every held position is well formed.
    pub open spec fn wf(self) -> bool {
        &&& forall|i: int| 0 <= i < self.spec_open().len() ==> (#[trigger] self.spec_open()[i]).wf()
        &&& forall|i: int|
            0 <= i < self.spec_closed().len() ==> (#[trigger] self.spec_closed()[i]).wf()
    }

    /// An empty book.
    pub fn new() -> (r: PositionManager)
        ensures
            r.wf(),
            r.spec_open().len() == 0,
            r.spec_closed().len() == 0,
            r.spec_total_realized() == 0,
            r.spec_total_fees() == 0,
    {
        PositionManager {
            positions: Vec::new(),
            closed_positions: Vec::new(),
            total_realized_pnl: 0,
            total_fees: 0,
        }
    }

    /// Adds an open position to the book; never fails.
    pub fn open_position(&mut self, position: Position) -> (r: Result<(), PositionError>)
        requires
            old(self).wf(),
            position.wf(),
        ensures
            final(self).wf(),
            r is Ok,
            final(self).spec_open() == old(self).spec_open().push(position),
            final(self).spec_closed() == old(self).spec_closed(),
            final(self).spec_total_realized() == old(self).spec_total_realized(),
            final(self).spec_total_fees() == old(self).spec_total_fees(),
    {
        self.positions.push(position);
        proof {
            assert forall|i: int|
                0 <= i < self.spec_open().len() implies (#[trigger] self.spec_open()[i]).wf() by {
                if i < self.spec_open().len() - 1 {
                    assert(self.spec_open()[i] == old(self).spec_open()[i]);
                } else {
                    assert(self.spec_open()[i] == position);
                }
            }
            assert(self.spec_closed() == old(self).spec_closed());
            assert forall|i: int|
                0 <= i < self.spec_closed().len() implies (
            #[trigger] self.spec_closed()[i]).wf() by {
                assert(self.spec_closed()[i] == old(self).spec_closed()[i]);
            }
        }
        Ok(())
    }

    /// Closes the first open position with the given symbol at the given
    /// price: it moves to the closed list with its realized profit, which
    /// also joins the totals. Fails exactly when no open position carries
    /// the symbol.
    pub fn close_position(&mut self, symbol: &str, exit_price: i64, exit_fees: i64) -> (r: Result<
        i64,
        PositionError,
    >)
        requires
            old(self).wf(),
            valid_price(exit_price),
            exit_fees >= 0,
        ensures
            final(self).wf(),
            ({
                let idx = find_sym(old(self).spec_open(), symbol@, 0);
                if idx == -1 {
                    r == Result::<i64, PositionError>::Err(PositionError::NotFound) && *final(self)
                        == *old(self)
                } else {
                    let p = old(self).spec_open()[idx];
                    let pnl = clamp_i64(
                        pnl_of(
                            p.side,
                            p.entry_price as int,
                            exit_price as int,
                            p.quantity as int,
                            p.fees_paid as int,
                        ) - exit_fees,
                    );
                    &&& r == Result::<i64, PositionError>::Ok(pnl as i64)
                    &&& final(self).spec_open() == old(self).spec_open().remove(idx)
                    &&& final(self).spec_closed().len() == old(self).spec_closed().len() + 1
                    &&& final(self).spec_closed().last().realized_pnl == pnl
                    &&& final(self).spec_closed().last().symbol@ == p.symbol@
                    &&& final(self).spec_closed().last().fees_paid as int == clamp_i64(
                        p.fees_paid + exit_fees,
                    )
                    &&& final(self).spec_closed().drop_last() == old(self).spec_closed()
                    &&& final(self).spec_total_realized() == clamp_i64(
                        old(self).spec_total_realized() + pnl,
                    )
                    &&& final(self).spec_total_fees() == clamp_i64(
                        old(self).spec_total_fees() + clamp_i64(p.fees_paid + exit_fees),
                    )
                }
            }),
    {
        let ghost s = self.positions@;
        let n = self.positions.len();
        let mut i: usize = 0;
        let mut found: bool = false;
        while i < n && !found
            invariant
                0 <= i <= n,
                n == s.len(),
                s == self.positions@,
                !found ==> find_sym(s, symbol@, 0) == find_sym(s, symbol@, i as int),
                found ==> i < n && find_sym(s, symbol@, 0) == i as int,
            decreases n - i + (if found {
                0int
            } else {
                1int
            }),
        {
            let p = &self.positions[i];
            if str_eq(p.symbol.as_str(), symbol) {
                found = true;
            } else {
                i = i + 1;
            }
        }
        if !found {
            proof {
                assert(find_sym(s, symbol@, n as int) == -1);
            }
            return Err(PositionError::NotFound);
        }
        let ghost idx = i as int;
        let mut position = self.positions.remove(i);
        let realized = position.close(exit_price, exit_fees);
        self.total_realized_pnl = sat_add_i64(self.total_realized_pnl, realized);
        self.total_fees = sat_add_i64(self.total_fees, position.fees_paid);
        self.closed_positions.push(position);
        proof {
            assert(final(self).spec_closed().drop_last() =~= old(self).spec_closed());
        }
        Ok(realized)
    }

    /// The open positions.
    pub fn open_positions(&self) -> (r: &[Position])
        ensures
            r@ == self.spec_open(),
    {
        self.positions.as_slice()
    }

    /// The first open position with the given symbol, if any.
    pub fn get_position(&self, symbol: &str) -> (r: Option<&Position>)
        ensures
            ({
                let idx = find_sym(self.spec_open(), symbol@, 0);
                if idx == -1 {
                    r is None
                } else {
                    r matches Some(p) && *p == self.spec_open()[idx]
                }
            }),
    {
        let ghost s = self.positions@;
        let n = self.positions.len();
        let mut i: usize = 0;
        while i < n
            invariant
                0 <= i <= n,
                n == s.len(),
                s == self.positions@,
                find_sym(s, symbol@, 0) == find_sym(s, symbol@, i as int),
            decreases n - i,
        {
            let p = &self.positions[i];
            if str_eq(p.symbol.as_str(), symbol) {
                return Some(p);
            }
            i = i + 1;
        }
        None
    }

    /// Saturating sum of unrealized profits over the given price list.
    pub fn total_unrealized_pnl(&self, prices: &[(String, i64)]) -> (r: i64)
        requires
            self.wf(),
            forall|i: int| 0 <= i < prices@.len() ==> valid_price((#[trigger] prices@[i]).1),
        ensures
            r as int == sum_unreal(self.spec_open(), prices@),
    {
        let n = self.positions.len();
        let mut acc: i64 = 0;
        let mut i: usize = 0;
        while i < n
            invariant
                0 <= i <= n,
                n == self.positions@.len(),
                self.wf(),
                forall|k: int| 0 <= k < prices@.len() ==> valid_price((#[trigger] prices@[k]).1),
                acc as int == sum_unreal(self.spec_open().take(i as int), prices@),
            decreases n - i,
        {
            proof {
                assert(self.spec_open().take(i + 1).drop_last() =~= self.spec_open().take(i as int));
                assert(self.spec_open().take(i + 1).last() == self.spec_open()[i as int]);
                assert(self.spec_open()[i as int].wf());
            }
            let p = &self.positions[i];
            proof {
                lemma_find_price_valid(prices@, p.symbol@, 0);
            }
            match lookup_price(prices, p.symbol.as_str()) {
                Some(px) => {
                    let pnl = p.unrealized_pnl(px);
                    acc = sat_add_i64(acc, pnl);
                },
                None => {},
            }
            i = i + 1;
        }
        proof {
            assert(self.spec_open().take(n as int) =~= self.spec_open());
        }
        acc
    }

    /// Saturating sum of the cost bases of all open positions.
    pub fn total_exposure(&self) -> (r: i64)
        requires
            self.wf(),
        ensures
            r as int == sum_notional(self.spec_open()),
    {
        let n = self.positions.len();
        let mut acc: i64 = 0;
        let mut i: usize = 0;
        while i < n
            invariant
                0 <= i <= n,
                n == self.positions@.len(),
                self.wf(),
                acc as int == sum_notional(self.spec_open().take(i as int)),
            decreases n - i,
        {
            proof {
                assert(self.spec_open().take(i + 1).drop_last() =~= self.spec_open().take(i as int));
                assert(self.spec_open().take(i + 1).last() == self.spec_open()[i as int]);
                assert(self.spec_open()[i as int].wf());
            }
            let p = &self.positions[i];
            let nv = p.notional_value();
            acc = sat_add_i64(acc, nv);
            i = i + 1;
        }
        proof {
            assert(self.spec_open().take(n as int) =~= self.spec_open());
        }
        acc
    }

    /// How many positions are open.
    pub fn position_count(&self) -> (r: usize)
        ensures
            r == self.spec_open().len(),
    {
        self.positions.len()
    }

    /// Total realized profit and loss (saturating).
    pub fn total_realized_pnl(&self) -> (r: i64)
        ensures
            r as int == self.spec_total_realized(),
    {
        self.total_realized_pnl
    }

    /// Total fees paid (saturating).
    pub fn total_fees(&self) -> (r: i64)
        ensures
            r as int == self.spec_total_fees(),
    {
        self.total_fees
    }

    /// The closed positions.
    pub fn closed_positions(&self) -> (r: &[Position])
        ensures
            r@ == self.spec_closed(),
    {
        self.closed_positions.as_slice()
    }

    /// Fraction of closed positions that realized a profit, at fixed-point
    /// scale; zero with no closed positions.
    pub fn win_rate(&self) -> (r: i64)
        ensures
            self.spec_closed().len() == 0 ==> r == 0,
            self.spec_closed().len() > 0 ==> r as int == count_wins(self.spec_closed()) * scale()
                / (self.spec_closed().len() as int),
    {
        let n = self.closed_positions.len();
        if n == 0 {
            return 0;
        }
        let mut wins: usize = 0;
        let mut i: usize = 0;
        while i < n
            invariant
                0 <= i <= n,
                n == self.spec_closed().len(),
                wins as int == count_wins(self.spec_closed().take(i as int)),
                wins <= i,
            decreases n - i,
        {
            proof {
                assert(self.spec_closed().take(i + 1).drop_last() =~= self.spec_closed().take(
                    i as int,
                ));
                assert(self.spec_closed().take(i + 1).last() == self.spec_closed()[i as int]);
            }
            if self.closed_positions[i].realized_pnl > 0 {
                wins = wins + 1;
            }
            i = i + 1;
        }
        proof {
            assert(self.spec_closed().take(n as int) =~= self.spec_closed());
            vstd::arithmetic::div_mod::lemma_div_pos_is_pos(
                (wins as int) * scale(),
                n as int,
            );
            assert((wins as int) * scale() >= 0) by (nonlinear_arith)
                requires
                    wins >= 0,
            ;
            assert((wins as int) * scale() <= (n as int) * scale()) by (nonlinear_arith)
                requires
                    0 <= wins as int <= n as int,
            ;
            vstd::arithmetic::div_mod::lemma_div_is_ordered(
                (wins as int) * scale(),
                (n as int) * scale(),
                n as int,
            );
            vstd::arithmetic::div_mod::lemma_div_multiples_vanish(scale(), n as int);
        }
        (((wins as i128) * (crate::num::SCALE as i128)) / (n as i128)) as i64
    }

    /// Mean realized profit per closed position, truncating toward zero;
    /// zero with no closed positions.
    pub fn average_trade_pnl(&self) -> (r: i64)
        ensures
            self.spec_closed().len() == 0 ==> r == 0,
            self.spec_closed().len() > 0 ==> r as int == tdiv(
                self.spec_total_realized(),
                self.spec_closed().len() as int,
            ),
    {
        let n = self.closed_positions.len();
        if n == 0 {
            return 0;
        }
        proof {
            crate::num::lemma_tdiv_bound(
                self.spec_total_realized(),
                n as int,
                0x8000_0000_0000_0000,
            );
            assert(-((n as int) * 0x8000_0000_0000_0000) <= self.spec_total_realized() <= (n as int)
                * 0x8000_0000_0000_0000) by (nonlinear_arith)
                requires
                    n >= 1,
                    -0x8000_0000_0000_0000 <= self.spec_total_realized() <= 0x8000_0000_0000_0000,
            ;
        }
        tdiv_i128(self.total_realized_pnl as i128, n as i128) as i64
    }
}

/// Price listed for a symbol, if any.
fn lookup_price(prices: &[(String, i64)], sym: &str) -> (r: Option<i64>)
    ensures
        r == find_price(prices@, sym@, 0),
{
    let n = prices.len();
    let mut i: usize = 0;
    while i < n
        invariant
            0 <= i <= n,
            n == prices@.len(),
            find_price(prices@, sym@, 0) == find_price(prices@, sym@, i as int),
        decreases n - i,
    {
        let entry = vstd::slice::slice_index_get(prices, i);
        if str_eq(entry.0.as_str(), sym) {
            return Some(entry.1);
        }
        i = i + 1;
    }
    None
}

} // verus!
