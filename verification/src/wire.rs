//! Exchange stream and order messages, and the decimal-string parsing that
//! turns their price and quantity fields into fixed-point values.
//!
//! A decimal string is unsigned digits with an optional fraction of up to
//! four digits (the fixed-point resolution); anything else, or a value
//! beyond the representable range, parses to nothing.

use vstd::prelude::*;
use vstd::string::StringSliceAdditionalSpecFns;
use crate::num::scale;
use crate::types::{Side, Trade};

verus! {

/// Whether the byte is an ASCII digit.
pub open spec fn is_digit_b(b: u8) -> bool {
    48 <= b <= 57
}

/// Whether every byte is an ASCII digit.
pub open spec fn all_digits(s: Seq<u8>) -> bool {
    forall|i: int| 0 <= i < s.len() ==> is_digit_b(#[trigger] s[i])
}

/// Value of a digit string, most significant first.
pub open spec fn digits_val(s: Seq<u8>) -> int
    decreases s.len(),
{
    if s.len() == 0 {
        0
    } else {
        digits_val(s.drop_last()) * 10 + (s.last() - 48)
    }
}

/// Index of the first occurrence of `x` from `j` on; `-1` when absent.
pub open spec fn find_byte(s: Seq<u8>, x: u8, j: int) -> int
    decreases s.len() - j,
{
    if j < 0 || j >= s.len() {
        -1
    } else if s[j] == x {
        j
    } else {
        find_byte(s, x, j + 1)
    }
}

/// Powers of ten.
pub open spec fn pow10(k: nat) -> int
    decreases k,
{
    if k == 0 {
        1
    } else {
        10 * pow10((k - 1) as nat)
    }
}

/// The fixed-point value denoted by a decimal byte string: an unsigned
/// integer part, optionally a dot and one to four fraction digits, scaled
/// by [`crate::num::SCALE`]; nothing on any other shape or when the value
/// does not fit.
pub open spec fn parse_fixed_spec(s: Seq<u8>) -> Option<i64> {
    let d = find_byte(s, 46, 0);
    let ip = if d == -1 {
        s
    } else {
        s.take(d)
    };
    let fp = if d == -1 {
        Seq::<u8>::empty()
    } else {
        s.skip(d + 1)
    };
    if ip.len() >= 1 && all_digits(ip) && (d == -1 || (1 <= fp.len() <= 4 && all_digits(fp))) {
        let v = digits_val(ip) * scale() + digits_val(fp) * pow10((4 - fp.len()) as nat);
        if v <= i64::MAX {
            Some(v as i64)
        } else {
            None
        }
    } else {
        None
    }
}

/// Digit-string values are non-negative.
proof fn lemma_digits_nonneg(s: Seq<u8>)
    requires
        all_digits(s),
    ensures
        digits_val(s) >= 0,
    decreases s.len(),
{
    if s.len() > 0 {
        let t = s.drop_last();
        assert(forall|i: int| 0 <= i < t.len() ==> is_digit_b(#[trigger] t[i]));
        lemma_digits_nonneg(t);
        assert(digits_val(t) * 10 >= 0) by (nonlinear_arith)
            requires
                digits_val(t) >= 0,
        ;
    }
}

/// A digit-string prefix never exceeds the whole string's value.
proof fn lemma_digits_prefix_le(s: Seq<u8>, i: int)
    requires
        all_digits(s),
        0 <= i <= s.len(),
    ensures
        digits_val(s.take(i)) <= digits_val(s),
    decreases s.len(),
{
    if i == s.len() {
        assert(s.take(i) =~= s);
    } else {
        let t = s.drop_last();
        assert(forall|k: int| 0 <= k < t.len() ==> is_digit_b(#[trigger] t[k]));
        assert(s.take(i) =~= t.take(i));
        lemma_digits_prefix_le(t, i);
        lemma_digits_nonneg(t);
        assert(digits_val(t) * 10 + (s.last() - 48) >= digits_val(t)) by (nonlinear_arith)
            requires
                digits_val(t) >= 0,
                s.last() >= 48,
        ;
    }
}

/// Parses a digit run into a wide accumulator, or reports the first
/// offending byte or an overflow.
fn digits_of(b: &[u8], from: usize, to: usize) -> (r: Option<i128>)
    requires
        0 <= from <= to <= b@.len(),
    ensures
        r matches Some(v) ==> all_digits(b@.subrange(from as int, to as int)) && v == digits_val(
            b@.subrange(from as int, to as int),
        ) && 0 <= v <= i64::MAX,
        r is None ==> !all_digits(b@.subrange(from as int, to as int)) || digits_val(
            b@.subrange(from as int, to as int),
        ) > i64::MAX,
{
    let ghost whole = b@.subrange(from as int, to as int);
    let mut acc: i128 = 0;
    let mut i: usize = from;
    while i < to
        invariant
            from <= i <= to,
            to <= b@.len(),
            whole == b@.subrange(from as int, to as int),
            all_digits(b@.subrange(from as int, i as int)),
            acc == digits_val(b@.subrange(from as int, i as int)),
            0 <= acc <= i64::MAX,
        decreases to - i,
    {
        let c = *vstd::slice::slice_index_get(b, i);
        proof {
            assert(b@.subrange(from as int, i + 1).drop_last() =~= b@.subrange(
                from as int,
                i as int,
            ));
            assert(b@.subrange(from as int, i + 1).last() == b@[i as int]);
        }
        if c < 48 || c > 57 {
            proof {
                assert(whole[i - from] == b@[i as int]);
                assert(!is_digit_b(whole[i - from]));
            }
            return None;
        }
        proof {
            assert forall|k: int|
                0 <= k < b@.subrange(from as int, i + 1).len() implies is_digit_b(
                #[trigger] b@.subrange(from as int, i + 1)[k],
            ) by {
                if k < i - from {
                    assert(b@.subrange(from as int, i + 1)[k] == b@.subrange(
                        from as int,
                        i as int,
                    )[k]);
                }
            }
        }
        acc = acc * 10 + ((c - 48) as i128);
        if acc > i64::MAX as i128 {
            proof {
                // the value only grows with more digits
                assert forall|k: int|
                    0 <= k < whole.len() implies is_digit_b(#[trigger] whole[k]) || !all_digits(
                    whole,
                ) by {}
                if all_digits(whole) {
                    assert(whole.take(i + 1 - from) =~= b@.subrange(from as int, i + 1));
                    lemma_digits_prefix_le(whole, i + 1 - from);
                }
            }
            return None;
        }
        i = i + 1;
    }
    proof {
        assert(b@.subrange(from as int, to as int) =~= whole);
    }
    Some(acc)
}

/// Parses a decimal string to its fixed-point value; see
/// [`parse_fixed_spec`].
pub fn parse_fixed(s: &str) -> (r: Option<i64>)
    ensures
        r == parse_fixed_spec(s.spec_bytes()),
{
    let b = s.as_bytes();
    let n = b.len();
    let ghost bv = b@;

    // find the dot
    let mut dot: usize = n;
    let mut i: usize = 0;
    while i < n
        invariant_except_break
            0 <= i <= n,
            dot == n,
            n == bv.len(),
            bv == b@,
            find_byte(bv, 46, 0) == find_byte(bv, 46, i as int),
        ensures
            n == bv.len(),
            bv == b@,
            dot <= n,
            dot == n ==> find_byte(bv, 46, 0) == -1,
            dot < n ==> find_byte(bv, 46, 0) == dot as int,
        decreases n - i,
    {
        if *vstd::slice::slice_index_get(b, i) == 46 {
            dot = i;
            proof {
                assert(bv[i as int] == 46);
                assert(find_byte(bv, 46, i as int) == i as int);
            }
            break ;
        }
        i = i + 1;
    }
    let ghost d = find_byte(bv, 46, 0);
    proof {
        if dot == n {
            assert(find_byte(bv, 46, n as int) == -1);
        }
    }

    let ip_end: usize = if dot < n {
        dot
    } else {
        n
    };
    if ip_end == 0 {
        return None;
    }
    let ip = match digits_of(b, 0, ip_end) {
        Some(v) => v,
        None => {
            proof {
                if dot == n {
                    assert(bv.subrange(0, ip_end as int) =~= bv);
                } else {
                    assert(bv.subrange(0, ip_end as int) =~= bv.take(d));
                }
                if digits_val(bv.subrange(0, ip_end as int)) > i64::MAX {
                    lemma_combined_too_big(bv, d);
                }
            }
            return None;
        },
    };
    proof {
        if dot == n {
            assert(bv.subrange(0, ip_end as int) =~= bv);
        } else {
            assert(bv.subrange(0, ip_end as int) =~= bv.take(d));
        }
    }

    let (fracv, fpow): (i128, i128) = if dot < n {
        let flen = n - dot - 1;
        if flen < 1 || flen > 4 {
            return None;
        }
        let fv = match digits_of(b, dot + 1, n) {
            Some(v) => v,
            None => {
                proof {
                    assert(bv.subrange(dot + 1, n as int) =~= bv.skip(d + 1));
                    assert(!all_digits(bv.skip(d + 1))) by {
                        if all_digits(bv.subrange(dot + 1, n as int)) {
                            lemma_small_digits_fit(bv.subrange(dot + 1, n as int));
                            lemma_pow10_small();
                            let fl = bv.subrange(dot + 1, n as int).len();
                            assert(fl <= 4);
                            assert(pow10(fl as nat) <= 10000) by {
                                if fl == 0 {
                                } else if fl == 1 {
                                } else if fl == 2 {
                                } else if fl == 3 {
                                } else {
                                    assert(fl == 4);
                                }
                            }
                        }
                    }
                }
                return None;
            },
        };
        proof {
            assert(bv.subrange(dot + 1, n as int) =~= bv.skip(d + 1));
        }
        let p: i128 = if flen == 1 {
            1000
        } else if flen == 2 {
            100
        } else if flen == 3 {
            10
        } else {
            1
        };
        proof {
            lemma_pow10_small();
            assert(pow10((4 - bv.skip(d + 1).len()) as nat) == p as int);
        }
        (fv, p)
    } else {
        (0, 1)
    };

    proof {
        if dot == n {
            // no fraction: both the spec's contribution and ours are zero
            lemma_pow10_small();
            assert(digits_val(Seq::<u8>::empty()) == 0);
            assert(digits_val(Seq::<u8>::empty()) * pow10(4) == 0) by (nonlinear_arith)
                requires
                    digits_val(Seq::<u8>::empty()) == 0,
            ;
        }
        assert(0 <= fracv * fpow <= 10_000 * (i64::MAX as int)) by (nonlinear_arith)
            requires
                0 <= fracv <= i64::MAX as int,
                1 <= fpow <= 1000,
        ;
        assert(0 <= ip * 10_000 <= 10_000 * (i64::MAX as int)) by (nonlinear_arith)
            requires
                0 <= ip <= i64::MAX as int,
        ;
    }
    let v: i128 = ip * 10_000i128 + fracv * fpow;
    if v > i64::MAX as i128 {
        None
    } else {
        Some(v as i64)
    }
}

/// A short digit string's value stays below the matching power of ten, so
/// a `None` from the digit scan of a fraction can only mean a bad byte.
proof fn lemma_small_digits_fit(s: Seq<u8>)
    requires
        all_digits(s),
    ensures
        0 <= digits_val(s) < pow10(s.len() as nat),
    decreases s.len(),
{
    if s.len() == 0 {
        assert(pow10(0) == 1);
    } else {
        let t = s.drop_last();
        assert(forall|i: int| 0 <= i < t.len() ==> is_digit_b(#[trigger] t[i]));
        lemma_small_digits_fit(t);
        assert(pow10(s.len() as nat) == 10 * pow10(t.len() as nat));
        assert(0 <= digits_val(t) * 10 + (s.last() - 48) < 10 * pow10(t.len() as nat))
            by (nonlinear_arith)
            requires
                0 <= digits_val(t) < pow10(t.len() as nat),
                48 <= s.last() <= 57,
        ;
    }
}

/// If the integer part alone exceeds the cap, so does the whole value.
proof fn lemma_combined_too_big(s: Seq<u8>, d: int)
    ensures
        ({
            let ip = if d == -1 {
                s
            } else {
                s.take(d)
            };
            let fp = if d == -1 {
                Seq::<u8>::empty()
            } else {
                s.skip(d + 1)
            };
            (all_digits(ip) && all_digits(fp) && digits_val(ip) > i64::MAX) ==> digits_val(ip)
                * scale() + digits_val(fp) * pow10((4 - fp.len()) as nat) > i64::MAX
        }),
{
    let ip = if d == -1 {
        s
    } else {
        s.take(d)
    };
    let fp = if d == -1 {
        Seq::<u8>::empty()
    } else {
        s.skip(d + 1)
    };
    if all_digits(ip) && all_digits(fp) && digits_val(ip) > i64::MAX {
        lemma_digits_nonneg(fp);
        lemma_pow10_pos((4 - fp.len()) as nat);
        assert(digits_val(ip) * scale() > i64::MAX) by (nonlinear_arith)
            requires
                digits_val(ip) > i64::MAX,
        ;
        assert(digits_val(fp) * pow10((4 - fp.len()) as nat) >= 0) by (nonlinear_arith)
            requires
                digits_val(fp) >= 0,
                pow10((4 - fp.len()) as nat) >= 1,
        ;
    }
}

/// The small powers of ten, unfolded.
proof fn lemma_pow10_small()
    ensures
        pow10(0) == 1,
        pow10(1) == 10,
        pow10(2) == 100,
        pow10(3) == 1000,
        pow10(4) == 10000,
{
    assert(pow10(0) == 1);
    assert(pow10(1) == 10);
    assert(pow10(2) == 100);
    assert(pow10(3) == 1000);
    assert(pow10(4) == 10000);
}

/// Powers of ten are positive.
proof fn lemma_pow10_pos(k: nat)
    ensures
        pow10(k) >= 1,
    decreases k,
{
    if k > 0 {
        lemma_pow10_pos((k - 1) as nat);
    }
}

/// An exchange depth-update message: price and quantity arrive as decimal
/// strings.
#[derive(Clone, Debug)]
pub struct DepthUpdate {
    pub event_type: String,
    pub event_time: u64,
    pub symbol: String,
    pub first_update_id: u64,
    pub final_update_id: u64,
    pub bids: Vec<(String, String)>,
    pub asks: Vec<(String, String)>,
}

/// The parse of a list of `(price, quantity)` string levels: levels whose
/// strings both parse, in order; the rest are dropped.
pub open spec fn parse_levels(ls: Seq<(String, String)>) -> Seq<(i64, i64)>
    decreases ls.len(),
{
    if ls.len() == 0 {
        Seq::empty()
    } else {
        let rest = parse_levels(ls.drop_last());
        let l = ls.last();
        match (parse_fixed_spec(vstd::utf8::encode_utf8(l.0@)), parse_fixed_spec(
            vstd::utf8::encode_utf8(l.1@),
        )) {
            (Some(p), Some(q)) => rest.push((p, q)),
            _ => rest,
        }
    }
}

impl DepthUpdate {
    /// Parses the bid levels into fixed-point pairs, dropping malformed
    /// levels.
    pub fn parse_bids(&self) -> (r: Vec<(i64, i64)>)
        ensures
            r@ == parse_levels(self.bids@),
    {
        parse_level_vec(&self.bids)
    }

    /// Parses the ask levels into fixed-point pairs, dropping malformed
    /// levels.
    pub fn parse_asks(&self) -> (r: Vec<(i64, i64)>)
        ensures
            r@ == parse_levels(self.asks@),
    {
        parse_level_vec(&self.asks)
    }
}

/// Parses every level whose two strings both parse.
fn parse_level_vec(ls: &Vec<(String, String)>) -> (r: Vec<(i64, i64)>)
    ensures
        r@ == parse_levels(ls@),
{
    let n = ls.len();
    let mut out: Vec<(i64, i64)> = Vec::new();
    let mut i: usize = 0;
    proof {
        assert(ls@.take(0) =~= Seq::<(String, String)>::empty());
    }
    while i < n
        invariant
            0 <= i <= n,
            n == ls@.len(),
            out@ == parse_levels(ls@.take(i as int)),
        decreases n - i,
    {
        proof {
            assert(ls@.take(i + 1).drop_last() =~= ls@.take(i as int));
            assert(ls@.take(i + 1).last() == ls@[i as int]);
        }
        let l = &ls[i];
        let p = parse_fixed(l.0.as_str());
        let q = parse_fixed(l.1.as_str());
        match (p, q) {
            (Some(pv), Some(qv)) => {
                out.push((pv, qv));
            },
            _ => {},
        }
        i = i + 1;
    }
    proof {
        assert(ls@.take(n as int) =~= ls@);
    }
    out
}

/// An exchange aggregated-trade message.
#[derive(Clone, Debug)]
pub struct AggTrade {
    pub event_type: String,
    pub event_time: u64,
    pub symbol: String,
    pub agg_trade_id: u64,
    pub price: String,
    pub quantity: String,
    pub first_trade_id: u64,
    pub last_trade_id: u64,
    pub trade_time: u64,
    pub is_buyer_maker: bool,
}

impl AggTrade {
    /// Converts to a [`Trade`]: the taker side is the seller when the buyer
    /// was the maker; nothing when a decimal field does not parse.
    pub fn to_trade(&self) -> (r: Option<Trade>)
        ensures
            ({
                let p = parse_fixed_spec(vstd::utf8::encode_utf8(self.price@));
                let q = parse_fixed_spec(vstd::utf8::encode_utf8(self.quantity@));
                match (p, q) {
                    (Some(pv), Some(qv)) => r == Some(
                        Trade {
                            id: self.agg_trade_id,
                            price: pv,
                            quantity: qv,
                            side: if self.is_buyer_maker {
                                Side::Sell
                            } else {
                                Side::Buy
                            },
                            timestamp_ms: self.trade_time,
                            is_buyer_maker: self.is_buyer_maker,
                        },
                    ),
                    _ => r is None,
                }
            }),
    {
        let p = match parse_fixed(self.price.as_str()) {
            Some(v) => v,
            None => {
                return None;
            },
        };
        let q = match parse_fixed(self.quantity.as_str()) {
            Some(v) => v,
            None => {
                return None;
            },
        };
        let side = if self.is_buyer_maker {
            Side::Sell
        } else {
            Side::Buy
        };
        Some(
            Trade {
                id: self.agg_trade_id,
                price: p,
                quantity: q,
                side,
                timestamp_ms: self.trade_time,
                is_buyer_maker: self.is_buyer_maker,
            },
        )
    }
}

/// An order acknowledgement from the exchange's REST API.
#[derive(Clone, Debug)]
pub struct OrderResponse {
    pub order_id: u64,
    pub symbol: String,
    pub client_order_id: String,
    pub price: String,
    pub orig_qty: String,
    pub executed_qty: String,
    pub status: String,
    pub time_in_force: String,
    pub order_type: String,
    pub side: String,
    pub update_time: u64,
}

/// A message from the exchange's combined stream.
#[derive(Clone, Debug)]
pub enum BinanceMessage {
    DepthUpdate(DepthUpdate),
    AggTrade(AggTrade),
}

/// An event handed to the trading loop by the market-data transport.
#[derive(Clone, Debug)]
pub enum MarketEvent {
    DepthUpdate(DepthUpdate),
    Trade(Trade),
    Connected,
    Disconnected,
}

} // verus!
