//! Request signing for the exchange's authenticated REST endpoints: a
//! signed query string carrying every parameter, a timestamp, and an
//! HMAC-SHA256 signature over the whole query.

use vstd::prelude::*;
use vstd::string::StringExecFns;
use hmac::{Hmac, KeyInit, Mac};
use sha2::Sha256;

verus! {

/// The lowercase hex HMAC-SHA256 digest of `msg` under `key`: a function of
/// the two strings alone.
pub uninterp spec fn hmac_sha256_hex(key: Seq<char>, msg: Seq<char>) -> Seq<char>;

/// Relies on `hmac`'s `Hmac<Sha256>` (whose key setup accepts any key
/// length) and `hex::encode`: the digest is 32 bytes, so the lowercase hex
/// encoding is 64 characters, and it depends on the key and message alone.
#[verifier::external_body]
pub fn generate_signature(secret_key: &str, query_string: &str) -> (r: String)
    ensures
        r@ == hmac_sha256_hex(secret_key@, query_string@),
        r@.len() == 64,
{
    let mut mac = <Hmac<Sha256> as KeyInit>::new_from_slice(secret_key.as_bytes())
        .expect("HMAC accepts keys of any length");
    mac.update(query_string.as_bytes());
    hex::encode(mac.finalize().into_bytes())
}

/// Milliseconds since the Unix epoch, by the platform clock.
pub fn get_timestamp() -> u64 {
    crate::clock::now_millis()
}

/// The decimal digit character for `d < 10`.
pub open spec fn digit_char(d: nat) -> char {
    if d == 0 {
        '0'
    } else if d == 1 {
        '1'
    } else if d == 2 {
        '2'
    } else if d == 3 {
        '3'
    } else if d == 4 {
        '4'
    } else if d == 5 {
        '5'
    } else if d == 6 {
        '6'
    } else if d == 7 {
        '7'
    } else if d == 8 {
        '8'
    } else {
        '9'
    }
}

/// The decimal digits of `n`, most significant first.
pub open spec fn dec_digits(n: nat) -> Seq<char>
    decreases n,
{
    if n < 10 {
        seq![digit_char(n)]
    } else {
        dec_digits(n / 10).push(digit_char(n % 10))
    }
}

/// One digit as a string slice.
fn digit_str(d: u64) -> (r: &'static str)
    requires
        d < 10,
    ensures
        r@ == seq![digit_char(d as nat)],
{
    proof {
        reveal_strlit("0");
        reveal_strlit("1");
        reveal_strlit("2");
        reveal_strlit("3");
        reveal_strlit("4");
        reveal_strlit("5");
        reveal_strlit("6");
        reveal_strlit("7");
        reveal_strlit("8");
        reveal_strlit("9");
    }
    let r = match d {
        0 => "0",
        1 => "1",
        2 => "2",
        3 => "3",
        4 => "4",
        5 => "5",
        6 => "6",
        7 => "7",
        8 => "8",
        _ => "9",
    };
    proof {
        assert(r@ =~= seq![digit_char(d as nat)]);
    }
    r
}

/// The decimal representation of `n`.
pub fn u64_to_string(n: u64) -> (r: String)
    ensures
        r@ == dec_digits(n as nat),
    decreases n,
{
    if n < 10 {
        <String as StringExecFns>::from_str(digit_str(n))
    } else {
        let mut s = u64_to_string(n / 10);
        s.append(digit_str(n % 10));
        proof {
            assert(s@ =~= dec_digits(n as nat));
        }
        s
    }
}

/// `key=value` for one parameter.
pub open spec fn kv_of(p: (&str, &str)) -> Seq<char> {
    p.0@ + "="@ + p.1@
}

/// The parameters joined with `&`.
pub open spec fn joined_params(ps: Seq<(&str, &str)>) -> Seq<char>
    decreases ps.len(),
{
    if ps.len() == 0 {
        Seq::empty()
    } else if ps.len() == 1 {
        kv_of(ps[0])
    } else {
        joined_params(ps.drop_last()) + "&"@ + kv_of(ps.last())
    }
}

/// The query before signing: the joined parameters plus the timestamp.
pub open spec fn query_of(ps: Seq<(&str, &str)>, ts: nat) -> Seq<char> {
    if ps.len() == 0 {
        "timestamp="@ + dec_digits(ts)
    } else {
        joined_params(ps) + "&timestamp="@ + dec_digits(ts)
    }
}

/// The full signed query: the query, then `&signature=` and the
/// HMAC-SHA256 of the query under the secret key.
pub open spec fn signed_query_of(ps: Seq<(&str, &str)>, secret: Seq<char>, ts: nat) -> Seq<char> {
    query_of(ps, ts) + "&signature="@ + hmac_sha256_hex(secret, query_of(ps, ts))
}

/// Builds the signed query for one timestamp.
pub fn build_signed_query_at(params: &[(&str, &str)], secret_key: &str, timestamp: u64) -> (r:
    String)
    ensures
        r@ == signed_query_of(params@, secret_key@, timestamp as nat),
{
    let n = params.len();
    let mut q = String::new();
    let mut i: usize = 0;
    proof {
        assert(q@ =~= joined_params(params@.take(0)));
    }
    while i < n
        invariant
            0 <= i <= n,
            n == params@.len(),
            q@ == joined_params(params@.take(i as int)),
        decreases n - i,
    {
        proof {
            assert(params@.take(i + 1).drop_last() =~= params@.take(i as int));
            assert(params@.take(i + 1).last() == params@[i as int]);
        }
        let p = vstd::slice::slice_index_get(params, i);
        if i > 0 {
            q.append("&");
        }
        q.append(p.0);
        q.append("=");
        q.append(p.1);
        proof {
            if i == 0 {
                assert(q@ =~= joined_params(params@.take(1)));
            } else {
                assert(q@ =~= joined_params(params@.take(i + 1)));
            }
        }
        i = i + 1;
    }
    proof {
        assert(params@.take(n as int) =~= params@);
    }
    if n > 0 {
        q.append("&");
    }
    q.append("timestamp=");
    let ts = u64_to_string(timestamp);
    q.append(ts.as_str());
    proof {
        reveal_strlit("&");
        reveal_strlit("timestamp=");
        reveal_strlit("&timestamp=");
        assert("&"@ + "timestamp="@ =~= "&timestamp="@);
        assert(q@ =~= query_of(params@, timestamp as nat));
    }
    let signature = generate_signature(secret_key, q.as_str());
    q.append("&signature=");
    q.append(signature.as_str());
    proof {
        assert(q@ =~= signed_query_of(params@, secret_key@, timestamp as nat));
    }
    q
}

/// Builds the signed query at the current wall-clock timestamp: exactly
/// [`build_signed_query_at`] for whatever instant the clock returned.
pub fn build_signed_query(params: &[(&str, &str)], secret_key: &str) -> (r: String)
    ensures
        exists|ts: u64| r@ == #[trigger] signed_query_of(params@, secret_key@, ts as nat),
{
    let timestamp = get_timestamp();
    build_signed_query_at(params, secret_key, timestamp)
}

} // verus!
