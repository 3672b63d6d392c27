//! The `X-Post-Id` header, used to return the identifier of a message that
//! has just been posted.
//!
//! When a message is posted it receives an identifier, which clients use
//! as the post reference. So that a client can easily tell which id its
//! own post was given, the board returns the id in this header.

use crate::digits::{dec_digits, u64_to_dec};
use vstd::prelude::*;

verus! {

/// Whether `b` is an ASCII decimal digit byte.
pub open spec fn is_digit_byte(b: u8) -> bool {
    48 <= b <= 57
}

/// Whether every byte of `s` is an ASCII decimal digit.
pub open spec fn all_digit_bytes(s: Seq<u8>) -> bool {
    forall|i: int| 0 <= i < s.len() ==> is_digit_byte(#[trigger] s[i])
}

/// The number denoted by a sequence of ASCII decimal digit bytes.
pub open spec fn byte_dec_value(s: Seq<u8>) -> int
    decreases s.len(),
{
    if s.len() == 0 {
        0
    } else {
        byte_dec_value(s.drop_last()) * 10 + (s.last() - 48)
    }
}

/// A digit byte string denotes a number that is not negative.
pub proof fn lemma_byte_dec_value_nonneg(s: Seq<u8>)
    requires
        all_digit_bytes(s),
    ensures
        byte_dec_value(s) >= 0,
    decreases s.len(),
{
    if s.len() > 0 {
        assert(all_digit_bytes(s.drop_last()));
        lemma_byte_dec_value_nonneg(s.drop_last());
    }
}

/// A digit byte string denotes at least what any of its prefixes denotes.
pub proof fn lemma_byte_dec_value_prefix(s: Seq<u8>, k: int)
    requires
        all_digit_bytes(s),
        0 <= k <= s.len(),
    ensures
        byte_dec_value(s.take(k)) <= byte_dec_value(s),
    decreases s.len(),
{
    if k == s.len() {
        assert(s.take(k) =~= s);
    } else {
        assert(all_digit_bytes(s.drop_last()));
        assert(s.take(k) =~= s.drop_last().take(k));
        lemma_byte_dec_value_prefix(s.drop_last(), k);
        lemma_byte_dec_value_nonneg(s.drop_last());
    }
}

/// The digit part of a header value: the bytes after one optional leading
/// plus sign.
pub open spec fn header_digits(s: Seq<u8>) -> Seq<u8> {
    if s.len() > 0 && s[0] == 43 {
        s.drop_first()
    } else {
        s
    }
}

/// The post id denoted by a raw header value: present exactly when the
/// value is a single element holding an optional plus sign and then at
/// least one decimal digit and nothing else, denoting a number that fits
/// in a `u64`.
pub open spec fn spec_parse_post_id(raw: Seq<Seq<u8>>) -> Option<u64> {
    if raw.len() == 1 {
        let d = header_digits(raw[0]);
        if d.len() >= 1 && all_digit_bytes(d) && byte_dec_value(d) <= u64::MAX {
            Some(byte_dec_value(d) as u64)
        } else {
            None
        }
    } else {
        None
    }
}

/// A raw header value that does not denote a post id.
#[derive(Clone, Copy, Debug, PartialEq, Eq, Structural)]
pub enum HeaderError {
    Header,
}

/// The `X-Post-Id` header value: the identifier given to a posted message.
#[derive(Clone, Copy, Debug, PartialEq, Eq, Structural)]
pub struct XPostId(pub u64);

impl XPostId {
    /// The name of the header.
    pub fn header_name() -> (r: &'static str)
        ensures
            r@ == "X-Post-Id"@,
    {
        "X-Post-Id"
    }

    /// Parses a raw header value: it must be a single element holding an
    /// optional plus sign and then one or more decimal digits, denoting a
    /// number that fits in a `u64`.
    #[verifier::loop_isolation(false)]
    pub fn parse_header(p_raw_value: &Vec<Vec<u8>>) -> (r: Result<XPostId, HeaderError>)
        ensures
            r matches Ok(x) ==> spec_parse_post_id(p_raw_value.deep_view()) == Some(x.0),
            r is Err <==> spec_parse_post_id(p_raw_value.deep_view()) is None,
    {
        if p_raw_value.len() != 1 {
            return Err(HeaderError::Header);
        }
        let v: &Vec<u8> = &p_raw_value[0];
        proof {
            assert(p_raw_value.deep_view()[0] == v@);
        }
        let n = v.len();
        let start: usize = if n > 0 && v[0] == 43 {
            1
        } else {
            0
        };
        let ghost d = header_digits(v@);
        proof {
            assert(d =~= v@.subrange(start as int, n as int));
        }
        if n == start {
            return Err(HeaderError::Header);
        }
        for i in start..n
            invariant
                all_digit_bytes(v@.subrange(start as int, i as int)),
        {
            let b = v[i];
            if b < 48 || b > 57 {
                proof {
                    assert(d[i - start] == v@[i as int]);
                    assert(!all_digit_bytes(d));
                }
                return Err(HeaderError::Header);
            }
            proof {
                assert(v@.subrange(start as int, i + 1).drop_last() =~= v@.subrange(
                    start as int,
                    i as int,
                ));
                assert(v@.subrange(start as int, i + 1).last() == v@[i as int]);
            }
        }
        proof {
            assert(all_digit_bytes(d));
        }
        let mut acc: u64 = 0;
        for i in start..n
            invariant
                acc == byte_dec_value(v@.subrange(start as int, i as int)),
        {
            let b = v[i];
            proof {
                assert(d[i - start] == v@[i as int]);
                assert(v@.subrange(start as int, i + 1).drop_last() =~= v@.subrange(
                    start as int,
                    i as int,
                ));
                assert(v@.subrange(start as int, i + 1).last() == v@[i as int]);
                assert(d.take(i + 1 - start) =~= v@.subrange(start as int, i + 1));
            }
            let acc10 = match acc.checked_mul(10) {
                Some(x) => x,
                None => {
                    proof {
                        lemma_byte_dec_value_prefix(d, i + 1 - start);
                    }
                    return Err(HeaderError::Header);
                },
            };
            acc = match acc10.checked_add((b - 48) as u64) {
                Some(x) => x,
                None => {
                    proof {
                        lemma_byte_dec_value_prefix(d, i + 1 - start);
                    }
                    return Err(HeaderError::Header);
                },
            };
        }
        proof {
            assert(v@.subrange(start as int, n as int) =~= d);
        }
        Ok(XPostId(acc))
    }

    /// Renders the header value: the id written in decimal.
    pub fn fmt_header(&self) -> (r: String)
        ensures
            r@ == dec_digits(self.0 as int),
    {
        u64_to_dec(self.0)
    }
}

} // verus!
