//! Ethereum addresses and block-number parameters, as they arrive in text.

use crate::error::Error;
use crate::hex::{all_hex, hex_digit, hex_value, spec_hex_digit};
use crate::num::u64_limit;
use vstd::prelude::*;

verus! {

/// A 20-byte Ethereum address (the bytes of a lock's first argument).
#[derive(Debug, Clone, PartialEq, Eq, Hash)]
pub struct EthAddress(pub Vec<u8>);

impl Default for EthAddress {
    fn default() -> (r: EthAddress)
        ensures
            r.0@ == Seq::new(20, |i: int| 0u8),
    {
        let r = EthAddress(vec![0u8; 20]);
        assert(r.0@ =~= Seq::new(20, |i: int| 0u8));
        r
    }
}

/// The byte written by two hexadecimal digits.
pub open spec fn hex_pair(hi: char, lo: char) -> u8 {
    (spec_hex_digit(hi).unwrap_or(0) * 16 + spec_hex_digit(lo).unwrap_or(0)) as u8
}

/// The address written as `0x` and 40 hexadecimal digits, if `s` is one.
pub open spec fn spec_parse_address(s: Seq<char>) -> Option<Seq<u8>> {
    if s.len() == 42 && s[0] == '0' && s[1] == 'x' && all_hex(s.skip(2)) {
        Some(Seq::new(20, |i: int| hex_pair(s[2 + 2 * i], s[3 + 2 * i])))
    } else {
        None
    }
}

impl EthAddress {
    /// Parses `0x` followed by 40 hexadecimal digits.
    pub fn parse(s: &str) -> (r: Result<EthAddress, Error>)
        ensures
            r is Ok <==> spec_parse_address(s@) is Some,
            r matches Ok(a) ==> spec_parse_address(s@) == Some(a.0@),
            r matches Err(e) ==> e is MalformedData,
    {
        let n = s.unicode_len();
        if n != 42 || s.get_char(0) != '0' || s.get_char(1) != 'x' {
            return Err(Error::malformed("Invalid ETH address"));
        }
        let mut b: Vec<u8> = Vec::new();
        let mut i: usize = 0;
        while i < 20
            invariant
                s@.len() == 42,
                s@[0] == '0' && s@[1] == 'x',
                i <= 20,
                b@.len() == i,
                forall|k: int| 0 <= k < 2 * i ==> (#[trigger] spec_hex_digit(s@[2 + k])) is Some,
                forall|k: int| 0 <= k < i ==> b@[k] == hex_pair(s@[2 + 2 * k], s@[3 + 2 * k]),
            decreases 20 - i,
        {
            let hi = hex_digit(s.get_char(2 + 2 * i));
            let lo = hex_digit(s.get_char(3 + 2 * i));
            match (hi, lo) {
                (Some(h), Some(l)) => {
                    proof {
                        assert(spec_hex_digit(s@[2 + 2 * i + 1]) is Some);
                    }
                    b.push(h * 16 + l);
                },
                _ => {
                    proof {
                        let t = s@.skip(2);
                        if hi is None {
                            assert(spec_hex_digit(t[2 * i as int]) is None);
                        } else {
                            assert(spec_hex_digit(t[2 * i + 1]) is None);
                        }
                    }
                    return Err(Error::malformed("Invalid ETH address"));
                },
            }
            i = i + 1;
        }
        proof {
            let t = s@.skip(2);
            assert forall|k: int| 0 <= k < t.len() implies (#[trigger] spec_hex_digit(t[k])) is Some by {
                assert(t[k] == s@[2 + k]);
            }
            assert(b@ =~= Seq::new(20, |k: int| hex_pair(s@[2 + 2 * k], s@[3 + 2 * k])));
        }
        Ok(EthAddress(b))
    }
}

/// A block given as a parameter: the latest indexed one, or a height.
#[derive(Debug, Clone, Copy, PartialEq, Eq)]
pub enum BlockNumber {
    Latest,
    Number(u64),
}

/// The height written by the hexadecimal digits `d`: at least one digit,
/// with a value that fits in `u64`.
pub open spec fn spec_parse_hex_height(d: Seq<char>) -> Option<u64> {
    if d.len() > 0 && all_hex(d) && hex_value(d) < u64_limit() {
        Some(hex_value(d) as u64)
    } else {
        None
    }
}

/// What a block parameter means: `latest`, or `0x` and a hexadecimal height
/// whose first digit is not `0`.
pub open spec fn spec_parse_block_number(s: Seq<char>) -> Option<BlockNumber> {
    if s == seq!['l', 'a', 't', 'e', 's', 't'] {
        Some(BlockNumber::Latest)
    } else if s.len() >= 2 && s[0] == '0' && s[1] == 'x' && !(s.len() >= 3 && s[2] == '0') {
        match spec_parse_hex_height(s.skip(2)) {
            Some(n) => Some(BlockNumber::Number(n)),
            None => None,
        }
    } else {
        None
    }
}

proof fn lemma_hex_value_prefix(d: Seq<char>, k: int)
    requires
        0 <= k <= d.len(),
    ensures
        hex_value(d.take(k)) <= hex_value(d),
    decreases d.len() - k,
{
    if k < d.len() {
        lemma_hex_value_prefix(d.drop_last(), k);
        assert(d.drop_last().take(k) =~= d.take(k));
    } else {
        assert(d.take(k) =~= d);
    }
}

/// Parses the hexadecimal digits of `s` from position `start` on.
#[verifier::loop_isolation(false)]
fn parse_hex_height(s: &str, start: usize) -> (r: Option<u64>)
    requires
        start <= s@.len(),
    ensures
        r == spec_parse_hex_height(s@.skip(start as int)),
{
    let n = s.unicode_len();
    let ghost d = s@.skip(start as int);
    if start == n {
        return None;
    }
    let mut v: u64 = 0;
    let mut i: usize = start;
    while i < n
        invariant
            start <= i <= n,
            n == s@.len(),
            d == s@.skip(start as int),
            all_hex(d.take(i - start)),
            v as nat == hex_value(d.take(i - start)),
        decreases n - i,
    {
        let c = s.get_char(i);
        let ghost k = i - start;
        assert(d[k] == c);
        assert(d.take(k + 1).drop_last() =~= d.take(k));
        match hex_digit(c) {
            None => {
                proof {
                    assert(!all_hex(d)) by {
                        assert(spec_hex_digit(d[k]) is None);
                    }
                }
                return None;
            },
            Some(x) => {
                let m = v.checked_mul(16);
                let next = match m {
                    Some(m) => m.checked_add(x as u64),
                    None => None,
                };
                match next {
                    Some(w) => {
                        v = w;
                    },
                    None => {
                        proof {
                            lemma_hex_value_prefix(d, k + 1);
                            crate::num::lemma_pow256_known();
                            assert(hex_value(d.take(k + 1)) == v * 16 + x);
                            assert(hex_value(d.take(k + 1)) >= u64_limit());
                        }
                        return None;
                    },
                }
            },
        }
        i = i + 1;
        proof {
            assert forall|j: int| 0 <= j < d.take(i - start).len() implies (#[trigger] spec_hex_digit(d.take(i - start)[j])) is Some by {
                if j < k {
                    assert(d.take(i - start)[j] == d.take(k)[j]);
                }
            }
        }
    }
    proof {
        assert(d.take(n - start) =~= d);
        crate::num::lemma_pow256_known();
    }
    Some(v)
}

impl BlockNumber {
    /// Parses `latest` or a `0x`-prefixed hexadecimal height without a
    /// leading zero digit.
    pub fn parse(s: &str) -> (r: Result<BlockNumber, Error>)
        ensures
            r is Ok <==> spec_parse_block_number(s@) is Some,
            r matches Ok(b) ==> spec_parse_block_number(s@) == Some(b),
            r matches Err(e) ==> (e matches Error::MalformedData(m) && m@ == "Invalid block number"@),
    {
        let n = s.unicode_len();
        if n == 6 && s.get_char(0) == 'l' && s.get_char(1) == 'a' && s.get_char(2) == 't'
            && s.get_char(3) == 'e' && s.get_char(4) == 's' && s.get_char(5) == 't' {
            assert(s@ =~= seq!['l', 'a', 't', 'e', 's', 't']);
            return Ok(BlockNumber::Latest);
        }
        assert(s@ != seq!['l', 'a', 't', 'e', 's', 't']) by {
            if s@ == seq!['l', 'a', 't', 'e', 's', 't'] {
                assert(s@.len() == 6);
            }
        }
        if n >= 2 && s.get_char(0) == '0' && s.get_char(1) == 'x' && !(n >= 3 && s.get_char(2) == '0') {
            match parse_hex_height(s, 2) {
                Some(v) => Ok(BlockNumber::Number(v)),
                None => Err(Error::malformed("Invalid block number")),
            }
        } else {
            Err(Error::malformed("Invalid block number"))
        }
    }

    /// Parses an optional block parameter; an absent one means `latest`.
    pub fn parse_with_default(s: &Option<String>) -> (r: Result<BlockNumber, Error>)
        ensures
            s is None ==> r == Ok::<BlockNumber, Error>(BlockNumber::Latest),
            s matches Some(t) ==> (r is Ok <==> spec_parse_block_number(t@) is Some),
            s matches Some(t) ==> (r matches Ok(b) ==> spec_parse_block_number(t@) == Some(b)),
            r matches Err(e) ==> (e matches Error::MalformedData(m) && m@ == "Invalid block number"@),
    {
        match s {
            Some(t) => BlockNumber::parse(t.as_str()),
            None => Ok(BlockNumber::Latest),
        }
    }
}

} // verus!
