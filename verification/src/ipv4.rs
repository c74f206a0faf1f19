//! Textual IPv4 addresses: parsing a dotted quad such as `"228.0.0.1"`
//! into its four octets.  The accepted grammar is four decimal octets
//! separated by dots, each at most 255, written without leading zeros;
//! parsing succeeds exactly on that grammar.

use vstd::prelude::*;
use vstd::slice::slice_to_vec;
use vstd::string::*;

verus! {

/// True when the byte is an ASCII decimal digit.
pub open spec fn spec_is_digit(b: u8) -> bool {
    48 <= b <= 57
}

/// The value of an ASCII decimal numeral, most significant digit first.
pub open spec fn spec_dec_value(s: Seq<u8>) -> int
    decreases s.len(),
{
    if s.len() == 0 {
        0
    } else {
        spec_dec_value(s.drop_last()) * 10 + (s.last() - 48)
    }
}

/// True when `s` writes one octet: one to three digits, no leading zero,
/// value at most 255.
pub open spec fn spec_valid_octet_text(s: Seq<u8>) -> bool {
    &&& 1 <= s.len() <= 3
    &&& forall|i: int| 0 <= i < s.len() ==> spec_is_digit(#[trigger] s[i])
    &&& (s.len() > 1 ==> s[0] != 48)
    &&& spec_dec_value(s) <= 255
}

/// True when `s` is a dotted quad with its dots at `p1 < p2 < p3` and a
/// valid octet between and around them.
pub open spec fn spec_ipv4_fields(s: Seq<u8>, p1: int, p2: int, p3: int) -> bool {
    &&& 0 <= p1 < p2 < p3 < s.len()
    &&& s[p1] == 46 && s[p2] == 46 && s[p3] == 46
    &&& spec_valid_octet_text(s.subrange(0, p1))
    &&& spec_valid_octet_text(s.subrange(p1 + 1, p2))
    &&& spec_valid_octet_text(s.subrange(p2 + 1, p3))
    &&& spec_valid_octet_text(s.subrange(p3 + 1, s.len() as int))
}

/// True when `s` is a dotted quad.
pub open spec fn spec_is_ipv4_text(s: Seq<u8>) -> bool {
    exists|p1: int, p2: int, p3: int| spec_ipv4_fields(s, p1, p2, p3)
}

/// In a dotted quad the dot byte occurs exactly at the three separator
/// positions: everything else is a digit.
proof fn lemma_ipv4_fields_dots(s: Seq<u8>, p1: int, p2: int, p3: int)
    requires
        spec_ipv4_fields(s, p1, p2, p3),
    ensures
        forall|i: int| 0 <= i < s.len() ==> ((s[i] == 46) <==> (i == p1 || i == p2 || i == p3)),
{
    assert forall|i: int| 0 <= i < s.len() implies ((s[i] == 46) <==> (i == p1 || i == p2 || i
        == p3)) by {
        if i != p1 && i != p2 && i != p3 {
            if i < p1 {
                assert(s.subrange(0, p1)[i] == s[i]);
            } else if i < p2 {
                assert(s.subrange(p1 + 1, p2)[i - p1 - 1] == s[i]);
            } else if i < p3 {
                assert(s.subrange(p2 + 1, p3)[i - p2 - 1] == s[i]);
            } else {
                assert(s.subrange(p3 + 1, s.len() as int)[i - p3 - 1] == s[i]);
            }
            assert(spec_is_digit(s[i]));
        }
    }
}

/// Reads the octet written at `bytes[start..end]`; `None` exactly when
/// that segment is not a valid octet numeral.
fn check_octet(bytes: &Vec<u8>, start: usize, end: usize) -> (r: Option<u8>)
    requires
        start <= end <= bytes@.len(),
    ensures
        r is Some <==> spec_valid_octet_text(bytes@.subrange(start as int, end as int)),
        r matches Some(v) ==> v == spec_dec_value(bytes@.subrange(start as int, end as int)),
{
    let ghost seg = bytes@.subrange(start as int, end as int);
    let seg_len = end - start;
    if seg_len < 1 || seg_len > 3 {
        return None;
    }
    if seg_len > 1 && bytes[start] == 48 {
        proof {
            assert(seg[0] == bytes@[start as int]);
        }
        return None;
    }
    let mut v: u32 = 0;
    let mut i: usize = start;
    while i < end
        invariant
            start <= i <= end,
            end <= bytes@.len(),
            end - start <= 3,
            seg == bytes@.subrange(start as int, end as int),
            forall|k: int| start <= k < i ==> spec_is_digit(#[trigger] bytes@[k]),
            v == spec_dec_value(bytes@.subrange(start as int, i as int)),
            i - start == 0 ==> v == 0,
            i - start <= 1 ==> v <= 9,
            i - start <= 2 ==> v <= 99,
            v <= 999,
        decreases end - i,
    {
        let b = bytes[i];
        if b < 48 || b > 57 {
            proof {
                assert(seg[i - start] == bytes@[i as int]);
                assert(!spec_is_digit(seg[i - start]));
            }
            return None;
        }
        proof {
            assert(bytes@.subrange(start as int, i + 1).drop_last() =~= bytes@.subrange(
                start as int,
                i as int,
            ));
            assert(bytes@.subrange(start as int, i + 1).last() == bytes@[i as int]);
        }
        v = v * 10 + ((b - 48) as u32);
        i = i + 1;
    }
    if v > 255 {
        return None;
    }
    proof {
        assert forall|k: int| 0 <= k < seg.len() implies spec_is_digit(#[trigger] seg[k]) by {
            assert(seg[k] == bytes@[start + k]);
        }
        if seg.len() > 1 {
            assert(seg[0] == bytes@[start as int]);
        }
    }
    Some(v as u8)
}

/// Parses a dotted-quad IPv4 address into its four octets.  The result
/// is `Some` exactly when the text matches the grammar, and then each
/// component carries the value of its numeral.
pub fn parse_ipv4(s: &str) -> (r: Option<(u8, u8, u8, u8)>)
    ensures
        match r {
            Some(q) => exists|p1: int, p2: int, p3: int|
                {
                    &&& #[trigger] spec_ipv4_fields(s.spec_bytes(), p1, p2, p3)
                    &&& q.0 == spec_dec_value(s.spec_bytes().subrange(0, p1))
                    &&& q.1 == spec_dec_value(s.spec_bytes().subrange(p1 + 1, p2))
                    &&& q.2 == spec_dec_value(s.spec_bytes().subrange(p2 + 1, p3))
                    &&& q.3 == spec_dec_value(
                        s.spec_bytes().subrange(p3 + 1, s.spec_bytes().len() as int),
                    )
                },
            None => !spec_is_ipv4_text(s.spec_bytes()),
        },
{
    let bytes = slice_to_vec(s.as_bytes());
    let n = bytes.len();
    let mut dots: Vec<usize> = Vec::new();
    let mut i: usize = 0;
    while i < n
        invariant
            i <= n,
            n == bytes@.len(),
            forall|k: int|
                0 <= k < dots@.len() ==> 0 <= #[trigger] dots@[k] < i && bytes@[dots@[k] as int]
                    == 46,
            forall|k: int|
                0 <= k < i ==> (bytes@[k] == 46 <==> exists|j: int|
                    0 <= j < dots@.len() && #[trigger] dots@[j] == k),
            forall|a: int, b: int| 0 <= a < b < dots@.len() ==> dots@[a] < dots@[b],
        decreases n - i,
    {
        let ghost dots0 = dots@;
        if bytes[i] == 46 {
            dots.push(i);
            proof {
                assert(dots@[dots@.len() - 1] == i);
                assert forall|k: int|
                    0 <= k < i + 1 implies (bytes@[k] == 46 <==> exists|j: int|
                        0 <= j < dots@.len() && #[trigger] dots@[j] == k) by {
                    if k == i {
                        assert(dots@[dots@.len() - 1] == k);
                    } else if bytes@[k] == 46 {
                        let j = choose|j: int| 0 <= j < dots0.len() && dots0[j] == k;
                        assert(dots@[j] == k);
                    } else if exists|j: int| 0 <= j < dots@.len() && dots@[j] == k {
                        let j = choose|j: int| 0 <= j < dots@.len() && dots@[j] == k;
                        assert(j < dots0.len());
                        assert(dots0[j] == k);
                        assert(false);
                    }
                }
            }
        } else {
            proof {
                assert forall|k: int|
                    0 <= k < i + 1 implies (bytes@[k] == 46 <==> exists|j: int|
                        0 <= j < dots@.len() && #[trigger] dots@[j] == k) by {
                    if k == i && (exists|j: int| 0 <= j < dots@.len() && dots@[j] == k) {
                        let j = choose|j: int| 0 <= j < dots@.len() && dots@[j] == k;
                        assert(dots@[j] < i);
                        assert(false);
                    }
                }
            }
        }
        i = i + 1;
    }
    if dots.len() != 3 {
        proof {
            if spec_is_ipv4_text(bytes@) {
                let (p1, p2, p3) = choose|p1: int, p2: int, p3: int|
                    spec_ipv4_fields(bytes@, p1, p2, p3);
                lemma_ipv4_fields_dots(bytes@, p1, p2, p3);
                let j1 = choose|j: int| 0 <= j < dots@.len() && dots@[j] == p1;
                let j2 = choose|j: int| 0 <= j < dots@.len() && dots@[j] == p2;
                let j3 = choose|j: int| 0 <= j < dots@.len() && dots@[j] == p3;
                assert(j1 != j2 && j2 != j3 && j1 != j3);
                assert(dots@.len() >= 3);
                assert(dots@.len() >= 4);
                assert(dots@[0] == p1 || dots@[0] == p2 || dots@[0] == p3);
                assert(dots@[1] == p1 || dots@[1] == p2 || dots@[1] == p3);
                assert(dots@[2] == p1 || dots@[2] == p2 || dots@[2] == p3);
                assert(dots@[3] == p1 || dots@[3] == p2 || dots@[3] == p3);
                assert(dots@[0] < dots@[1] < dots@[2] < dots@[3]);
                assert(false);
            }
        }
        return None;
    }
    let d1 = dots[0];
    let d2 = dots[1];
    let d3 = dots[2];
    proof {
        assert(dots@[0] < dots@[1] < dots@[2]);
    }
    let o1 = check_octet(&bytes, 0, d1);
    let o2 = check_octet(&bytes, d1 + 1, d2);
    let o3 = check_octet(&bytes, d2 + 1, d3);
    let o4 = check_octet(&bytes, d3 + 1, n);
    match (o1, o2, o3, o4) {
        (Some(a), Some(b), Some(c), Some(d)) => {
            proof {
                assert(spec_ipv4_fields(bytes@, d1 as int, d2 as int, d3 as int));
            }
            Some((a, b, c, d))
        },
        _ => {
            proof {
                if spec_is_ipv4_text(bytes@) {
                    let (p1, p2, p3) = choose|p1: int, p2: int, p3: int|
                        spec_ipv4_fields(bytes@, p1, p2, p3);
                    lemma_ipv4_fields_dots(bytes@, p1, p2, p3);
                    let j1 = choose|j: int| 0 <= j < dots@.len() && dots@[j] == p1;
                    let j2 = choose|j: int| 0 <= j < dots@.len() && dots@[j] == p2;
                    let j3 = choose|j: int| 0 <= j < dots@.len() && dots@[j] == p3;
                    assert(dots@[0] == p1 || dots@[0] == p2 || dots@[0] == p3);
                    assert(dots@[1] == p1 || dots@[1] == p2 || dots@[1] == p3);
                    assert(dots@[2] == p1 || dots@[2] == p2 || dots@[2] == p3);
                    assert(d1 == p1 && d2 == p2 && d3 == p3);
                    assert(spec_valid_octet_text(bytes@.subrange(0, d1 as int)));
                    assert(spec_valid_octet_text(bytes@.subrange(d1 + 1, d2 as int)));
                    assert(spec_valid_octet_text(bytes@.subrange(d2 + 1, d3 as int)));
                    assert(spec_valid_octet_text(bytes@.subrange(d3 + 1, n as int)));
                    assert(false);
                }
            }
            None
        },
    }
}

} // verus!
