use vstd::prelude::*;

verus! {

/// Every byte XORed with a single key byte.
pub open spec fn xor_one_spec(s: Seq<u8>, key: u8) -> Seq<u8> {
    s.map_values(|b: u8| b ^ key)
}

/// Every byte XORed with the key byte at its index, the key repeating.
pub open spec fn xor_many_spec(s: Seq<u8>, key: Seq<u8>) -> Seq<u8>
    recommends
        key.len() > 0,
{
    Seq::new(s.len(), |i: int| s[i] ^ key[i % (key.len() as int)])
}

/// One byte rotated left by `k` bit positions, `0 <= k < 8`.
pub open spec fn rotl_byte(b: u8, k: u8) -> u8
    recommends
        k < 8,
{
    if k == 0 {
        b
    } else {
        (b << k) | (b >> ((8 - k) as u8))
    }
}

/// Every byte rotated left by `k` bit positions, independently of its neighbours.
pub open spec fn rotl_spec(s: Seq<u8>, k: u8) -> Seq<u8>
    recommends
        k < 8,
{
    s.map_values(|b: u8| rotl_byte(b, k))
}

/// The sequence with all trailing `pad` bytes removed.
pub open spec fn strip_right_spec(s: Seq<u8>, pad: u8) -> Seq<u8>
    decreases s.len(),
{
    if s.len() == 0 {
        s
    } else if s.last() == pad {
        strip_right_spec(s.drop_last(), pad)
    } else {
        s
    }
}

/// Index of the first occurrence of `t` in `s`, if any.
pub open spec fn find_byte(s: Seq<u8>, t: u8) -> Option<int>
    decreases s.len(),
{
    if s.len() == 0 {
        None
    } else if s[0] == t {
        Some(0)
    } else {
        match find_byte(s.subrange(1, s.len() as int), t) {
            Some(i) => Some(i + 1),
            None => None,
        }
    }
}

/// What `find_byte` returns is the first occurrence: the byte there is `t`
/// and no byte before it is.
pub proof fn lemma_find_byte(s: Seq<u8>, t: u8)
    ensures
        match find_byte(s, t) {
            Some(i) => 0 <= i < s.len() && s[i] == t && (forall|j: int| 0 <= j < i ==> s[j] != t),
            None => forall|j: int| 0 <= j < s.len() ==> s[j] != t,
        },
    decreases s.len(),
{
    if s.len() == 0 {
    } else if s[0] == t {
    } else {
        let tail = s.subrange(1, s.len() as int);
        lemma_find_byte(tail, t);
        match find_byte(tail, t) {
            Some(i) => {
                assert(s[i + 1] == tail[i]);
                assert forall|j: int| 0 <= j < i + 1 implies s[j] != t by {
                    if j > 0 {
                        assert(s[j] == tail[j - 1]);
                    }
                }
            },
            None => {
                assert forall|j: int| 0 <= j < s.len() implies s[j] != t by {
                    if j > 0 {
                        assert(s[j] == tail[j - 1]);
                    }
                }
            },
        }
    }
}

/// Converse direction: an occurrence at `i` with nothing before it pins
/// `find_byte` to `Some(i)`.
pub proof fn lemma_find_byte_at(s: Seq<u8>, t: u8, i: int)
    requires
        0 <= i < s.len(),
        s[i] == t,
        forall|j: int| 0 <= j < i ==> s[j] != t,
    ensures
        find_byte(s, t) == Some(i),
    decreases s.len(),
{
    if i == 0 {
    } else {
        let tail = s.subrange(1, s.len() as int);
        assert(forall|j: int| 0 <= j < i - 1 ==> tail[j] == s[j + 1]);
        lemma_find_byte_at(tail, t, i - 1);
    }
}

/// Converse direction: no occurrence at all pins `find_byte` to `None`.
pub proof fn lemma_find_byte_none(s: Seq<u8>, t: u8)
    requires
        forall|j: int| 0 <= j < s.len() ==> s[j] != t,
    ensures
        find_byte(s, t) is None,
    decreases s.len(),
{
    if s.len() > 0 {
        let tail = s.subrange(1, s.len() as int);
        assert(forall|j: int| 0 <= j < tail.len() ==> tail[j] == s[j + 1]);
        lemma_find_byte_none(tail, t);
    }
}

proof fn lemma_xor_byte_involution(b: u8, k: u8)
    by (bit_vector)
    ensures
        (b ^ k) ^ k == b,
{
}

/// Law: XORing with one key byte twice gives back the input, for any data
/// and any key.
pub proof fn lemma_xor_one_involution(s: Seq<u8>, key: u8)
    ensures
        xor_one_spec(xor_one_spec(s, key), key) == s,
{
    let once = xor_one_spec(s, key);
    let twice = xor_one_spec(once, key);
    assert forall|i: int| 0 <= i < s.len() implies twice[i] == s[i] by {
        lemma_xor_byte_involution(s[i], key);
    }
    assert(twice =~= s);
}

proof fn lemma_rotl_byte_round_trip(b: u8, a: u8, back: u8)
    by (bit_vector)
    requires
        a < 8,
        back == (8 - a) % 8,
    ensures
        rotl_byte(rotl_byte(b, a), back) == b,
{
}

/// Law: rotating every byte left by `a` and then by `(8 - a) % 8` gives back
/// the input, for any data and any `a` in `[0, 8)`.
pub proof fn lemma_rotate_left_round_trip(s: Seq<u8>, a: u8)
    requires
        a < 8,
    ensures
        rotl_spec(rotl_spec(s, a), ((8 - a) % 8) as u8) == s,
{
    let back = ((8 - a) % 8) as u8;
    let once = rotl_spec(s, a);
    let twice = rotl_spec(once, back);
    assert forall|i: int| 0 <= i < s.len() implies twice[i] == s[i] by {
        lemma_rotl_byte_round_trip(s[i], a, back);
    }
    assert(twice =~= s);
}

/// Return a byte array that is sized to exclude all trailing instances of the
/// padding byte.
pub fn bytes_strip_right(bytes: &Vec<u8>, pad: u8) -> (r: Vec<u8>)
    ensures
        r@ == strip_right_spec(bytes@, pad),
{
    proof {
        assert(bytes@.subrange(0, bytes@.len() as int) =~= bytes@);
    }
    let mut end: usize = bytes.len();
    while end > 0 && bytes[end - 1] == pad
        invariant
            end <= bytes@.len(),
            strip_right_spec(bytes@.subrange(0, end as int), pad) == strip_right_spec(bytes@, pad),
        decreases end,
    {
        proof {
            let cur = bytes@.subrange(0, end as int);
            assert(cur.drop_last() =~= bytes@.subrange(0, end - 1));
        }
        end = end - 1;
    }
    let mut r: Vec<u8> = Vec::new();
    let mut i: usize = 0;
    while i < end
        invariant
            i <= end <= bytes@.len(),
            r@ =~= bytes@.subrange(0, i as int),
        decreases end - i,
    {
        r.push(bytes[i]);
        i = i + 1;
    }
    proof {
        let cur = bytes@.subrange(0, end as int);
        assert(r@ =~= cur);
        if end > 0 {
            assert(strip_right_spec(cur, pad) == cur);
        } else {
            assert(cur =~= Seq::<u8>::empty());
        }
    }
    r
}

/// Return a byte array that contains all bytes up until the termination byte,
/// or the whole input when the terminator does not occur. Can optionally
/// include the termination byte as well.
pub fn bytes_terminate(bytes: &Vec<u8>, term: u8, include_term: bool) -> (r: Vec<u8>)
    ensures
        match find_byte(bytes@, term) {
            Some(i) => r@ == bytes@.subrange(0, i + (if include_term { 1int } else { 0int })),
            None => r@ == bytes@,
        },
{
    let mut r: Vec<u8> = Vec::new();
    let mut i: usize = 0;
    while i < bytes.len()
        invariant
            i <= bytes@.len(),
            r@ =~= bytes@.subrange(0, i as int),
            forall|j: int| 0 <= j < i ==> bytes@[j] != term,
        decreases bytes@.len() - i,
    {
        let b = bytes[i];
        if b == term {
            proof {
                lemma_find_byte_at(bytes@, term, i as int);
            }
            if include_term {
                r.push(b);
                proof {
                    assert(r@ =~= bytes@.subrange(0, i + 1));
                }
            }
            return r;
        }
        r.push(b);
        i = i + 1;
    }
    proof {
        lemma_find_byte_none(bytes@, term);
        assert(r@ =~= bytes@);
    }
    r
}

/// XOR every byte of the input with a single key byte.
pub fn process_xor_one(bytes: &Vec<u8>, key: u8) -> (r: Vec<u8>)
    ensures
        r@ == xor_one_spec(bytes@, key),
{
    let mut r: Vec<u8> = Vec::new();
    let mut i: usize = 0;
    while i < bytes.len()
        invariant
            i <= bytes@.len(),
            r@.len() == i,
            forall|j: int| 0 <= j < i ==> r@[j] == bytes@[j] ^ key,
        decreases bytes@.len() - i,
    {
        r.push(bytes[i] ^ key);
        i = i + 1;
    }
    proof {
        assert(r@ =~= xor_one_spec(bytes@, key));
    }
    r
}

/// XOR every byte of the input with the key byte at its index, repeating the
/// key when the input is longer than the key.
pub fn process_xor_many(bytes: &Vec<u8>, key: &[u8]) -> (r: Vec<u8>)
    requires
        key@.len() > 0,
    ensures
        r@ == xor_many_spec(bytes@, key@),
{
    let mut r: Vec<u8> = Vec::new();
    let mut ki: usize = 0;
    let mut i: usize = 0;
    while i < bytes.len()
        invariant
            i <= bytes@.len(),
            key@.len() > 0,
            ki < key@.len(),
            ki == i as int % (key@.len() as int),
            r@.len() == i,
            forall|j: int| 0 <= j < i ==> r@[j] == bytes@[j] ^ key@[j % (key@.len() as int)],
        decreases bytes@.len() - i,
    {
        r.push(bytes[i] ^ key[ki]);
        proof {
            let len = key@.len() as int;
            vstd::arithmetic::div_mod::lemma_fundamental_div_mod(i as int, len);
            let q = i as int / len;
            assert(len * q == q * len && (q + 1) * len == q * len + len) by (nonlinear_arith);
            if ki + 1 < len {
                vstd::arithmetic::div_mod::lemma_fundamental_div_mod_converse(
                    i + 1,
                    len,
                    q,
                    ki + 1,
                );
            } else {
                vstd::arithmetic::div_mod::lemma_fundamental_div_mod_converse(
                    i + 1,
                    len,
                    q + 1,
                    0,
                );
            }
        }
        ki = ki + 1;
        if ki >= key.len() {
            ki = 0;
        }
        i = i + 1;
    }
    proof {
        assert(r@ =~= xor_many_spec(bytes@, key@));
    }
    r
}

/// Rotate each byte's bits left by `amount % 8` positions; bytes do not
/// affect their neighbours.
pub fn process_rotate_left(bytes: &Vec<u8>, amount: u8) -> (r: Vec<u8>)
    ensures
        r@ == rotl_spec(bytes@, amount % 8),
{
    let k: u8 = amount % 8;
    let mut r: Vec<u8> = Vec::new();
    let mut i: usize = 0;
    while i < bytes.len()
        invariant
            i <= bytes@.len(),
            k == amount % 8,
            r@.len() == i,
            forall|j: int| 0 <= j < i ==> r@[j] == rotl_byte(bytes@[j], k),
        decreases bytes@.len() - i,
    {
        let b = bytes[i];
        let rotated: u8 = if k == 0 {
            b
        } else {
            (b << k) | (b >> (8 - k))
        };
        r.push(rotated);
        i = i + 1;
    }
    proof {
        assert(r@ =~= rotl_spec(bytes@, k));
    }
    r
}

/// Remainder that is always non-negative, matching mathematical modulo
/// rather than the truncating remainder of `%`.
pub fn modulo(a: i64, b: i64) -> (r: i64)
    requires
        b != 0,
        !(a == i64::MIN && b == -1),
    ensures
        r == (a as int) % (b as int),
{
    a.checked_rem_euclid(b).unwrap()
}

} // verus!
