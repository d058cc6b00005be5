//! Byte-level text utilities: ASCII lowercasing, substring search,
//! whitespace tokenization, prefix tests, and a 64-bit FNV-1a hash.
//!
//! Query matching works over the byte sequences of the stored strings, with
//! ASCII-insensitive case folding.

use vstd::prelude::*;
use vstd::string::StringSliceAdditionalSpecFns;

verus! {

/// ASCII whitespace, as the tokenizer splits on it.
pub open spec fn is_ws(b: u8) -> bool {
    b == 32 || b == 9 || b == 10 || b == 13
}

/// ASCII lowercasing of one byte.
pub open spec fn lower_byte(b: u8) -> u8 {
    if 65 <= b && b <= 90 {
        (b + 32) as u8
    } else {
        b
    }
}

/// ASCII lowercasing of a byte sequence.
pub open spec fn lower_bytes(s: Seq<u8>) -> Seq<u8> {
    s.map_values(|b: u8| lower_byte(b))
}

/// `needle` occurs contiguously inside `hay`.
pub open spec fn is_sub(hay: Seq<u8>, needle: Seq<u8>) -> bool {
    exists|i: int|
        0 <= i && i + needle.len() <= hay.len() && #[trigger] hay.subrange(i, i + needle.len())
            == needle
}

/// Length of the leading whitespace-free run of `s`.
pub open spec fn run_len(s: Seq<u8>) -> nat
    decreases s.len(),
{
    if s.len() == 0 || is_ws(s[0]) {
        0
    } else {
        1 + run_len(s.drop_first())
    }
}

pub proof fn lemma_run_len_bounds(s: Seq<u8>)
    ensures
        run_len(s) <= s.len(),
        s.len() > 0 && !is_ws(s[0]) ==> run_len(s) >= 1,
    decreases s.len(),
{
    if s.len() > 0 && !is_ws(s[0]) {
        lemma_run_len_bounds(s.drop_first());
    }
}

/// The whitespace-separated tokens of `s`, in order.
pub open spec fn spec_tokens(s: Seq<u8>) -> Seq<Seq<u8>>
    decreases s.len(),
        via spec_tokens_decreases
{
    if s.len() == 0 {
        Seq::empty()
    } else if is_ws(s[0]) {
        spec_tokens(s.drop_first())
    } else {
        seq![s.subrange(0, run_len(s) as int)] + spec_tokens(
            s.subrange(run_len(s) as int, s.len() as int),
        )
    }
}

#[via_fn]
proof fn spec_tokens_decreases(s: Seq<u8>) {
    lemma_run_len_bounds(s);
}

/// `pre` is a prefix of `s`.
pub open spec fn is_prefix(s: Seq<u8>, pre: Seq<u8>) -> bool {
    pre.len() <= s.len() && s.subrange(0, pre.len() as int) == pre
}

pub fn lower_vec(s: &[u8]) -> (r: Vec<u8>)
    ensures
        r@ == lower_bytes(s@),
{
    let mut out: Vec<u8> = Vec::new();
    let mut i: usize = 0;
    while i < s.len()
        invariant
            i <= s@.len(),
            out@ == lower_bytes(s@.subrange(0, i as int)),
        decreases s@.len() - i,
    {
        let b = s[i];
        if 65 <= b && b <= 90 {
            out.push(b + 32);
        } else {
            out.push(b);
        }
        i = i + 1;
        proof {
            assert(s@.subrange(0, i as int).map_values(|x: u8| lower_byte(x)) =~= s@.subrange(
                0,
                i - 1,
            ).map_values(|x: u8| lower_byte(x)).push(lower_byte(s@[i - 1])));
        }
    }
    proof {
        assert(s@.subrange(0, s@.len() as int) =~= s@);
    }
    out
}

/// Whether the bytes of `hay` starting at `at` equal `needle`.
fn matches_at(hay: &[u8], needle: &[u8], at: usize) -> (r: bool)
    requires
        at + needle@.len() <= hay@.len(),
    ensures
        r == (hay@.subrange(at as int, at + needle@.len()) == needle@),
{
    let hl = hay.len();
    let mut j: usize = 0;
    while j < needle.len()
        invariant
            j <= needle@.len(),
            at + needle@.len() <= hay@.len(),
            hay@.len() == hl,
            forall|k: int| 0 <= k < j ==> hay@[at + k] == needle@[k],
        decreases needle@.len() - j,
    {
        if hay[at + j] != needle[j] {
            proof {
                assert(hay@.subrange(at as int, at + needle@.len())[j as int] != needle@[j as int]);
            }
            return false;
        }
        j = j + 1;
    }
    proof {
        assert(hay@.subrange(at as int, at + needle@.len()) =~= needle@);
    }
    true
}

pub fn contains_bytes(hay: &[u8], needle: &[u8]) -> (r: bool)
    ensures
        r == is_sub(hay@, needle@),
{
    if needle.len() > hay.len() {
        return false;
    }
    if needle.len() == 0 {
        proof {
            assert(hay@.subrange(0, 0 + needle@.len() as int) =~= needle@);
        }
        return true;
    }
    let hl = hay.len();
    let mut i: usize = 0;
    let last = hay.len() - needle.len();
    while i <= last
        invariant
            1 <= needle@.len() <= hay@.len(),
            hay@.len() == hl,
            last == hay@.len() - needle@.len(),
            i <= last + 1,
            forall|k: int|
                0 <= k < i ==> #[trigger] hay@.subrange(k, k + needle@.len()) != needle@,
        decreases last + 1 - i,
    {
        if matches_at(hay, needle, i) {
            return true;
        }
        i = i + 1;
    }
    false
}

/// Length of the leading whitespace-free run starting at `i`.
fn run_len_from(s: &[u8], i: usize) -> (r: usize)
    requires
        i <= s@.len(),
    ensures
        r == run_len(s@.subrange(i as int, s@.len() as int)),
        i + r <= s@.len(),
    decreases s@.len() - i,
{
    if i == s.len() {
        return 0;
    }
    let b = s[i];
    if b == 32 || b == 9 || b == 10 || b == 13 {
        proof {
            assert(s@.subrange(i as int, s@.len() as int)[0] == s@[i as int]);
        }
        0
    } else {
        let rest = run_len_from(s, i + 1);
        proof {
            assert(s@.subrange(i as int, s@.len() as int).drop_first() =~= s@.subrange(
                i + 1,
                s@.len() as int,
            ));
            assert(s@.subrange(i as int, s@.len() as int)[0] == s@[i as int]);
        }
        rest + 1
    }
}

fn tokens_from(s: &[u8], i: usize) -> (r: Vec<Vec<u8>>)
    requires
        i <= s@.len(),
    ensures
        r.deep_view() == spec_tokens(s@.subrange(i as int, s@.len() as int)),
    decreases s@.len() - i,
{
    if i == s.len() {
        let r: Vec<Vec<u8>> = Vec::new();
        proof {
            assert(s@.subrange(i as int, s@.len() as int) =~= Seq::<u8>::empty());
            assert(r.deep_view() =~= Seq::<Seq<u8>>::empty());
        }
        return r;
    }
    let ghost tail = s@.subrange(i as int, s@.len() as int);
    proof {
        assert(tail[0] == s@[i as int]);
        assert(tail.drop_first() =~= s@.subrange(i + 1, s@.len() as int));
    }
    let b = s[i];
    if b == 32 || b == 9 || b == 10 || b == 13 {
        tokens_from(s, i + 1)
    } else {
        let k = run_len_from(s, i);
        let mut tok: Vec<u8> = Vec::new();
        let mut j: usize = i;
        while j < i + k
            invariant
                i + k <= s@.len(),
                s@.len() <= usize::MAX,
                i <= j <= i + k,
                tok@ == s@.subrange(i as int, j as int),
            decreases i + k - j,
        {
            tok.push(s[j]);
            proof {
                assert(s@.subrange(i as int, j + 1) =~= s@.subrange(i as int, j as int).push(
                    s@[j as int],
                ));
            }
            j = j + 1;
        }
        let ghost first_tok = s@.subrange(i as int, i + run_len(tail));
        let mut out = tokens_from(s, i + k);
        let ghost rest_dv = out.deep_view();
        out.insert(0, tok);
        proof {
            lemma_run_len_bounds(tail);
            assert(tail.subrange(run_len(tail) as int, tail.len() as int) =~= s@.subrange(
                i + run_len(tail),
                s@.len() as int,
            ));
            assert(tail.subrange(0, run_len(tail) as int) =~= first_tok);
            assert(out.deep_view()[0] =~= first_tok);
            assert forall|q: int| 1 <= q < out.deep_view().len() implies out.deep_view()[q]
                == rest_dv[q - 1] by {
                assert(out@[q].deep_view() =~= rest_dv[q - 1]);
            }
            assert(out.deep_view() =~~= spec_tokens(tail));
        }
        out
    }
}

/// The whitespace-separated tokens of `s`.
pub fn tokens(s: &[u8]) -> (r: Vec<Vec<u8>>)
    ensures
        r.deep_view() == spec_tokens(s@),
{
    let r = tokens_from(s, 0);
    proof {
        assert(s@.subrange(0, s@.len() as int) =~= s@);
    }
    r
}

pub fn starts_with(s: &[u8], pre: &[u8]) -> (r: bool)
    ensures
        r == is_prefix(s@, pre@),
{
    if pre.len() > s.len() {
        return false;
    }
    matches_at(s, pre, 0)
}

/// FNV-1a offset basis.
pub const FNV_OFFSET: u64 = 0xcbf29ce484222325;

/// FNV-1a prime.
pub const FNV_PRIME: u64 = 0x100000001b3;

/// One FNV-1a step: xor the byte in, multiply by the prime modulo 2^64.
pub open spec fn fnv_step(h: u64, b: u8) -> u64 {
    (((h ^ (b as u64)) as nat * FNV_PRIME as nat) % 0x10000000000000000) as u64
}

/// FNV-1a over the first `n` bytes of `s`.
pub open spec fn fnv_prefix(s: Seq<u8>, n: int) -> u64
    decreases n,
{
    if n <= 0 {
        FNV_OFFSET
    } else {
        fnv_step(fnv_prefix(s, n - 1), s[n - 1])
    }
}

/// The 64-bit FNV-1a hash of a byte sequence.
pub open spec fn spec_fnv(s: Seq<u8>) -> u64 {
    fnv_prefix(s, s.len() as int)
}

pub fn fnv_hash(s: &[u8]) -> (r: u64)
    ensures
        r == spec_fnv(s@),
{
    let mut h: u64 = FNV_OFFSET;
    let mut i: usize = 0;
    while i < s.len()
        invariant
            i <= s@.len(),
            h == fnv_prefix(s@, i as int),
        decreases s@.len() - i,
    {
        let x: u64 = h ^ (s[i] as u64);
        proof {
            assert((x as u128) * (FNV_PRIME as u128) < 0x10000000000000000u128
                * 0x10000000000000000u128) by (nonlinear_arith)
                requires
                    (x as u128) < 0x10000000000000000u128,
                    (FNV_PRIME as u128) == 0x100000001b3u128,
            ;
        }
        let wide: u128 = (x as u128) * (FNV_PRIME as u128);
        h = (wide % 0x10000000000000000u128) as u64;
        proof {
            assert(h == fnv_step(fnv_prefix(s@, i as int), s@[i as int]));
        }
        i = i + 1;
    }
    h
}

/// A 64-bit hash of a numeric id together with a name, as mailbox and
/// envelope identities are derived.
pub fn hash_id_name(id: u64, name: &str) -> (r: u64)
    ensures
        r == spec_hash_id_name(id, name.spec_bytes()),
{
    let mut buf: Vec<u8> = Vec::new();
    let mut k: usize = 0;
    while k < 8
        invariant
            k <= 8,
            buf@.len() == k,
            forall|j: int| 0 <= j < k ==> buf@[j] == le_byte(id, j),
        decreases 8 - k,
    {
        let shift: u64 = (k as u64) * 8;
        let byte: u8 = #[verifier::truncate] ((id >> shift) as u8);
        proof {
            assert(byte == le_byte(id, k as int)) by (bit_vector)
                requires
                    shift == k * 8,
                    k < 8,
                    byte == (id >> shift) as u8,
            ;
        }
        buf.push(byte);
        k = k + 1;
    }
    let name_bytes = name.as_bytes();
    let mut m: usize = 0;
    while m < name_bytes.len()
        invariant
            m <= name_bytes@.len(),
            name_bytes@ == name.spec_bytes(),
            buf@.len() == 8 + m,
            forall|j: int| 0 <= j < 8 ==> buf@[j] == le_byte(id, j),
            forall|j: int| 0 <= j < m ==> buf@[8 + j] == name.spec_bytes()[j],
        decreases name_bytes@.len() - m,
    {
        buf.push(name_bytes[m]);
        m = m + 1;
    }
    proof {
        assert(buf@ =~= id_name_bytes(id, name.spec_bytes()));
    }
    fnv_hash(buf.as_slice())
}

/// The `j`-th little-endian byte of `id`.
pub open spec fn le_byte(id: u64, j: int) -> u8 {
    ((id >> (8 * j)) & 0xff) as u8
}

/// The eight little-endian bytes of a word.
pub open spec fn le8(v: u64) -> Seq<u8> {
    Seq::new(8, |j: int| le_byte(v, j))
}

/// Appends the eight little-endian bytes of a word.
pub fn push_le_bytes(buf: &mut Vec<u8>, v: u64)
    ensures
        final(buf)@ == old(buf)@ + le8(v),
{
    let ghost pre = buf@;
    let mut k: usize = 0;
    while k < 8
        invariant
            k <= 8,
            buf@.len() == pre.len() + k,
            buf@.subrange(0, pre.len() as int) =~= pre,
            forall|j: int| 0 <= j < k ==> buf@[pre.len() + j] == le_byte(v, j),
        decreases 8 - k,
    {
        let shift: u64 = (k as u64) * 8;
        let byte: u8 = #[verifier::truncate] ((v >> shift) as u8);
        proof {
            assert(byte == le_byte(v, k as int)) by (bit_vector)
                requires
                    shift == k * 8,
                    k < 8,
                    byte == (v >> shift) as u8,
            ;
        }
        buf.push(byte);
        proof {
            assert(buf@.subrange(0, pre.len() as int) =~= pre);
        }
        k = k + 1;
    }
    proof {
        assert(buf@ =~= pre + le8(v));
    }
}

/// The byte image hashed by `hash_id_name`.
pub open spec fn id_name_bytes(id: u64, name: Seq<u8>) -> Seq<u8> {
    Seq::new(8, |j: int| le_byte(id, j)) + name
}

/// What `hash_id_name` computes.
pub open spec fn spec_hash_id_name(id: u64, name: Seq<u8>) -> u64 {
    spec_fnv(id_name_bytes(id, name))
}

} // verus!
