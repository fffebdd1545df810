//! MessagePack primitives for the peer message codec.
//!
//! Only what the forwarding protocol needs: unsigned integers, strings,
//! binary payloads, and the headers of arrays and maps.  Each form has a
//! mathematical encoder, a total parser at the specification level, exec
//! writers and readers proved against them, and the lemmas that parsing
//! inverts encoding.  Encoders always emit the shortest form; parsers accept
//! every form of the family.

use vstd::prelude::*;
use vstd::utf8::{decode_utf8, encode_utf8, valid_utf8};
use vstd::arithmetic::div_mod::lemma_fundamental_div_mod;
use crate::strutil::string_from_utf8;

verus! {

/// 256 to the `k`.
pub open spec fn pow256(k: nat) -> nat
    decreases k,
{
    if k == 0 {
        1
    } else {
        256 * pow256((k - 1) as nat)
    }
}

/// The powers of 256 the codec needs, as literals.
pub proof fn lemma_pow256_values()
    ensures
        pow256(0) == 1,
        pow256(1) == 0x100,
        pow256(2) == 0x10000,
        pow256(4) == 0x1_0000_0000,
        pow256(7) == 0x100_0000_0000_0000,
        pow256(8) == 0x1_0000_0000_0000_0000,
{
    reveal_with_fuel(pow256, 9);
}

/// `n` as `k` big-endian bytes.
pub open spec fn be_enc(n: nat, k: nat) -> Seq<u8>
    decreases k,
{
    if k == 0 {
        Seq::empty()
    } else {
        be_enc(n / 256, (k - 1) as nat).push((n % 256) as u8)
    }
}

/// The value of a big-endian byte string.
pub open spec fn be_dec(b: Seq<u8>) -> nat
    decreases b.len(),
{
    if b.len() == 0 {
        0
    } else {
        (be_dec(b.drop_last()) * 256 + b.last()) as nat
    }
}

pub proof fn lemma_be_enc_len(n: nat, k: nat)
    ensures
        be_enc(n, k).len() == k,
    decreases k,
{
    if k > 0 {
        lemma_be_enc_len(n / 256, (k - 1) as nat);
    }
}

pub proof fn lemma_be_dec_bound(b: Seq<u8>)
    ensures
        be_dec(b) < pow256(b.len()),
    decreases b.len(),
{
    if b.len() > 0 {
        lemma_be_dec_bound(b.drop_last());
    }
}

/// Parsing inverts encoding for big-endian numbers.
pub proof fn lemma_be_dec_enc(n: nat, k: nat)
    requires
        n < pow256(k),
    ensures
        be_dec(be_enc(n, k)) == n,
    decreases k,
{
    if k == 0 {
    } else {
        lemma_be_enc_len(n / 256, (k - 1) as nat);
        assert(be_enc(n, k).drop_last() =~= be_enc(n / 256, (k - 1) as nat));
        assert(n / 256 < pow256((k - 1) as nat)) by {
            if n / 256 >= pow256((k - 1) as nat) {
                lemma_fundamental_div_mod(n as int, 256);
                assert(n >= 256 * pow256((k - 1) as nat));
            }
        }
        lemma_be_dec_enc(n / 256, (k - 1) as nat);
        lemma_fundamental_div_mod(n as int, 256);
    }
}

/// The shortest MessagePack form of an unsigned integer.
pub open spec fn uint_enc(v: u64) -> Seq<u8> {
    if v < 0x80 {
        seq![v as u8]
    } else if v < 0x100 {
        seq![0xccu8] + be_enc(v as nat, 1)
    } else if v < 0x10000 {
        seq![0xcdu8] + be_enc(v as nat, 2)
    } else if v < 0x1_0000_0000 {
        seq![0xceu8] + be_enc(v as nat, 4)
    } else {
        seq![0xcfu8] + be_enc(v as nat, 8)
    }
}

/// The header before `n` string bytes.
pub open spec fn str_hdr(n: nat) -> Seq<u8> {
    if n < 32 {
        seq![(0xa0 + n) as u8]
    } else if n < 0x100 {
        seq![0xd9u8] + be_enc(n, 1)
    } else if n < 0x10000 {
        seq![0xdau8] + be_enc(n, 2)
    } else {
        seq![0xdbu8] + be_enc(n, 4)
    }
}

/// The header before `n` raw binary bytes.
pub open spec fn bin_hdr(n: nat) -> Seq<u8> {
    if n < 0x100 {
        seq![0xc4u8] + be_enc(n, 1)
    } else if n < 0x10000 {
        seq![0xc5u8] + be_enc(n, 2)
    } else {
        seq![0xc6u8] + be_enc(n, 4)
    }
}

/// The header of an array of `n` elements.
pub open spec fn arr_hdr(n: nat) -> Seq<u8> {
    if n < 16 {
        seq![(0x90 + n) as u8]
    } else if n < 0x10000 {
        seq![0xdcu8] + be_enc(n, 2)
    } else {
        seq![0xddu8] + be_enc(n, 4)
    }
}

/// The header of a map of `n` key-value pairs.
pub open spec fn map_hdr(n: nat) -> Seq<u8> {
    if n < 16 {
        seq![(0x80 + n) as u8]
    } else if n < 0x10000 {
        seq![0xdeu8] + be_enc(n, 2)
    } else {
        seq![0xdfu8] + be_enc(n, 4)
    }
}

/// A whole string: header, then the UTF-8 bytes.
pub open spec fn str_enc(s: Seq<char>) -> Seq<u8> {
    str_hdr(encode_utf8(s).len()) + encode_utf8(s)
}

/// A whole binary payload: header, then the bytes.
pub open spec fn bin_enc(p: Seq<u8>) -> Seq<u8> {
    bin_hdr(p.len()) + p
}

// ------------------------------------------------------------------
// Specification-level parsers.  Each takes the buffer and a position and
// returns the parsed value with the position after it, or `None` on any
// malformed or truncated input.

/// Reads a fixed big-endian length field of `k` bytes at `i`.
pub open spec fn parse_be(b: Seq<u8>, i: int, k: int) -> Option<(nat, int)> {
    if 0 <= i && i + k <= b.len() {
        Some((be_dec(b.subrange(i, i + k)), i + k))
    } else {
        None
    }
}

/// Parses an unsigned integer in any of its forms.
pub open spec fn parse_uint(b: Seq<u8>, i: int) -> Option<(u64, int)> {
    if 0 <= i < b.len() {
        let h = b[i];
        if h < 0x80 {
            Some((h as u64, i + 1))
        } else if h == 0xcc {
            match parse_be(b, i + 1, 1) {
                Some(v) => Some((v.0 as u64, v.1)),
                None => None,
            }
        } else if h == 0xcd {
            match parse_be(b, i + 1, 2) {
                Some(v) => Some((v.0 as u64, v.1)),
                None => None,
            }
        } else if h == 0xce {
            match parse_be(b, i + 1, 4) {
                Some(v) => Some((v.0 as u64, v.1)),
                None => None,
            }
        } else if h == 0xcf {
            match parse_be(b, i + 1, 8) {
                Some(v) => Some((v.0 as u64, v.1)),
                None => None,
            }
        } else {
            None
        }
    } else {
        None
    }
}

/// Parses a string header, returning the byte length of the string.
pub open spec fn parse_str_hdr(b: Seq<u8>, i: int) -> Option<(nat, int)> {
    if 0 <= i < b.len() {
        let h = b[i];
        if 0xa0 <= h < 0xc0 {
            Some(((h - 0xa0) as nat, i + 1))
        } else if h == 0xd9 {
            parse_be(b, i + 1, 1)
        } else if h == 0xda {
            parse_be(b, i + 1, 2)
        } else if h == 0xdb {
            parse_be(b, i + 1, 4)
        } else {
            None
        }
    } else {
        None
    }
}

/// Parses a whole string; the bytes must be valid UTF-8.
pub open spec fn parse_str(b: Seq<u8>, i: int) -> Option<(Seq<char>, int)> {
    match parse_str_hdr(b, i) {
        Some((n, j)) => {
            if j + n <= b.len() && valid_utf8(b.subrange(j, j + n)) {
                Some((decode_utf8(b.subrange(j, j + n)), j + n))
            } else {
                None
            }
        },
        None => None,
    }
}

/// Parses a binary header, returning the payload length.
pub open spec fn parse_bin_hdr(b: Seq<u8>, i: int) -> Option<(nat, int)> {
    if 0 <= i < b.len() {
        let h = b[i];
        if h == 0xc4 {
            parse_be(b, i + 1, 1)
        } else if h == 0xc5 {
            parse_be(b, i + 1, 2)
        } else if h == 0xc6 {
            parse_be(b, i + 1, 4)
        } else {
            None
        }
    } else {
        None
    }
}

/// Parses a whole binary payload.
pub open spec fn parse_bin(b: Seq<u8>, i: int) -> Option<(Seq<u8>, int)> {
    match parse_bin_hdr(b, i) {
        Some((n, j)) => {
            if j + n <= b.len() {
                Some((b.subrange(j, j + n), j + n))
            } else {
                None
            }
        },
        None => None,
    }
}

/// Parses an array header, returning the element count.
pub open spec fn parse_arr_hdr(b: Seq<u8>, i: int) -> Option<(nat, int)> {
    if 0 <= i < b.len() {
        let h = b[i];
        if 0x90 <= h < 0xa0 {
            Some(((h - 0x90) as nat, i + 1))
        } else if h == 0xdc {
            parse_be(b, i + 1, 2)
        } else if h == 0xdd {
            parse_be(b, i + 1, 4)
        } else {
            None
        }
    } else {
        None
    }
}

/// Parses a map header, returning the pair count.
pub open spec fn parse_map_hdr(b: Seq<u8>, i: int) -> Option<(nat, int)> {
    if 0 <= i < b.len() {
        let h = b[i];
        if 0x80 <= h < 0x90 {
            Some(((h - 0x80) as nat, i + 1))
        } else if h == 0xde {
            parse_be(b, i + 1, 2)
        } else if h == 0xdf {
            parse_be(b, i + 1, 4)
        } else {
            None
        }
    } else {
        None
    }
}

// ------------------------------------------------------------------
// Parsing inverts encoding.

/// When the bytes at `i` are `be_enc(n, k)`, `parse_be` reads back `n`.
pub proof fn lemma_parse_be_enc(b: Seq<u8>, i: int, n: nat, k: nat)
    requires
        0 <= i,
        i + k <= b.len(),
        n < pow256(k),
        b.subrange(i, i + k) == be_enc(n, k),
    ensures
        parse_be(b, i, k as int) == Some((n, i + k)),
{
    lemma_be_dec_enc(n, k);
}

/// When the bytes at `i` are `uint_enc(v)`, `parse_uint` reads back `v`.
pub proof fn lemma_parse_uint_enc(b: Seq<u8>, i: int, v: u64)
    requires
        0 <= i,
        i + uint_enc(v).len() <= b.len(),
        b.subrange(i, i + uint_enc(v).len()) == uint_enc(v),
    ensures
        parse_uint(b, i) == Some((v, i + uint_enc(v).len())),
{
    let e = uint_enc(v);
    let sub = b.subrange(i, i + e.len());
    if v < 0x80 {
        assert(b[i] == e[0]);
    } else {
        let k: nat = if v < 0x100 {
            1
        } else if v < 0x10000 {
            2
        } else if v < 0x1_0000_0000 {
            4
        } else {
            8
        };
        lemma_be_enc_len(v as nat, k);
        assert(b[i] == e[0]);
        assert((v as nat) < pow256(k)) by {
            lemma_pow256_values();
            lemma_pow256_values();
            lemma_pow256_values();
            lemma_pow256_values();
        }
        assert(b.subrange(i + 1, i + 1 + k) =~= be_enc(v as nat, k)) by {
            assert forall|x: int| 0 <= x < k implies b.subrange(i + 1, i + 1 + k)[x] == be_enc(
                v as nat,
                k,
            )[x] by {
                assert(sub[x + 1] == e[x + 1]);
            }
        }
        lemma_parse_be_enc(b, i + 1, v as nat, k);
    }
}

/// Shared shape of the four header families: when the bytes at `i` are the
/// encoded header, parsing reads back the length.  Proved once per family.
pub proof fn lemma_parse_str_hdr_enc(b: Seq<u8>, i: int, n: nat)
    requires
        0 <= i,
        n < 0x1_0000_0000,
        i + str_hdr(n).len() <= b.len(),
        b.subrange(i, i + str_hdr(n).len()) == str_hdr(n),
    ensures
        parse_str_hdr(b, i) == Some((n, i + str_hdr(n).len())),
{
    let e = str_hdr(n);
    let sub = b.subrange(i, i + e.len());
    if n < 32 {
        assert(b[i] == e[0]);
    } else {
        let k: nat = if n < 0x100 {
            1
        } else if n < 0x10000 {
            2
        } else {
            4
        };
        lemma_be_enc_len(n, k);
        assert(b[i] == e[0]);
        assert(n < pow256(k)) by {
            lemma_pow256_values();
            lemma_pow256_values();
            lemma_pow256_values();
        }
        assert(b.subrange(i + 1, i + 1 + k) =~= be_enc(n, k)) by {
            assert forall|x: int| 0 <= x < k implies b.subrange(i + 1, i + 1 + k)[x] == be_enc(
                n,
                k,
            )[x] by {
                assert(sub[x + 1] == e[x + 1]);
            }
        }
        lemma_parse_be_enc(b, i + 1, n, k);
    }
}

pub proof fn lemma_parse_bin_hdr_enc(b: Seq<u8>, i: int, n: nat)
    requires
        0 <= i,
        n < 0x1_0000_0000,
        i + bin_hdr(n).len() <= b.len(),
        b.subrange(i, i + bin_hdr(n).len()) == bin_hdr(n),
    ensures
        parse_bin_hdr(b, i) == Some((n, i + bin_hdr(n).len())),
{
    let e = bin_hdr(n);
    let sub = b.subrange(i, i + e.len());
    let k: nat = if n < 0x100 {
        1
    } else if n < 0x10000 {
        2
    } else {
        4
    };
    lemma_be_enc_len(n, k);
    assert(b[i] == e[0]);
    assert(n < pow256(k)) by {
        lemma_pow256_values();
        lemma_pow256_values();
        lemma_pow256_values();
    }
    assert(b.subrange(i + 1, i + 1 + k) =~= be_enc(n, k)) by {
        assert forall|x: int| 0 <= x < k implies b.subrange(i + 1, i + 1 + k)[x] == be_enc(
            n,
            k,
        )[x] by {
            assert(sub[x + 1] == e[x + 1]);
        }
    }
    lemma_parse_be_enc(b, i + 1, n, k);
}

pub proof fn lemma_parse_arr_hdr_enc(b: Seq<u8>, i: int, n: nat)
    requires
        0 <= i,
        n < 0x1_0000_0000,
        i + arr_hdr(n).len() <= b.len(),
        b.subrange(i, i + arr_hdr(n).len()) == arr_hdr(n),
    ensures
        parse_arr_hdr(b, i) == Some((n, i + arr_hdr(n).len())),
{
    let e = arr_hdr(n);
    let sub = b.subrange(i, i + e.len());
    if n < 16 {
        assert(b[i] == e[0]);
    } else {
        let k: nat = if n < 0x10000 {
            2
        } else {
            4
        };
        lemma_be_enc_len(n, k);
        assert(b[i] == e[0]);
        assert(n < pow256(k)) by {
            lemma_pow256_values();
            lemma_pow256_values();
        }
        assert(b.subrange(i + 1, i + 1 + k) =~= be_enc(n, k)) by {
            assert forall|x: int| 0 <= x < k implies b.subrange(i + 1, i + 1 + k)[x] == be_enc(
                n,
                k,
            )[x] by {
                assert(sub[x + 1] == e[x + 1]);
            }
        }
        lemma_parse_be_enc(b, i + 1, n, k);
    }
}

pub proof fn lemma_parse_map_hdr_enc(b: Seq<u8>, i: int, n: nat)
    requires
        0 <= i,
        n < 0x1_0000_0000,
        i + map_hdr(n).len() <= b.len(),
        b.subrange(i, i + map_hdr(n).len()) == map_hdr(n),
    ensures
        parse_map_hdr(b, i) == Some((n, i + map_hdr(n).len())),
{
    let e = map_hdr(n);
    let sub = b.subrange(i, i + e.len());
    if n < 16 {
        assert(b[i] == e[0]);
    } else {
        let k: nat = if n < 0x10000 {
            2
        } else {
            4
        };
        lemma_be_enc_len(n, k);
        assert(b[i] == e[0]);
        assert(n < pow256(k)) by {
            lemma_pow256_values();
            lemma_pow256_values();
        }
        assert(b.subrange(i + 1, i + 1 + k) =~= be_enc(n, k)) by {
            assert forall|x: int| 0 <= x < k implies b.subrange(i + 1, i + 1 + k)[x] == be_enc(
                n,
                k,
            )[x] by {
                assert(sub[x + 1] == e[x + 1]);
            }
        }
        lemma_parse_be_enc(b, i + 1, n, k);
    }
}

/// When the bytes at `i` are `str_enc(s)`, `parse_str` reads back `s`.
pub proof fn lemma_parse_str_enc(b: Seq<u8>, i: int, s: Seq<char>)
    requires
        0 <= i,
        encode_utf8(s).len() < 0x1_0000_0000,
        i + str_enc(s).len() <= b.len(),
        b.subrange(i, i + str_enc(s).len()) == str_enc(s),
    ensures
        parse_str(b, i) == Some((s, i + str_enc(s).len())),
{
    broadcast use vstd::utf8::encode_utf8_valid_utf8, vstd::utf8::encode_utf8_decode_utf8;

    let u = encode_utf8(s);
    let n = u.len();
    let e = str_enc(s);
    let h = str_hdr(n);
    assert(b.subrange(i, i + h.len() as int) =~= h) by {
        assert forall|x: int| 0 <= x < h.len() implies b.subrange(i, i + h.len() as int)[x] == h[x] by {
            assert(b.subrange(i, i + e.len() as int)[x] == e[x]);
        }
    }
    lemma_parse_str_hdr_enc(b, i, n);
    let j = i + h.len() as int;
    assert(b.subrange(j, j + n as int) =~= u) by {
        assert forall|x: int| 0 <= x < n implies b.subrange(j, j + n as int)[x] == u[x] by {
            assert(b.subrange(i, i + e.len() as int)[h.len() + x] == e[h.len() + x]);
        }
    }
}

/// When the bytes at `i` are `bin_enc(p)`, `parse_bin` reads back `p`.
pub proof fn lemma_parse_bin_enc(b: Seq<u8>, i: int, p: Seq<u8>)
    requires
        0 <= i,
        p.len() < 0x1_0000_0000,
        i + bin_enc(p).len() <= b.len(),
        b.subrange(i, i + bin_enc(p).len()) == bin_enc(p),
    ensures
        parse_bin(b, i) == Some((p, i + bin_enc(p).len())),
{
    let n = p.len();
    let e = bin_enc(p);
    let h = bin_hdr(n);
    assert(b.subrange(i, i + h.len() as int) =~= h) by {
        assert forall|x: int| 0 <= x < h.len() implies b.subrange(i, i + h.len() as int)[x] == h[x] by {
            assert(b.subrange(i, i + e.len() as int)[x] == e[x]);
        }
    }
    lemma_parse_bin_hdr_enc(b, i, n);
    let j = i + h.len() as int;
    assert(b.subrange(j, j + n as int) =~= p) by {
        assert forall|x: int| 0 <= x < n implies b.subrange(j, j + n as int)[x] == p[x] by {
            assert(b.subrange(i, i + e.len() as int)[h.len() + x] == e[h.len() + x]);
        }
    }
}

// ------------------------------------------------------------------
// Exec writers, each proved to append exactly the encoded bytes.

/// Appends `be_enc(n, k)`.
pub fn write_be(out: &mut Vec<u8>, n: u64, k: usize)
    requires
        k <= 8,
        (n as nat) < pow256(k as nat),
    ensures
        final(out)@ == old(out)@ + be_enc(n as nat, k as nat),
    decreases k,
{
    if k == 0 {
        proof {
            assert(out@ =~= old(out)@ + be_enc(n as nat, 0));
        }
    } else {
        proof {
            assert((n / 256) as nat == (n as nat) / 256);
            assert(((n as nat) / 256) < pow256((k - 1) as nat)) by {
                if (n as nat) / 256 >= pow256((k - 1) as nat) {
                    lemma_fundamental_div_mod(n as int, 256);
                }
            }
        }
        write_be(out, n / 256, k - 1);
        out.push((n % 256) as u8);
        proof {
            assert(out@ =~= old(out)@ + be_enc(n as nat, k as nat));
        }
    }
}

/// Appends `uint_enc(v)`.
pub fn write_uint(out: &mut Vec<u8>, v: u64)
    ensures
        final(out)@ == old(out)@ + uint_enc(v),
{
    proof {
        lemma_pow256_values();
    }
    if v < 0x80 {
        out.push(v as u8);
        proof {
            assert(out@ =~= old(out)@ + uint_enc(v));
        }
    } else if v < 0x100 {
        out.push(0xcc);
        write_be(out, v, 1);
        proof {
            assert(out@ =~= old(out)@ + uint_enc(v));
        }
    } else if v < 0x10000 {
        out.push(0xcd);
        write_be(out, v, 2);
        proof {
            assert(out@ =~= old(out)@ + uint_enc(v));
        }
    } else if v < 0x1_0000_0000 {
        out.push(0xce);
        write_be(out, v, 4);
        proof {
            lemma_pow256_values();
            assert(out@ =~= old(out)@ + uint_enc(v));
        }
    } else {
        out.push(0xcf);
        proof {
            lemma_pow256_values();
        }
        write_be(out, v, 8);
        proof {
            assert(out@ =~= old(out)@ + uint_enc(v));
        }
    }
}

/// Appends `str_enc(s@)`.
pub fn write_str(out: &mut Vec<u8>, s: &str)
    requires
        encode_utf8(s@).len() < 0x1_0000_0000,
    ensures
        final(out)@ == old(out)@ + str_enc(s@),
{
    proof {
        lemma_pow256_values();
    }
    let mut bytes = s.as_bytes_vec();
    let n = bytes.len();
    if n < 32 {
        out.push((0xa0 + n) as u8);
    } else if n < 0x100 {
        out.push(0xd9);
        write_be(out, n as u64, 1);
    } else if n < 0x10000 {
        out.push(0xda);
        write_be(out, n as u64, 2);
    } else {
        out.push(0xdb);
        proof {
            lemma_pow256_values();
        }
        write_be(out, n as u64, 4);
    }
    out.append(&mut bytes);
    proof {
        assert(out@ =~= old(out)@ + str_enc(s@));
    }
}

/// Appends `bin_enc(p@)`.
pub fn write_bin(out: &mut Vec<u8>, p: &Vec<u8>)
    requires
        p@.len() < 0x1_0000_0000,
    ensures
        final(out)@ == old(out)@ + bin_enc(p@),
{
    proof {
        lemma_pow256_values();
    }
    let n = p.len();
    if n < 0x100 {
        out.push(0xc4);
        write_be(out, n as u64, 1);
    } else if n < 0x10000 {
        out.push(0xc5);
        write_be(out, n as u64, 2);
    } else {
        out.push(0xc6);
        proof {
            lemma_pow256_values();
        }
        write_be(out, n as u64, 4);
    }
    let mut copy = p.clone();
    out.append(&mut copy);
    proof {
        assert(out@ =~= old(out)@ + bin_enc(p@));
    }
}

/// Appends `arr_hdr(n)`.
pub fn write_arr_hdr(out: &mut Vec<u8>, n: usize)
    requires
        (n as nat) < 0x1_0000_0000,
    ensures
        final(out)@ == old(out)@ + arr_hdr(n as nat),
{
    proof {
        lemma_pow256_values();
    }
    if n < 16 {
        out.push((0x90 + n) as u8);
    } else if n < 0x10000 {
        out.push(0xdc);
        write_be(out, n as u64, 2);
    } else {
        out.push(0xdd);
        proof {
            lemma_pow256_values();
        }
        write_be(out, n as u64, 4);
    }
    proof {
        assert(out@ =~= old(out)@ + arr_hdr(n as nat));
    }
}

/// Appends `map_hdr(n)`.
pub fn write_map_hdr(out: &mut Vec<u8>, n: usize)
    requires
        (n as nat) < 0x1_0000_0000,
    ensures
        final(out)@ == old(out)@ + map_hdr(n as nat),
{
    proof {
        lemma_pow256_values();
    }
    if n < 16 {
        out.push((0x80 + n) as u8);
    } else if n < 0x10000 {
        out.push(0xde);
        write_be(out, n as u64, 2);
    } else {
        out.push(0xdf);
        proof {
            lemma_pow256_values();
        }
        write_be(out, n as u64, 4);
    }
    proof {
        assert(out@ =~= old(out)@ + map_hdr(n as nat));
    }
}

// ------------------------------------------------------------------
// Exec readers, each proved to agree with the specification parser.

/// Reads `k` big-endian bytes at `i`.
pub fn read_be(b: &Vec<u8>, i: usize, k: usize) -> (r: Option<(u64, usize)>)
    requires
        k <= 8,
    ensures
        match r {
            Some(v) => parse_be(b@, i as int, k as int) == Some(((v.0 as nat), v.1 as int))
                && v.1 == i + k,
            None => parse_be(b@, i as int, k as int) is None,
        },
{
    let len = b.len();
    if i > len || k > len - i {
        return None;
    }
    let end = i + k;
    let mut acc: u64 = 0;
    let mut j: usize = i;
    proof {
        assert(b@.subrange(i as int, i as int) =~= Seq::<u8>::empty());
    }
    while j < end
        invariant
            end == i + k,
            i <= j <= i + k,
            k <= 8,
            i + k <= b@.len(),
            acc as nat == be_dec(b@.subrange(i as int, j as int)),
            (acc as nat) < pow256((j - i) as nat),
        decreases end - j,
    {
        proof {
            lemma_be_dec_bound(b@.subrange(i as int, j as int));
            lemma_pow256_values();
            assert(pow256((j - i) as nat) <= pow256(7)) by {
                lemma_pow256_increases((j - i) as nat, 7);
            }
            lemma_pow256_values();
        }
        let next = acc * 256 + (b[j] as u64);
        proof {
            assert(b@.subrange(i as int, j + 1 as int).drop_last() =~= b@.subrange(
                i as int,
                j as int,
            ));
        }
        acc = next;
        j += 1;
    }
    proof {
        assert(b@.subrange(i as int, (i + k) as int) == b@.subrange(i as int, j as int));
    }
    Some((acc, i + k))
}

/// `pow256` grows with the exponent.
pub proof fn lemma_pow256_increases(a: nat, c: nat)
    requires
        a <= c,
    ensures
        pow256(a) <= pow256(c),
    decreases c,
{
    if a < c && c > 0 {
        lemma_pow256_increases(a, (c - 1) as nat);
        assert(pow256((c - 1) as nat) <= pow256(c));
    }
}

/// Reads an unsigned integer at `i`.
pub fn read_uint(b: &Vec<u8>, i: usize) -> (r: Option<(u64, usize)>)
    ensures
        match r {
            Some(v) => parse_uint(b@, i as int) == Some((v.0, v.1 as int)),
            None => parse_uint(b@, i as int) is None,
        },
{
    if i >= b.len() {
        return None;
    }
    let h = b[i];
    if h < 0x80 {
        Some((h as u64, i + 1))
    } else if h == 0xcc {
        read_be(b, i + 1, 1)
    } else if h == 0xcd {
        read_be(b, i + 1, 2)
    } else if h == 0xce {
        read_be(b, i + 1, 4)
    } else if h == 0xcf {
        read_be(b, i + 1, 8)
    } else {
        None
    }
}

/// Reads a string header at `i`.
pub fn read_str_hdr(b: &Vec<u8>, i: usize) -> (r: Option<(u64, usize)>)
    ensures
        match r {
            Some(v) => parse_str_hdr(b@, i as int) == Some(((v.0 as nat), v.1 as int)),
            None => parse_str_hdr(b@, i as int) is None,
        },
{
    if i >= b.len() {
        return None;
    }
    let h = b[i];
    if 0xa0 <= h && h < 0xc0 {
        Some(((h - 0xa0) as u64, i + 1))
    } else if h == 0xd9 {
        read_be(b, i + 1, 1)
    } else if h == 0xda {
        read_be(b, i + 1, 2)
    } else if h == 0xdb {
        read_be(b, i + 1, 4)
    } else {
        None
    }
}

/// Reads a binary header at `i`.
pub fn read_bin_hdr(b: &Vec<u8>, i: usize) -> (r: Option<(u64, usize)>)
    ensures
        match r {
            Some(v) => parse_bin_hdr(b@, i as int) == Some(((v.0 as nat), v.1 as int)),
            None => parse_bin_hdr(b@, i as int) is None,
        },
{
    if i >= b.len() {
        return None;
    }
    let h = b[i];
    if h == 0xc4 {
        read_be(b, i + 1, 1)
    } else if h == 0xc5 {
        read_be(b, i + 1, 2)
    } else if h == 0xc6 {
        read_be(b, i + 1, 4)
    } else {
        None
    }
}

/// Reads an array header at `i`.
pub fn read_arr_hdr(b: &Vec<u8>, i: usize) -> (r: Option<(u64, usize)>)
    ensures
        match r {
            Some(v) => parse_arr_hdr(b@, i as int) == Some(((v.0 as nat), v.1 as int)),
            None => parse_arr_hdr(b@, i as int) is None,
        },
{
    if i >= b.len() {
        return None;
    }
    let h = b[i];
    if 0x90 <= h && h < 0xa0 {
        Some(((h - 0x90) as u64, i + 1))
    } else if h == 0xdc {
        read_be(b, i + 1, 2)
    } else if h == 0xdd {
        read_be(b, i + 1, 4)
    } else {
        None
    }
}

/// Reads a map header at `i`.
pub fn read_map_hdr(b: &Vec<u8>, i: usize) -> (r: Option<(u64, usize)>)
    ensures
        match r {
            Some(v) => parse_map_hdr(b@, i as int) == Some(((v.0 as nat), v.1 as int)),
            None => parse_map_hdr(b@, i as int) is None,
        },
{
    if i >= b.len() {
        return None;
    }
    let h = b[i];
    if 0x80 <= h && h < 0x90 {
        Some(((h - 0x80) as u64, i + 1))
    } else if h == 0xde {
        read_be(b, i + 1, 2)
    } else if h == 0xdf {
        read_be(b, i + 1, 4)
    } else {
        None
    }
}

/// Copies `n` bytes starting at `from`.
pub fn copy_range(b: &Vec<u8>, from: usize, n: usize) -> (r: Vec<u8>)
    requires
        from + n <= b@.len(),
    ensures
        r@ == b@.subrange(from as int, from + n),
{
    let blen = b.len();
    let mut out: Vec<u8> = Vec::new();
    let mut idx: usize = 0;
    while idx < n
        invariant
            b@.len() == blen,
            from + n <= b@.len(),
            0 <= idx <= n,
            out@ == b@.subrange(from as int, from + idx),
        decreases n - idx,
    {
        out.push(b[from + idx]);
        proof {
            assert(out@ =~= b@.subrange(from as int, from + idx + 1));
        }
        idx += 1;
    }
    out
}

/// Reads a whole string at `i`.
pub fn read_str(b: &Vec<u8>, i: usize) -> (r: Option<(String, usize)>)
    ensures
        match r {
            Some(v) => parse_str(b@, i as int) matches Some(p) && p.0 == v.0@ && p.1 == v.1 as int,
            None => parse_str(b@, i as int) is None,
        },
{
    match read_str_hdr(b, i) {
        None => None,
        Some((n64, j)) => {
            if n64 > (b.len() - j) as u64 {
                return None;
            }
            let n = n64 as usize;
            let bytes = copy_range(b, j, n);
            match string_from_utf8(bytes) {
                Some(s) => Some((s, j + n)),
                None => None,
            }
        },
    }
}

/// Reads a whole binary payload at `i`.
pub fn read_bin(b: &Vec<u8>, i: usize) -> (r: Option<(Vec<u8>, usize)>)
    ensures
        match r {
            Some(v) => parse_bin(b@, i as int) matches Some(p) && p.0 == v.0@ && p.1 == v.1 as int,
            None => parse_bin(b@, i as int) is None,
        },
{
    match read_bin_hdr(b, i) {
        None => None,
        Some((n64, j)) => {
            if n64 > (b.len() - j) as u64 {
                return None;
            }
            let n = n64 as usize;
            let bytes = copy_range(b, j, n);
            Some((bytes, j + n))
        },
    }
}

} // verus!
