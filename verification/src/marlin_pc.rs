//! Data structures of the degree-bound ("marlin") variant of the KZG10
//! scheme.  A committer key here optionally carries, for a sorted list of
//! enforced degree bounds, a window of "shifted" powers per bound; the
//! verifier key carries one shift power per bound, found by binary search;
//! commitments and randomness come in pairs, the second component present
//! exactly when a strict degree bound is enforced.

use crate::algebra::{
    g1_add_s, g1_bytes_s, g1_cser_s, g1_is_zero_s, g1_seq_valid, g1_serialize,
    g1_serialize_uncompressed, g1_to_bytes, g1_user_s, g1_valid_s, poly_cser_s, poly_serialize,
    poly_serialize_uncompressed, poly_user_s, DensePoly, Fr, G1Affine, SeededRng,
};
use crate::algebra::{poly_add_s, poly_degree_s, poly_is_zero_s, poly_scale_s, poly_zero};
use crate::algebra::{poly_read, poly_read_uncompressed, poly_read_unchecked, poly_serialize_unchecked, g1_read, g1_read_uncompressed, g1_read_unchecked};
use crate::data_structures::{
    DeserializeError, PCCommitment, PCCommitterKey, PCPreparedCommitment,
    PCPreparedVerifierKey, PCRandomness, PCVerifierKey,
};
use crate::kzg10;
use crate::kzg10::{doubling_table, doubling_table_of};
use crate::share::{g1_sum, poly_sum};
use vstd::prelude::*;

verus! {

/// `UniversalParams` are the universal parameters for the KZG10 scheme.
pub type UniversalParams = kzg10::UniversalParams;

/// The little-endian eight-byte serialization of a length or degree.
pub open spec fn usize_le_bytes(x: usize) -> Seq<u8> {
    seq![
        (x as u64 & 0xff) as u8,
        ((x as u64 >> 8) & 0xff) as u8,
        ((x as u64 >> 16) & 0xff) as u8,
        ((x as u64 >> 24) & 0xff) as u8,
        ((x as u64 >> 32) & 0xff) as u8,
        ((x as u64 >> 40) & 0xff) as u8,
        ((x as u64 >> 48) & 0xff) as u8,
        ((x as u64 >> 56) & 0xff) as u8,
    ]
}

/// Serialize a length or degree as eight little-endian bytes.
pub fn usize_to_le_bytes(x: usize) -> (r: Vec<u8>)
    ensures
        r@ == usize_le_bytes(x),
{
    let v: u64 = x as u64;
    let mut out: Vec<u8> = Vec::new();
    out.push((v & 0xff) as u8);
    out.push(((v >> 8) & 0xff) as u8);
    out.push(((v >> 16) & 0xff) as u8);
    out.push(((v >> 24) & 0xff) as u8);
    out.push(((v >> 32) & 0xff) as u8);
    out.push(((v >> 40) & 0xff) as u8);
    out.push(((v >> 48) & 0xff) as u8);
    out.push(((v >> 56) & 0xff) as u8);
    proof {
        assert(out@ =~= usize_le_bytes(x));
    }
    out
}


/// The concatenated compressed serializations of a list of group elements.
pub open spec fn g1_cser_elems_bytes(s: Seq<G1Affine>) -> Seq<u8>
    decreases s.len(),
{
    if s.len() == 0 {
        Seq::<u8>::empty()
    } else {
        g1_cser_elems_bytes(s.drop_last()) + g1_cser_s(s.last())
    }
}

/// The concatenated uncompressed serializations of a list of group
/// elements.
pub open spec fn g1_user_elems_bytes(s: Seq<G1Affine>) -> Seq<u8>
    decreases s.len(),
{
    if s.len() == 0 {
        Seq::<u8>::empty()
    } else {
        g1_user_elems_bytes(s.drop_last()) + g1_user_s(s.last())
    }
}

/// The concatenated eight-byte serializations of a list of degrees.
pub open spec fn usize_elems_bytes(s: Seq<usize>) -> Seq<u8>
    decreases s.len(),
{
    if s.len() == 0 {
        Seq::<u8>::empty()
    } else {
        usize_elems_bytes(s.drop_last()) + usize_le_bytes(s.last())
    }
}

/// Append a list of group elements in compressed form: the count as eight
/// little-endian bytes, then each element.
fn write_g1_vec_compressed(v: &Vec<G1Affine>, writer: &mut Vec<u8>)
    ensures
        final(writer)@ == old(writer)@ + usize_le_bytes(v@.len() as usize) + g1_cser_elems_bytes(
            v@,
        ),
{
    let ghost vs = v@;
    let ghost base = writer@;
    let n = v.len();
    let mut b = usize_to_le_bytes(n);
    writer.append(&mut b);
    let mut i: usize = 0;
    while i < n
        invariant
            i <= n,
            n == vs.len(),
            vs == v@,
            writer@ == base + usize_le_bytes(n as usize) + g1_cser_elems_bytes(
                vs.subrange(0, i as int),
            ),
        decreases n - i,
    {
        let mut eb = g1_serialize(&v[i]);
        writer.append(&mut eb);
        proof {
            assert(vs.subrange(0, i + 1 as int).drop_last() =~= vs.subrange(0, i as int));
            assert(writer@ =~= base + usize_le_bytes(n as usize) + g1_cser_elems_bytes(
                vs.subrange(0, i + 1 as int),
            ));
        }
        i = i + 1;
    }
    proof {
        assert(vs.subrange(0, n as int) =~= vs);
    }
}

/// Append a list of group elements in uncompressed form: the count as
/// eight little-endian bytes, then each element.
fn write_g1_vec_uncompressed(v: &Vec<G1Affine>, writer: &mut Vec<u8>)
    ensures
        final(writer)@ == old(writer)@ + usize_le_bytes(v@.len() as usize) + g1_user_elems_bytes(
            v@,
        ),
{
    let ghost vs = v@;
    let ghost base = writer@;
    let n = v.len();
    let mut b = usize_to_le_bytes(n);
    writer.append(&mut b);
    let mut i: usize = 0;
    while i < n
        invariant
            i <= n,
            n == vs.len(),
            vs == v@,
            writer@ == base + usize_le_bytes(n as usize) + g1_user_elems_bytes(
                vs.subrange(0, i as int),
            ),
        decreases n - i,
    {
        let mut eb = g1_serialize_uncompressed(&v[i]);
        writer.append(&mut eb);
        proof {
            assert(vs.subrange(0, i + 1 as int).drop_last() =~= vs.subrange(0, i as int));
            assert(writer@ =~= base + usize_le_bytes(n as usize) + g1_user_elems_bytes(
                vs.subrange(0, i + 1 as int),
            ));
        }
        i = i + 1;
    }
    proof {
        assert(vs.subrange(0, n as int) =~= vs);
    }
}

/// Append a list of degrees: the count as eight little-endian bytes, then
/// each degree as eight little-endian bytes.
fn write_usize_vec(v: &Vec<usize>, writer: &mut Vec<u8>)
    ensures
        final(writer)@ == old(writer)@ + usize_le_bytes(v@.len() as usize) + usize_elems_bytes(
            v@,
        ),
{
    let ghost vs = v@;
    let ghost base = writer@;
    let n = v.len();
    let mut b = usize_to_le_bytes(n);
    writer.append(&mut b);
    let mut i: usize = 0;
    while i < n
        invariant
            i <= n,
            n == vs.len(),
            vs == v@,
            writer@ == base + usize_le_bytes(n as usize) + usize_elems_bytes(
                vs.subrange(0, i as int),
            ),
        decreases n - i,
    {
        let mut eb = usize_to_le_bytes(v[i]);
        writer.append(&mut eb);
        proof {
            assert(vs.subrange(0, i + 1 as int).drop_last() =~= vs.subrange(0, i as int));
            assert(writer@ =~= base + usize_le_bytes(n as usize) + usize_elems_bytes(
                vs.subrange(0, i + 1 as int),
            ));
        }
        i = i + 1;
    }
    proof {
        assert(vs.subrange(0, n as int) =~= vs);
    }
}


/// An element-for-element copy of the bytes from `start` on.
fn tail_from(bytes: &Vec<u8>, start: usize) -> (r: Vec<u8>)
    requires
        start <= bytes@.len(),
    ensures
        r@ == bytes@.subrange(start as int, bytes@.len() as int),
{
    let n = bytes.len();
    let mut out: Vec<u8> = Vec::new();
    let mut i: usize = start;
    while i < n
        invariant
            start <= i <= n,
            n == bytes@.len(),
            out@ == bytes@.subrange(start as int, i as int),
        decreases n - i,
    {
        out.push(bytes[i]);
        proof {
            assert(out@ =~= bytes@.subrange(start as int, i + 1 as int));
        }
        i = i + 1;
    }
    out
}

/// A masked byte survives the round trip through `u8`.
proof fn lemma_mask_cast(z: u64)
    ensures
        ((z & 0xff) as u8) as u64 == z & 0xff,
{
    assert(((z & 0xff) as u8) as u64 == z & 0xff) by (bit_vector);
}

/// Read back a length or degree written by `usize_to_le_bytes`: on eight
/// little-endian bytes followed by anything, the value and the remaining
/// bytes come back.
fn read_usize(bytes: &Vec<u8>) -> (r: Result<(usize, Vec<u8>), DeserializeError>)
    ensures
        forall|x: usize, rest: Seq<u8>|
            bytes@ == #[trigger] (usize_le_bytes(x) + rest) ==> (r matches Ok(p) && p.0 == x
                && p.1@ == rest),
{
    if bytes.len() < 8 {
        return Err(DeserializeError);
    }
    let v: u64 = (bytes[0] as u64) | ((bytes[1] as u64) << 8) | ((bytes[2] as u64) << 16) | ((
    bytes[3] as u64) << 24) | ((bytes[4] as u64) << 32) | ((bytes[5] as u64) << 40) | ((
    bytes[6] as u64) << 48) | ((bytes[7] as u64) << 56);
    proof {
        assert forall|x: usize, rest: Seq<u8>|
            bytes@ == #[trigger] (usize_le_bytes(x) + rest) implies v == x as u64 && bytes@.len()
            >= 8 by {
            let z = x as u64;
            assert(bytes@[0] == (z & 0xff) as u8);
            assert(bytes@[1] == ((z >> 8) & 0xff) as u8);
            assert(bytes@[2] == ((z >> 16) & 0xff) as u8);
            assert(bytes@[3] == ((z >> 24) & 0xff) as u8);
            assert(bytes@[4] == ((z >> 32) & 0xff) as u8);
            assert(bytes@[5] == ((z >> 40) & 0xff) as u8);
            assert(bytes@[6] == ((z >> 48) & 0xff) as u8);
            assert(bytes@[7] == ((z >> 56) & 0xff) as u8);
            lemma_mask_cast(z);
            lemma_mask_cast(z >> 8);
            lemma_mask_cast(z >> 16);
            lemma_mask_cast(z >> 24);
            lemma_mask_cast(z >> 32);
            lemma_mask_cast(z >> 40);
            lemma_mask_cast(z >> 48);
            lemma_mask_cast(z >> 56);
            assert((z & 0xff) | (((z >> 8) & 0xff) << 8) | (((z >> 16) & 0xff) << 16) | (((z
                >> 24) & 0xff) << 24) | (((z >> 32) & 0xff) << 32) | (((z >> 40) & 0xff) << 40)
                | (((z >> 48) & 0xff) << 48) | (((z >> 56) & 0xff) << 56) == z) by (bit_vector);
        }
    }
    if v > (usize::MAX as u64) {
        return Err(DeserializeError);
    }
    let rest = tail_from(bytes, 8);
    proof {
        assert forall|x: usize, rest_s: Seq<u8>|
            bytes@ == #[trigger] (usize_le_bytes(x) + rest_s) implies rest@ == rest_s by {
            assert(bytes@.subrange(8, bytes@.len() as int) =~= rest_s);
        }
    }
    Ok((v as usize, rest))
}


/// Element bytes of a non-empty list split as first element plus the rest.
proof fn lemma_g1_user_elems_first(s: Seq<G1Affine>)
    requires
        s.len() >= 1,
    ensures
        g1_user_elems_bytes(s) == g1_user_s(s[0]) + g1_user_elems_bytes(s.drop_first()),
    decreases s.len(),
{
    if s.len() == 1 {
        assert(s.drop_last() =~= Seq::<G1Affine>::empty());
        assert(s.drop_first() =~= Seq::<G1Affine>::empty());
        assert(g1_user_elems_bytes(s) =~= g1_user_s(s[0]) + g1_user_elems_bytes(s.drop_first()));
    } else {
        let d = s.drop_last();
        lemma_g1_user_elems_first(d);
        assert(s.drop_first().drop_last() =~= d.drop_first());
        assert(s.drop_first().last() == s.last());
        assert(g1_user_elems_bytes(s.drop_first()) == g1_user_elems_bytes(d.drop_first())
            + g1_user_s(s.last()));
        assert(g1_user_elems_bytes(s) =~= g1_user_s(s[0]) + g1_user_elems_bytes(s.drop_first()));
    }
}

/// Read back a list written by `write_g1_vec_uncompressed`: on a count,
/// that many uncompressed elements and anything after them, the list and
/// the remaining bytes come back.
fn read_g1_vec_unchecked(bytes: &Vec<u8>) -> (r: Result<(Vec<G1Affine>, Vec<u8>), DeserializeError>)
    ensures
        forall|s: Seq<G1Affine>, rest: Seq<u8>|
            s.len() <= usize::MAX && bytes@ == #[trigger] (usize_le_bytes(s.len() as usize)
                + g1_user_elems_bytes(s) + rest) ==> (r matches Ok(p) && p.0@ == s && p.1@
                == rest),
{
    proof {
        assert forall|s: Seq<G1Affine>, rest: Seq<u8>|
            bytes@ == #[trigger] (usize_le_bytes(s.len() as usize) + g1_user_elems_bytes(s)
                + rest) implies bytes@ == usize_le_bytes(s.len() as usize) + (
        g1_user_elems_bytes(s) + rest) by {
            assert(usize_le_bytes(s.len() as usize) + g1_user_elems_bytes(s) + rest
                =~= usize_le_bytes(s.len() as usize) + (g1_user_elems_bytes(s) + rest));
        }
    }
    let first = read_usize(bytes);
    match first {
        Err(e) => Err(e),
        Ok(nr) => {
            let n = nr.0;
            let mut cur = nr.1;
            let mut out: Vec<G1Affine> = Vec::new();
            proof {
                assert forall|s: Seq<G1Affine>, rest: Seq<u8>|
                    s.len() <= usize::MAX && bytes@ == #[trigger] (usize_le_bytes(
                        s.len() as usize,
                    ) + g1_user_elems_bytes(s) + rest) implies out@ == s.subrange(0, 0)
                    && g1_user_elems_bytes(s.subrange(0, s.len() as int))
                    == g1_user_elems_bytes(s) by {
                    assert(out@ =~= s.subrange(0, 0));
                    assert(s.subrange(0, s.len() as int) =~= s);
                }
            }
            let mut i: usize = 0;
            while i < n
                invariant
                    i <= n,
                    out@.len() == i,
                    forall|s: Seq<G1Affine>, rest: Seq<u8>|
                        s.len() <= usize::MAX && bytes@ == #[trigger] (usize_le_bytes(
                            s.len() as usize,
                        ) + g1_user_elems_bytes(s) + rest) ==> (s.len() == n && out@
                            == s.subrange(0, i as int) && cur@ == g1_user_elems_bytes(
                            s.subrange(i as int, s.len() as int),
                        ) + rest),
                decreases n - i,
            {
                let next = crate::algebra::g1_read_unchecked(cur.as_slice());
                proof {
                    assert forall|s: Seq<G1Affine>, rest: Seq<u8>|
                        s.len() <= usize::MAX && bytes@ == #[trigger] (usize_le_bytes(
                            s.len() as usize,
                        ) + g1_user_elems_bytes(s) + rest) implies (next matches Some(x) && x.0
                        == s[i as int] && x.1@ == g1_user_elems_bytes(
                        s.subrange(i + 1 as int, s.len() as int),
                    ) + rest) by {
                        let tailseq = s.subrange(i as int, s.len() as int);
                        lemma_g1_user_elems_first(tailseq);
                        assert(tailseq.drop_first() =~= s.subrange(i + 1 as int, s.len() as int));
                        assert(cur@ =~= g1_user_s(s[i as int]) + (g1_user_elems_bytes(
                            s.subrange(i + 1 as int, s.len() as int),
                        ) + rest));
                    }
                }
                match next {
                    None => {
                        return Err(DeserializeError);
                    }
                    Some(gr) => {
                        out.push(gr.0);
                        cur = gr.1;
                        proof {
                            assert forall|s: Seq<G1Affine>, rest: Seq<u8>|
                                s.len() <= usize::MAX && bytes@ == #[trigger] (usize_le_bytes(
                                    s.len() as usize,
                                ) + g1_user_elems_bytes(s) + rest) implies out@ == s.subrange(
                                0,
                                i + 1 as int,
                            ) by {
                                assert(out@ =~= s.subrange(0, i + 1 as int));
                            }
                        }
                    }
                }
                i = i + 1;
            }
            proof {
                assert forall|s: Seq<G1Affine>, rest: Seq<u8>|
                    s.len() <= usize::MAX && bytes@ == #[trigger] (usize_le_bytes(
                        s.len() as usize,
                    ) + g1_user_elems_bytes(s) + rest) implies out@ == s && cur@ == rest by {
                    assert(s.subrange(0, s.len() as int) =~= s);
                    assert(s.subrange(i as int, s.len() as int) =~= Seq::<G1Affine>::empty());
                    assert(g1_user_elems_bytes(Seq::<G1Affine>::empty())
                        =~= Seq::<u8>::empty());
                    assert(Seq::<u8>::empty() + rest =~= rest);
                }
            }
            Ok((out, cur))
        }
    }
}

/// Element bytes of a non-empty list split as first element plus the rest.
proof fn lemma_g1_cser_elems_first(s: Seq<G1Affine>)
    requires
        s.len() >= 1,
    ensures
        g1_cser_elems_bytes(s) == g1_cser_s(s[0]) + g1_cser_elems_bytes(s.drop_first()),
    decreases s.len(),
{
    if s.len() == 1 {
        assert(s.drop_last() =~= Seq::<G1Affine>::empty());
        assert(s.drop_first() =~= Seq::<G1Affine>::empty());
        assert(g1_cser_elems_bytes(s) =~= g1_cser_s(s[0]) + g1_cser_elems_bytes(s.drop_first()));
    } else {
        let d = s.drop_last();
        lemma_g1_cser_elems_first(d);
        assert(s.drop_first().drop_last() =~= d.drop_first());
        assert(s.drop_first().last() == s.last());
        assert(g1_cser_elems_bytes(s.drop_first()) == g1_cser_elems_bytes(d.drop_first())
            + g1_cser_s(s.last()));
        assert(g1_cser_elems_bytes(s) =~= g1_cser_s(s[0]) + g1_cser_elems_bytes(s.drop_first()));
    }
}

/// Read back a list written by `write_g1_vec_compressed`: on a count,
/// that many compressed elements and anything after them, the list and
/// the remaining bytes come back.
fn read_g1_vec_compressed(bytes: &Vec<u8>) -> (r: Result<(Vec<G1Affine>, Vec<u8>), DeserializeError>)
    ensures
        forall|s: Seq<G1Affine>, rest: Seq<u8>|
            g1_seq_valid(s) && s.len() <= usize::MAX && bytes@ == #[trigger] (usize_le_bytes(
                s.len() as usize,
            ) + g1_cser_elems_bytes(s) + rest) ==> (r matches Ok(p) && p.0@ == s && p.1@
                == rest),
{
    proof {
        assert forall|s: Seq<G1Affine>, rest: Seq<u8>|
            bytes@ == #[trigger] (usize_le_bytes(s.len() as usize) + g1_cser_elems_bytes(s)
                + rest) implies bytes@ == usize_le_bytes(s.len() as usize) + (
        g1_cser_elems_bytes(s) + rest) by {
            assert(usize_le_bytes(s.len() as usize) + g1_cser_elems_bytes(s) + rest
                =~= usize_le_bytes(s.len() as usize) + (g1_cser_elems_bytes(s) + rest));
        }
    }
    let first = read_usize(bytes);
    match first {
        Err(e) => Err(e),
        Ok(nr) => {
            let n = nr.0;
            let mut cur = nr.1;
            let mut out: Vec<G1Affine> = Vec::new();
            proof {
                assert forall|s: Seq<G1Affine>, rest: Seq<u8>|
                    g1_seq_valid(s) && s.len() <= usize::MAX && bytes@ == #[trigger] (
                    usize_le_bytes(s.len() as usize) + g1_cser_elems_bytes(s) + rest)
                    implies out@ == s.subrange(0, 0) && g1_cser_elems_bytes(
                    s.subrange(0, s.len() as int),
                ) == g1_cser_elems_bytes(s) by {
                    assert(out@ =~= s.subrange(0, 0));
                    assert(s.subrange(0, s.len() as int) =~= s);
                }
            }
            let mut i: usize = 0;
            while i < n
                invariant
                    i <= n,
                    out@.len() == i,
                    forall|s: Seq<G1Affine>, rest: Seq<u8>|
                        g1_seq_valid(s) && s.len() <= usize::MAX && bytes@ == #[trigger] (
                        usize_le_bytes(s.len() as usize) + g1_cser_elems_bytes(s) + rest) ==> (
                        s.len() == n && out@ == s.subrange(0, i as int) && cur@
                            == g1_cser_elems_bytes(s.subrange(i as int, s.len() as int)) + rest),
                decreases n - i,
            {
                let next = crate::algebra::g1_read(cur.as_slice());
                proof {
                    assert forall|s: Seq<G1Affine>, rest: Seq<u8>|
                        g1_seq_valid(s) && s.len() <= usize::MAX && bytes@ == #[trigger] (
                        usize_le_bytes(s.len() as usize) + g1_cser_elems_bytes(s) + rest)
                        implies (next matches Some(x) && x.0 == s[i as int] && x.1@
                        == g1_cser_elems_bytes(s.subrange(i + 1 as int, s.len() as int))
                        + rest) by {
                        let tailseq = s.subrange(i as int, s.len() as int);
                        lemma_g1_cser_elems_first(tailseq);
                        assert(tailseq.drop_first() =~= s.subrange(i + 1 as int, s.len() as int));
                        assert(cur@ =~= g1_cser_s(s[i as int]) + (g1_cser_elems_bytes(
                            s.subrange(i + 1 as int, s.len() as int),
                        ) + rest));
                    }
                }
                match next {
                    None => {
                        return Err(DeserializeError);
                    }
                    Some(gr) => {
                        out.push(gr.0);
                        cur = gr.1;
                        proof {
                            assert forall|s: Seq<G1Affine>, rest: Seq<u8>|
                                g1_seq_valid(s) && s.len() <= usize::MAX && bytes@ == #[trigger] (
                                usize_le_bytes(s.len() as usize) + g1_cser_elems_bytes(s) + rest)
                                implies out@ == s.subrange(0, i + 1 as int) by {
                                assert(out@ =~= s.subrange(0, i + 1 as int));
                            }
                        }
                    }
                }
                i = i + 1;
            }
            proof {
                assert forall|s: Seq<G1Affine>, rest: Seq<u8>|
                    g1_seq_valid(s) && s.len() <= usize::MAX && bytes@ == #[trigger] (
                    usize_le_bytes(s.len() as usize) + g1_cser_elems_bytes(s) + rest)
                    implies out@ == s && cur@ == rest by {
                    assert(s.subrange(0, s.len() as int) =~= s);
                    assert(s.subrange(i as int, s.len() as int) =~= Seq::<G1Affine>::empty());
                    assert(g1_cser_elems_bytes(Seq::<G1Affine>::empty())
                        =~= Seq::<u8>::empty());
                    assert(Seq::<u8>::empty() + rest =~= rest);
                }
            }
            Ok((out, cur))
        }
    }
}

/// Read back, with subgroup checks, a list written by
/// `write_g1_vec_uncompressed`: on a count, that many uncompressed
/// elements and anything after them, the list and the remaining bytes
/// come back.
fn read_g1_vec_uncompressed(bytes: &Vec<u8>) -> (r: Result<(Vec<G1Affine>, Vec<u8>), DeserializeError>)
    ensures
        forall|s: Seq<G1Affine>, rest: Seq<u8>|
            g1_seq_valid(s) && s.len() <= usize::MAX && bytes@ == #[trigger] (usize_le_bytes(
                s.len() as usize,
            ) + g1_user_elems_bytes(s) + rest) ==> (r matches Ok(p) && p.0@ == s && p.1@
                == rest),
{
    proof {
        assert forall|s: Seq<G1Affine>, rest: Seq<u8>|
            bytes@ == #[trigger] (usize_le_bytes(s.len() as usize) + g1_user_elems_bytes(s)
                + rest) implies bytes@ == usize_le_bytes(s.len() as usize) + (
        g1_user_elems_bytes(s) + rest) by {
            assert(usize_le_bytes(s.len() as usize) + g1_user_elems_bytes(s) + rest
                =~= usize_le_bytes(s.len() as usize) + (g1_user_elems_bytes(s) + rest));
        }
    }
    let first = read_usize(bytes);
    match first {
        Err(e) => Err(e),
        Ok(nr) => {
            let n = nr.0;
            let mut cur = nr.1;
            let mut out: Vec<G1Affine> = Vec::new();
            proof {
                assert forall|s: Seq<G1Affine>, rest: Seq<u8>|
                    g1_seq_valid(s) && s.len() <= usize::MAX && bytes@ == #[trigger] (
                    usize_le_bytes(s.len() as usize) + g1_user_elems_bytes(s) + rest)
                    implies out@ == s.subrange(0, 0) && g1_user_elems_bytes(
                    s.subrange(0, s.len() as int),
                ) == g1_user_elems_bytes(s) by {
                    assert(out@ =~= s.subrange(0, 0));
                    assert(s.subrange(0, s.len() as int) =~= s);
                }
            }
            let mut i: usize = 0;
            while i < n
                invariant
                    i <= n,
                    out@.len() == i,
                    forall|s: Seq<G1Affine>, rest: Seq<u8>|
                        g1_seq_valid(s) && s.len() <= usize::MAX && bytes@ == #[trigger] (
                        usize_le_bytes(s.len() as usize) + g1_user_elems_bytes(s) + rest) ==> (
                        s.len() == n && out@ == s.subrange(0, i as int) && cur@
                            == g1_user_elems_bytes(s.subrange(i as int, s.len() as int)) + rest),
                decreases n - i,
            {
                let next = crate::algebra::g1_read_uncompressed(cur.as_slice());
                proof {
                    assert forall|s: Seq<G1Affine>, rest: Seq<u8>|
                        g1_seq_valid(s) && s.len() <= usize::MAX && bytes@ == #[trigger] (
                        usize_le_bytes(s.len() as usize) + g1_user_elems_bytes(s) + rest)
                        implies (next matches Some(x) && x.0 == s[i as int] && x.1@
                        == g1_user_elems_bytes(s.subrange(i + 1 as int, s.len() as int))
                        + rest) by {
                        let tailseq = s.subrange(i as int, s.len() as int);
                        lemma_g1_user_elems_first(tailseq);
                        assert(tailseq.drop_first() =~= s.subrange(i + 1 as int, s.len() as int));
                        assert(cur@ =~= g1_user_s(s[i as int]) + (g1_user_elems_bytes(
                            s.subrange(i + 1 as int, s.len() as int),
                        ) + rest));
                    }
                }
                match next {
                    None => {
                        return Err(DeserializeError);
                    }
                    Some(gr) => {
                        out.push(gr.0);
                        cur = gr.1;
                        proof {
                            assert forall|s: Seq<G1Affine>, rest: Seq<u8>|
                                g1_seq_valid(s) && s.len() <= usize::MAX && bytes@ == #[trigger] (
                                usize_le_bytes(s.len() as usize) + g1_user_elems_bytes(s) + rest)
                                implies out@ == s.subrange(0, i + 1 as int) by {
                                assert(out@ =~= s.subrange(0, i + 1 as int));
                            }
                        }
                    }
                }
                i = i + 1;
            }
            proof {
                assert forall|s: Seq<G1Affine>, rest: Seq<u8>|
                    g1_seq_valid(s) && s.len() <= usize::MAX && bytes@ == #[trigger] (
                    usize_le_bytes(s.len() as usize) + g1_user_elems_bytes(s) + rest)
                    implies out@ == s && cur@ == rest by {
                    assert(s.subrange(0, s.len() as int) =~= s);
                    assert(s.subrange(i as int, s.len() as int) =~= Seq::<G1Affine>::empty());
                    assert(g1_user_elems_bytes(Seq::<G1Affine>::empty())
                        =~= Seq::<u8>::empty());
                    assert(Seq::<u8>::empty() + rest =~= rest);
                }
            }
            Ok((out, cur))
        }
    }
}

/// Degree bytes of a non-empty list split as first element plus the rest.
proof fn lemma_usize_elems_first(s: Seq<usize>)
    requires
        s.len() >= 1,
    ensures
        usize_elems_bytes(s) == usize_le_bytes(s[0]) + usize_elems_bytes(s.drop_first()),
    decreases s.len(),
{
    if s.len() == 1 {
        assert(s.drop_last() =~= Seq::<usize>::empty());
        assert(s.drop_first() =~= Seq::<usize>::empty());
        assert(usize_elems_bytes(s) =~= usize_le_bytes(s[0]) + usize_elems_bytes(s.drop_first()));
    } else {
        let d = s.drop_last();
        lemma_usize_elems_first(d);
        assert(s.drop_first().drop_last() =~= d.drop_first());
        assert(s.drop_first().last() == s.last());
        assert(usize_elems_bytes(s.drop_first()) == usize_elems_bytes(d.drop_first())
            + usize_le_bytes(s.last()));
        assert(usize_elems_bytes(s) =~= usize_le_bytes(s[0]) + usize_elems_bytes(s.drop_first()));
    }
}

/// Read back a list written by `write_usize_vec`: on a count, that many
/// eight-byte degrees and anything after them, the list and the remaining
/// bytes come back.
fn read_usize_vec(bytes: &Vec<u8>) -> (r: Result<(Vec<usize>, Vec<u8>), DeserializeError>)
    ensures
        forall|s: Seq<usize>, rest: Seq<u8>|
            s.len() <= usize::MAX && bytes@ == #[trigger] (usize_le_bytes(s.len() as usize)
                + usize_elems_bytes(s) + rest) ==> (r matches Ok(p) && p.0@ == s && p.1@
                == rest),
{
    proof {
        assert forall|s: Seq<usize>, rest: Seq<u8>|
            bytes@ == #[trigger] (usize_le_bytes(s.len() as usize) + usize_elems_bytes(s)
                + rest) implies bytes@ == usize_le_bytes(s.len() as usize) + (
        usize_elems_bytes(s) + rest) by {
            assert(usize_le_bytes(s.len() as usize) + usize_elems_bytes(s) + rest
                =~= usize_le_bytes(s.len() as usize) + (usize_elems_bytes(s) + rest));
        }
    }
    let first = read_usize(bytes);
    match first {
        Err(e) => Err(e),
        Ok(nr) => {
            let n = nr.0;
            let mut cur = nr.1;
            let mut out: Vec<usize> = Vec::new();
            proof {
                assert forall|s: Seq<usize>, rest: Seq<u8>|
                    s.len() <= usize::MAX && bytes@ == #[trigger] (usize_le_bytes(
                        s.len() as usize,
                    ) + usize_elems_bytes(s) + rest) implies out@ == s.subrange(0, 0)
                    && usize_elems_bytes(s.subrange(0, s.len() as int))
                    == usize_elems_bytes(s) by {
                    assert(out@ =~= s.subrange(0, 0));
                    assert(s.subrange(0, s.len() as int) =~= s);
                }
            }
            let mut i: usize = 0;
            while i < n
                invariant
                    i <= n,
                    out@.len() == i,
                    forall|s: Seq<usize>, rest: Seq<u8>|
                        s.len() <= usize::MAX && bytes@ == #[trigger] (usize_le_bytes(
                            s.len() as usize,
                        ) + usize_elems_bytes(s) + rest) ==> (s.len() == n && out@
                            == s.subrange(0, i as int) && cur@ == usize_elems_bytes(
                            s.subrange(i as int, s.len() as int),
                        ) + rest),
                decreases n - i,
            {
                let next = read_usize(&cur);
                proof {
                    assert forall|s: Seq<usize>, rest: Seq<u8>|
                        s.len() <= usize::MAX && bytes@ == #[trigger] (usize_le_bytes(
                            s.len() as usize,
                        ) + usize_elems_bytes(s) + rest) implies (next matches Ok(x) && x.0
                        == s[i as int] && x.1@ == usize_elems_bytes(
                        s.subrange(i + 1 as int, s.len() as int),
                    ) + rest) by {
                        let tailseq = s.subrange(i as int, s.len() as int);
                        lemma_usize_elems_first(tailseq);
                        assert(tailseq.drop_first() =~= s.subrange(i + 1 as int, s.len() as int));
                        assert(cur@ =~= usize_le_bytes(s[i as int]) + (usize_elems_bytes(
                            s.subrange(i + 1 as int, s.len() as int),
                        ) + rest));
                    }
                }
                match next {
                    Err(_) => {
                        return Err(DeserializeError);
                    }
                    Ok(gr) => {
                        out.push(gr.0);
                        cur = gr.1;
                        proof {
                            assert forall|s: Seq<usize>, rest: Seq<u8>|
                                s.len() <= usize::MAX && bytes@ == #[trigger] (usize_le_bytes(
                                    s.len() as usize,
                                ) + usize_elems_bytes(s) + rest) implies out@ == s.subrange(
                                0,
                                i + 1 as int,
                            ) by {
                                assert(out@ =~= s.subrange(0, i + 1 as int));
                            }
                        }
                    }
                }
                i = i + 1;
            }
            proof {
                assert forall|s: Seq<usize>, rest: Seq<u8>|
                    s.len() <= usize::MAX && bytes@ == #[trigger] (usize_le_bytes(
                        s.len() as usize,
                    ) + usize_elems_bytes(s) + rest) implies out@ == s && cur@ == rest by {
                    assert(s.subrange(0, s.len() as int) =~= s);
                    assert(s.subrange(i as int, s.len() as int) =~= Seq::<usize>::empty());
                    assert(usize_elems_bytes(Seq::<usize>::empty())
                        =~= Seq::<u8>::empty());
                    assert(Seq::<u8>::empty() + rest =~= rest);
                }
            }
            Ok((out, cur))
        }
    }
}


/// Read back an optional compressed list: a presence flag, then the list.
fn read_opt_g1_vec_compressed(bytes: &Vec<u8>) -> (r: Result<
    (Option<Vec<G1Affine>>, Vec<u8>),
    DeserializeError,
>)
    ensures
        forall|s: Seq<G1Affine>, rest: Seq<u8>|
            g1_seq_valid(s) && s.len() <= usize::MAX && bytes@ == #[trigger] (seq![1u8]
                + usize_le_bytes(s.len() as usize) + g1_cser_elems_bytes(s) + rest) ==> (
            r matches Ok(p) && (p.0 matches Some(v) && v@ == s) && p.1@ == rest),
        forall|rest: Seq<u8>|
            bytes@ == #[trigger] (seq![0u8] + rest) ==> (r matches Ok(p) && p.0 is None && p.1@
                == rest),
{
    if bytes.len() == 0 {
        return Err(DeserializeError);
    }
    let tag = bytes[0];
    let after = tail_from(bytes, 1);
    proof {
        assert forall|s: Seq<G1Affine>, rest: Seq<u8>|
            g1_seq_valid(s) && s.len() <= usize::MAX && bytes@ == #[trigger] (seq![1u8]
                + usize_le_bytes(s.len() as usize) + g1_cser_elems_bytes(s) + rest)
            implies bytes@[0] == 1u8 && after@ == usize_le_bytes(s.len() as usize)
            + g1_cser_elems_bytes(s) + rest by {
            assert(bytes@ =~= seq![1u8] + (usize_le_bytes(s.len() as usize) + g1_cser_elems_bytes(
                s,
            ) + rest));
            assert(after@ =~= usize_le_bytes(s.len() as usize) + g1_cser_elems_bytes(s) + rest);
        }
        assert forall|rest: Seq<u8>|
            bytes@ == #[trigger] (seq![0u8] + rest) implies bytes@[0] == 0u8 && after@ == rest by {
            assert(after@ =~= rest);
        }
    }
    if tag == 0 {
        Ok((None, after))
    } else if tag == 1 {
        let inner = read_g1_vec_compressed(&after);
        match inner {
            Err(e) => Err(e),
            Ok(p) => Ok((Some(p.0), p.1)),
        }
    } else {
        Err(DeserializeError)
    }
}

/// Read back, with subgroup checks, an optional uncompressed list: a
/// presence flag, then the list.
fn read_opt_g1_vec_uncompressed(bytes: &Vec<u8>) -> (r: Result<
    (Option<Vec<G1Affine>>, Vec<u8>),
    DeserializeError,
>)
    ensures
        forall|s: Seq<G1Affine>, rest: Seq<u8>|
            g1_seq_valid(s) && s.len() <= usize::MAX && bytes@ == #[trigger] (seq![1u8]
                + usize_le_bytes(s.len() as usize) + g1_user_elems_bytes(s) + rest) ==> (
            r matches Ok(p) && (p.0 matches Some(v) && v@ == s) && p.1@ == rest),
        forall|rest: Seq<u8>|
            bytes@ == #[trigger] (seq![0u8] + rest) ==> (r matches Ok(p) && p.0 is None && p.1@
                == rest),
{
    if bytes.len() == 0 {
        return Err(DeserializeError);
    }
    let tag = bytes[0];
    let after = tail_from(bytes, 1);
    proof {
        assert forall|s: Seq<G1Affine>, rest: Seq<u8>|
            g1_seq_valid(s) && s.len() <= usize::MAX && bytes@ == #[trigger] (seq![1u8]
                + usize_le_bytes(s.len() as usize) + g1_user_elems_bytes(s) + rest)
            implies bytes@[0] == 1u8 && after@ == usize_le_bytes(s.len() as usize)
            + g1_user_elems_bytes(s) + rest by {
            assert(bytes@ =~= seq![1u8] + (usize_le_bytes(s.len() as usize) + g1_user_elems_bytes(
                s,
            ) + rest));
            assert(after@ =~= usize_le_bytes(s.len() as usize) + g1_user_elems_bytes(s) + rest);
        }
        assert forall|rest: Seq<u8>|
            bytes@ == #[trigger] (seq![0u8] + rest) implies bytes@[0] == 0u8 && after@ == rest by {
            assert(after@ =~= rest);
        }
    }
    if tag == 0 {
        Ok((None, after))
    } else if tag == 1 {
        let inner = read_g1_vec_uncompressed(&after);
        match inner {
            Err(e) => Err(e),
            Ok(p) => Ok((Some(p.0), p.1)),
        }
    } else {
        Err(DeserializeError)
    }
}

/// Read back an optional list of degrees: a presence flag, then the list.
fn read_opt_usize_vec(bytes: &Vec<u8>) -> (r: Result<
    (Option<Vec<usize>>, Vec<u8>),
    DeserializeError,
>)
    ensures
        forall|s: Seq<usize>, rest: Seq<u8>|
            s.len() <= usize::MAX && bytes@ == #[trigger] (seq![1u8] + usize_le_bytes(
                s.len() as usize,
            ) + usize_elems_bytes(s) + rest) ==> (r matches Ok(p) && (p.0 matches Some(v) && v@
                == s) && p.1@ == rest),
        forall|rest: Seq<u8>|
            bytes@ == #[trigger] (seq![0u8] + rest) ==> (r matches Ok(p) && p.0 is None && p.1@
                == rest),
{
    if bytes.len() == 0 {
        return Err(DeserializeError);
    }
    let tag = bytes[0];
    let after = tail_from(bytes, 1);
    proof {
        assert forall|s: Seq<usize>, rest: Seq<u8>|
            s.len() <= usize::MAX && bytes@ == #[trigger] (seq![1u8] + usize_le_bytes(
                s.len() as usize,
            ) + usize_elems_bytes(s) + rest) implies bytes@[0] == 1u8 && after@ == usize_le_bytes(
            s.len() as usize,
        ) + usize_elems_bytes(s) + rest by {
            assert(bytes@ =~= seq![1u8] + (usize_le_bytes(s.len() as usize) + usize_elems_bytes(s)
                + rest));
            assert(after@ =~= usize_le_bytes(s.len() as usize) + usize_elems_bytes(s) + rest);
        }
        assert forall|rest: Seq<u8>|
            bytes@ == #[trigger] (seq![0u8] + rest) implies bytes@[0] == 0u8 && after@ == rest by {
            assert(after@ =~= rest);
        }
    }
    if tag == 0 {
        Ok((None, after))
    } else if tag == 1 {
        let inner = read_usize_vec(&after);
        match inner {
            Err(e) => Err(e),
            Ok(p) => Ok((Some(p.0), p.1)),
        }
    } else {
        Err(DeserializeError)
    }
}


/// Read back an optional uncompressed list: a presence flag, then the list.
fn read_opt_g1_vec_unchecked(bytes: &Vec<u8>) -> (r: Result<
    (Option<Vec<G1Affine>>, Vec<u8>),
    DeserializeError,
>)
    ensures
        forall|s: Seq<G1Affine>, rest: Seq<u8>|
            s.len() <= usize::MAX && bytes@ == #[trigger] (seq![1u8] + usize_le_bytes(
                s.len() as usize,
            ) + g1_user_elems_bytes(s) + rest) ==> (r matches Ok(p) && (p.0 matches Some(v) && v@
                == s) && p.1@ == rest),
        forall|rest: Seq<u8>|
            bytes@ == #[trigger] (seq![0u8] + rest) ==> (r matches Ok(p) && p.0 is None && p.1@
                == rest),
{
    if bytes.len() == 0 {
        return Err(DeserializeError);
    }
    let tag = bytes[0];
    let after = tail_from(bytes, 1);
    proof {
        assert forall|s: Seq<G1Affine>, rest: Seq<u8>|
            s.len() <= usize::MAX && bytes@ == #[trigger] (seq![1u8] + usize_le_bytes(
                s.len() as usize,
            ) + g1_user_elems_bytes(s) + rest) implies bytes@[0] == 1u8 && after@
            == usize_le_bytes(s.len() as usize) + g1_user_elems_bytes(s) + rest by {
            assert(bytes@ =~= seq![1u8] + (usize_le_bytes(s.len() as usize) + g1_user_elems_bytes(
                s,
            ) + rest));
            assert(after@ =~= usize_le_bytes(s.len() as usize) + g1_user_elems_bytes(s) + rest);
        }
        assert forall|rest: Seq<u8>|
            bytes@ == #[trigger] (seq![0u8] + rest) implies bytes@[0] == 0u8 && after@ == rest by {
            assert(after@ =~= rest);
        }
    }
    if tag == 0 {
        Ok((None, after))
    } else if tag == 1 {
        let inner = read_g1_vec_unchecked(&after);
        match inner {
            Err(e) => Err(e),
            Ok(p) => Ok((Some(p.0), p.1)),
        }
    } else {
        Err(DeserializeError)
    }
}

/// `CommitterKey` is used to commit to and create evaluation proofs for a
/// given polynomial.
#[derive(Clone)]
pub struct CommitterKey {
    /// The key used to commit to polynomials.
    pub powers: Vec<G1Affine>,
    /// The key used to commit to shifted polynomials.
    /// This is `None` if `self` does not support enforcing any degree
    /// bounds.
    pub shifted_powers: Option<Vec<G1Affine>>,
    /// The key used to commit to hiding polynomials.
    pub powers_of_gamma_g: Vec<G1Affine>,
    /// The degree bounds that are supported by `self`, in ascending order
    /// from smallest to largest.
    /// This is `None` if `self` does not support enforcing any degree
    /// bounds.
    pub enforced_degree_bounds: Option<Vec<usize>>,
    /// The maximum degree supported by the `UniversalParams` `self` was
    /// derived from.
    pub max_degree: usize,
}

impl CommitterKey {
    /// Obtain powers for the underlying KZG10 construction.
    pub fn powers(&self) -> (r: kzg10::Powers)
        ensures
            r.powers_of_g@ == self.powers@,
            r.powers_of_gamma_g@ == self.powers_of_gamma_g@,
    {
        kzg10::Powers {
            powers_of_g: copy_g1_vec(&self.powers),
            powers_of_gamma_g: copy_g1_vec(&self.powers_of_gamma_g),
        }
    }

    /// Obtain powers for committing to shifted polynomials: for bound `b`,
    /// the window of the shifted powers that starts at the largest enforced
    /// bound minus `b`.
    pub fn shifted_powers(&self, degree_bound: Option<usize>) -> (r: Option<kzg10::Powers>)
        requires
            self.wf(),
            self.shifted_powers is Some && degree_bound is Some
                ==> self.enforced_degree_bounds->0@.contains(degree_bound->0),
        ensures
            r is Some <==> self.shifted_powers is Some,
            self.shifted_powers matches Some(sp) ==> {
                &&& r matches Some(p)
                &&& p.powers_of_gamma_g@ == self.powers_of_gamma_g@
                &&& p.powers_of_g@ == match degree_bound {
                    Some(d) => sp@.subrange(
                        self.enforced_degree_bounds->0@.last() - d,
                        sp@.len() as int,
                    ),
                    None => sp@,
                }
            },
    {
        match &self.shifted_powers {
            None => None,
            Some(sp) => {
                let start: usize = match degree_bound {
                    Some(d) => {
                        let eb = self.enforced_degree_bounds.as_ref().unwrap();
                        let max_bound = eb[eb.len() - 1];
                        proof {
                            let ghost ebs = self.enforced_degree_bounds->0@;
                            let ghost k = choose|k: int| 0 <= k < ebs.len() && ebs[k] == d;
                            assert(ebs[k] <= ebs[ebs.len() - 1]);
                        }
                        max_bound - d
                    }
                    None => 0,
                };
                let n = sp.len();
                let mut powers_of_g: Vec<G1Affine> = Vec::new();
                let mut i: usize = start;
                while i < n
                    invariant
                        start <= i <= n,
                        n == sp@.len(),
                        powers_of_g@ == sp@.subrange(start as int, i as int),
                    decreases n - i,
                {
                    powers_of_g.push(sp[i]);
                    proof {
                        assert(powers_of_g@ =~= sp@.subrange(start as int, i + 1 as int));
                    }
                    i = i + 1;
                }
                Some(
                    kzg10::Powers {
                        powers_of_g,
                        powers_of_gamma_g: copy_g1_vec(&self.powers_of_gamma_g),
                    },
                )
            }
        }
    }

    /// The canonical serialization of the key: the main and hiding powers
    /// uncompressed, the shifted powers compressed, each list behind an
    /// eight-byte count and each option behind a one-byte flag, and the
    /// maximum degree last.
    pub open spec fn spec_serialize_bytes(&self) -> Seq<u8> {
        usize_le_bytes(self.powers@.len() as usize) + g1_user_elems_bytes(self.powers@)
            + self.spec_shifted_bytes() + usize_le_bytes(
            self.powers_of_gamma_g@.len() as usize,
        ) + g1_user_elems_bytes(self.powers_of_gamma_g@) + self.spec_bounds_bytes()
            + usize_le_bytes(self.max_degree)
    }

    /// The serialization of the optional shifted powers: a presence flag,
    /// then the compressed list.
    pub open spec fn spec_shifted_bytes(&self) -> Seq<u8> {
        match self.shifted_powers {
            Some(sp) => seq![1u8] + usize_le_bytes(sp@.len() as usize) + g1_cser_elems_bytes(sp@),
            None => seq![0u8],
        }
    }

    /// The serialization of the optional enforced bounds: a presence flag,
    /// then the list of degrees.
    pub open spec fn spec_bounds_bytes(&self) -> Seq<u8> {
        match self.enforced_degree_bounds {
            Some(eb) => seq![1u8] + usize_le_bytes(eb@.len() as usize) + usize_elems_bytes(eb@),
            None => seq![0u8],
        }
    }

    /// Whether the shifted powers, when present, are all valid elements.
    pub open spec fn spec_shifted_valid(&self) -> bool {
        self.shifted_powers matches Some(sp) ==> g1_seq_valid(sp@)
    }

    /// Whether every group element in the key is valid.
    pub open spec fn spec_all_valid(&self) -> bool {
        &&& g1_seq_valid(self.powers@)
        &&& g1_seq_valid(self.powers_of_gamma_g@)
        &&& self.spec_shifted_valid()
    }

    /// Whether every list in the key has a representable length.
    pub open spec fn spec_lens_bounded(&self) -> bool {
        &&& self.powers@.len() <= usize::MAX
        &&& self.powers_of_gamma_g@.len() <= usize::MAX
        &&& (self.shifted_powers matches Some(sp) ==> sp@.len() <= usize::MAX)
        &&& (self.enforced_degree_bounds matches Some(eb) ==> eb@.len() <= usize::MAX)
    }

    /// The fully uncompressed serialization of the key, laid out as the
    /// canonical one but with the shifted powers uncompressed too.
    pub open spec fn spec_serialize_uncompressed_bytes(&self) -> Seq<u8> {
        usize_le_bytes(self.powers@.len() as usize) + g1_user_elems_bytes(self.powers@)
            + self.spec_shifted_bytes_uncompressed() + usize_le_bytes(
            self.powers_of_gamma_g@.len() as usize,
        ) + g1_user_elems_bytes(self.powers_of_gamma_g@) + self.spec_bounds_bytes()
            + usize_le_bytes(self.max_degree)
    }

    /// The uncompressed serialization of the optional shifted powers.
    pub open spec fn spec_shifted_bytes_uncompressed(&self) -> Seq<u8> {
        match self.shifted_powers {
            Some(sp) => seq![1u8] + usize_le_bytes(sp@.len() as usize) + g1_user_elems_bytes(sp@),
            None => seq![0u8],
        }
    }

    /// Append the canonical serialization of the key.
    #[verifier::rlimit(40)]
    pub fn serialize(&self, writer: &mut Vec<u8>)
        ensures
            final(writer)@ == old(writer)@ + self.spec_serialize_bytes(),
    {
        write_g1_vec_uncompressed(&self.powers, writer);
        match &self.shifted_powers {
            Some(sp) => {
                writer.push(1u8);
                write_g1_vec_compressed(sp, writer);
            }
            None => {
                writer.push(0u8);
            }
        }
        write_g1_vec_uncompressed(&self.powers_of_gamma_g, writer);
        match &self.enforced_degree_bounds {
            Some(eb) => {
                writer.push(1u8);
                write_usize_vec(eb, writer);
            }
            None => {
                writer.push(0u8);
            }
        }
        let mut mb = usize_to_le_bytes(self.max_degree);
        writer.append(&mut mb);
        proof {
            assert(writer@ =~= old(writer)@ + self.spec_serialize_bytes());
        }
    }

    /// The length of the canonical serialization.
    pub fn serialized_size(&self) -> (r: usize)
        ensures
            r == self.spec_serialize_bytes().len(),
    {
        let mut buf: Vec<u8> = Vec::new();
        self.serialize(&mut buf);
        buf.len()
    }

    /// Append the fully uncompressed serialization of the key.
    #[verifier::rlimit(40)]
    pub fn serialize_uncompressed(&self, writer: &mut Vec<u8>)
        ensures
            final(writer)@ == old(writer)@ + self.spec_serialize_uncompressed_bytes(),
    {
        write_g1_vec_uncompressed(&self.powers, writer);
        match &self.shifted_powers {
            Some(sp) => {
                writer.push(1u8);
                write_g1_vec_uncompressed(sp, writer);
            }
            None => {
                writer.push(0u8);
            }
        }
        write_g1_vec_uncompressed(&self.powers_of_gamma_g, writer);
        match &self.enforced_degree_bounds {
            Some(eb) => {
                writer.push(1u8);
                write_usize_vec(eb, writer);
            }
            None => {
                writer.push(0u8);
            }
        }
        let mut mb = usize_to_le_bytes(self.max_degree);
        writer.append(&mut mb);
        proof {
            assert(writer@ =~= old(writer)@ + self.spec_serialize_uncompressed_bytes());
        }
    }

    /// The length of the fully uncompressed serialization.
    pub fn uncompressed_size(&self) -> (r: usize)
        ensures
            r == self.spec_serialize_uncompressed_bytes().len(),
    {
        let mut buf: Vec<u8> = Vec::new();
        self.serialize_uncompressed(&mut buf);
        buf.len()
    }

    /// Read back a key written by `serialize`: on a serialization of a key
    /// (its shifted powers valid, as the checked compressed read demands)
    /// followed by anything, the key and the remaining bytes come back.
    #[verifier::rlimit(60)]
    pub fn deserialize(bytes: &Vec<u8>) -> (r: Result<(Self, Vec<u8>), DeserializeError>)
        ensures
            forall|ck: CommitterKey, rest: Seq<u8>|
                ck.spec_shifted_valid() && ck.spec_lens_bounded() && bytes@ == #[trigger] (
                ck.spec_serialize_bytes() + rest) ==> (r matches Ok(x) && x.0.powers@
                    == ck.powers@ && (
                match ck.shifted_powers {
                    Some(sp) => x.0.shifted_powers matches Some(xs) && xs@ == sp@,
                    None => x.0.shifted_powers is None,
                }) && x.0.powers_of_gamma_g@ == ck.powers_of_gamma_g@ && (
                match ck.enforced_degree_bounds {
                    Some(eb) => x.0.enforced_degree_bounds matches Some(xe) && xe@ == eb@,
                    None => x.0.enforced_degree_bounds is None,
                }) && x.0.max_degree == ck.max_degree && x.1@ == rest),
    {
        proof {
            assert forall|ck: CommitterKey, rest: Seq<u8>|
                ck.spec_shifted_valid() && ck.spec_lens_bounded() && bytes@ == #[trigger] (
                ck.spec_serialize_bytes() + rest) implies bytes@ == usize_le_bytes(
                ck.powers@.len() as usize,
            )
                + g1_user_elems_bytes(ck.powers@) + (ck.spec_shifted_bytes() + (usize_le_bytes(
                ck.powers_of_gamma_g@.len() as usize,
            ) + g1_user_elems_bytes(ck.powers_of_gamma_g@) + (ck.spec_bounds_bytes() + (
            usize_le_bytes(ck.max_degree) + rest)))) by {
                assert(ck.spec_serialize_bytes() + rest =~= usize_le_bytes(
                    ck.powers@.len() as usize,
                ) + g1_user_elems_bytes(ck.powers@) + (ck.spec_shifted_bytes() + (usize_le_bytes(
                    ck.powers_of_gamma_g@.len() as usize,
                ) + g1_user_elems_bytes(ck.powers_of_gamma_g@) + (ck.spec_bounds_bytes() + (
                usize_le_bytes(ck.max_degree) + rest)))));
            }
        }
        let step1 = read_g1_vec_unchecked(bytes);
        let (powers, cur) = match step1 {
            Err(e) => {
                return Err(e);
            }
            Ok(p) => p,
        };
        let step2 = read_opt_g1_vec_compressed(&cur);
        let (shifted_powers, cur) = match step2 {
            Err(e) => {
                return Err(e);
            }
            Ok(p) => p,
        };
        let step3 = read_g1_vec_unchecked(&cur);
        let (powers_of_gamma_g, cur) = match step3 {
            Err(e) => {
                return Err(e);
            }
            Ok(p) => p,
        };
        let step4 = read_opt_usize_vec(&cur);
        let (enforced_degree_bounds, cur) = match step4 {
            Err(e) => {
                return Err(e);
            }
            Ok(p) => p,
        };
        let step5 = read_usize(&cur);
        let (max_degree, leftover) = match step5 {
            Err(e) => {
                return Err(e);
            }
            Ok(p) => p,
        };
        Ok((
            CommitterKey { powers, shifted_powers, powers_of_gamma_g, enforced_degree_bounds, max_degree },
            leftover,
        ))
    }

    /// Read back a key written by `serialize_uncompressed` without curve or
    /// subgroup checks: on such a serialization followed by anything, the
    /// key and the remaining bytes come back.
    #[verifier::rlimit(60)]
    pub fn deserialize_unchecked(bytes: &Vec<u8>) -> (r: Result<(Self, Vec<u8>), DeserializeError>)
        ensures
            forall|ck: CommitterKey, rest: Seq<u8>|
                ck.spec_lens_bounded() && bytes@ == #[trigger] (
                ck.spec_serialize_uncompressed_bytes() + rest) ==> (r matches Ok(x)
                    && x.0.powers@ == ck.powers@ && (
                match ck.shifted_powers {
                    Some(sp) => x.0.shifted_powers matches Some(xs) && xs@ == sp@,
                    None => x.0.shifted_powers is None,
                }) && x.0.powers_of_gamma_g@ == ck.powers_of_gamma_g@ && (
                match ck.enforced_degree_bounds {
                    Some(eb) => x.0.enforced_degree_bounds matches Some(xe) && xe@ == eb@,
                    None => x.0.enforced_degree_bounds is None,
                }) && x.0.max_degree == ck.max_degree && x.1@ == rest),
    {
        proof {
            assert forall|ck: CommitterKey, rest: Seq<u8>|
                ck.spec_lens_bounded() && bytes@ == #[trigger] (
                ck.spec_serialize_uncompressed_bytes() + rest) implies bytes@ == usize_le_bytes(
                ck.powers@.len() as usize,
            ) + g1_user_elems_bytes(ck.powers@) + (ck.spec_shifted_bytes_uncompressed() + (
            usize_le_bytes(ck.powers_of_gamma_g@.len() as usize) + g1_user_elems_bytes(
                ck.powers_of_gamma_g@,
            ) + (ck.spec_bounds_bytes() + (usize_le_bytes(ck.max_degree) + rest)))) by {
                assert(ck.spec_serialize_uncompressed_bytes() + rest =~= usize_le_bytes(
                    ck.powers@.len() as usize,
                ) + g1_user_elems_bytes(ck.powers@) + (ck.spec_shifted_bytes_uncompressed() + (
                usize_le_bytes(ck.powers_of_gamma_g@.len() as usize) + g1_user_elems_bytes(
                    ck.powers_of_gamma_g@,
                ) + (ck.spec_bounds_bytes() + (usize_le_bytes(ck.max_degree) + rest)))));
            }
        }
        let step1 = read_g1_vec_unchecked(bytes);
        let (powers, cur) = match step1 {
            Err(e) => {
                return Err(e);
            }
            Ok(p) => p,
        };
        let step2 = read_opt_g1_vec_unchecked(&cur);
        let (shifted_powers, cur) = match step2 {
            Err(e) => {
                return Err(e);
            }
            Ok(p) => p,
        };
        let step3 = read_g1_vec_unchecked(&cur);
        let (powers_of_gamma_g, cur) = match step3 {
            Err(e) => {
                return Err(e);
            }
            Ok(p) => p,
        };
        let step4 = read_opt_usize_vec(&cur);
        let (enforced_degree_bounds, cur) = match step4 {
            Err(e) => {
                return Err(e);
            }
            Ok(p) => p,
        };
        let step5 = read_usize(&cur);
        let (max_degree, leftover) = match step5 {
            Err(e) => {
                return Err(e);
            }
            Ok(p) => p,
        };
        Ok((
            CommitterKey { powers, shifted_powers, powers_of_gamma_g, enforced_degree_bounds, max_degree },
            leftover,
        ))
    }
    /// Read back, with subgroup checks, a key written by
    /// `serialize_uncompressed`: on such a serialization of a key with
    /// valid elements followed by anything, the key and the remaining
    /// bytes come back.
    #[verifier::rlimit(60)]
    pub fn deserialize_uncompressed(bytes: &Vec<u8>) -> (r: Result<(Self, Vec<u8>), DeserializeError>)
        ensures
            forall|ck: CommitterKey, rest: Seq<u8>|
                ck.spec_all_valid() && ck.spec_lens_bounded() && bytes@ == #[trigger] (
                ck.spec_serialize_uncompressed_bytes() + rest) ==> (r matches Ok(x)
                    && x.0.powers@ == ck.powers@ && (
                match ck.shifted_powers {
                    Some(sp) => x.0.shifted_powers matches Some(xs) && xs@ == sp@,
                    None => x.0.shifted_powers is None,
                }) && x.0.powers_of_gamma_g@ == ck.powers_of_gamma_g@ && (
                match ck.enforced_degree_bounds {
                    Some(eb) => x.0.enforced_degree_bounds matches Some(xe) && xe@ == eb@,
                    None => x.0.enforced_degree_bounds is None,
                }) && x.0.max_degree == ck.max_degree && x.1@ == rest),
    {
        proof {
            assert forall|ck: CommitterKey, rest: Seq<u8>|
                ck.spec_all_valid() && ck.spec_lens_bounded() && bytes@ == #[trigger] (
                ck.spec_serialize_uncompressed_bytes() + rest) implies bytes@ == usize_le_bytes(
                ck.powers@.len() as usize,
            ) + g1_user_elems_bytes(ck.powers@) + (ck.spec_shifted_bytes_uncompressed() + (
            usize_le_bytes(ck.powers_of_gamma_g@.len() as usize) + g1_user_elems_bytes(
                ck.powers_of_gamma_g@,
            ) + (ck.spec_bounds_bytes() + (usize_le_bytes(ck.max_degree) + rest)))) by {
                assert(ck.spec_serialize_uncompressed_bytes() + rest =~= usize_le_bytes(
                    ck.powers@.len() as usize,
                ) + g1_user_elems_bytes(ck.powers@) + (ck.spec_shifted_bytes_uncompressed() + (
                usize_le_bytes(ck.powers_of_gamma_g@.len() as usize) + g1_user_elems_bytes(
                    ck.powers_of_gamma_g@,
                ) + (ck.spec_bounds_bytes() + (usize_le_bytes(ck.max_degree) + rest)))));
            }
        }
        let step1 = read_g1_vec_uncompressed(bytes);
        let (powers, cur) = match step1 {
            Err(e) => {
                return Err(e);
            }
            Ok(p) => p,
        };
        let step2 = read_opt_g1_vec_uncompressed(&cur);
        let (shifted_powers, cur) = match step2 {
            Err(e) => {
                return Err(e);
            }
            Ok(p) => p,
        };
        let step3 = read_g1_vec_uncompressed(&cur);
        let (powers_of_gamma_g, cur) = match step3 {
            Err(e) => {
                return Err(e);
            }
            Ok(p) => p,
        };
        let step4 = read_opt_usize_vec(&cur);
        let (enforced_degree_bounds, cur) = match step4 {
            Err(e) => {
                return Err(e);
            }
            Ok(p) => p,
        };
        let step5 = read_usize(&cur);
        let (max_degree, leftover) = match step5 {
            Err(e) => {
                return Err(e);
            }
            Ok(p) => p,
        };
        Ok((
            CommitterKey { powers, shifted_powers, powers_of_gamma_g, enforced_degree_bounds, max_degree },
            leftover,
        ))
    }
}

/// An element-for-element copy of a vector of group elements.
fn copy_g1_vec(v: &Vec<G1Affine>) -> (r: Vec<G1Affine>)
    ensures
        r@ == v@,
{
    let n = v.len();
    let mut out: Vec<G1Affine> = Vec::new();
    let mut i: usize = 0;
    while i < n
        invariant
            i <= n,
            n == v@.len(),
            out@ == v@.subrange(0, i as int),
        decreases n - i,
    {
        out.push(v[i]);
        proof {
            assert(out@ =~= v@.subrange(0, i + 1 as int));
        }
        i = i + 1;
    }
    proof {
        assert(v@.subrange(0, n as int) =~= v@);
    }
    out
}

impl PCCommitterKey for CommitterKey {
    /// The key's invariant: the key holds at least one power and supports
    /// at most the maximum degree; shifted powers and enforced bounds are
    /// present together, the bounds are sorted ascending, each is strictly
    /// below the maximum degree, and the largest fits the shifted-power
    /// window.
    open spec fn wf(&self) -> bool {
        &&& self.powers@.len() >= 1
        &&& self.powers@.len() - 1 <= self.max_degree
        &&& (self.shifted_powers is Some <==> self.enforced_degree_bounds is Some)
        &&& (self.enforced_degree_bounds matches Some(eb) ==> {
            &&& eb@.len() >= 1
            &&& forall|i: int, j: int| 0 <= i <= j < eb@.len() ==> eb@[i] <= eb@[j]
            &&& eb@[eb@.len() - 1] < self.max_degree
            &&& eb@[eb@.len() - 1] <= self.shifted_powers->0@.len()
        })
    }

    open spec fn spec_max_degree(&self) -> usize {
        self.max_degree
    }

    open spec fn spec_supported_degree(&self) -> usize {
        (self.powers@.len() - 1) as usize
    }

    fn max_degree(&self) -> (r: usize) {
        self.max_degree
    }

    fn supported_degree(&self) -> (r: usize) {
        self.powers.len() - 1
    }
}

/// `VerifierKey` is used to check evaluation proofs for a given commitment.
#[derive(Clone)]
pub struct VerifierKey {
    /// The verification key for the underlying KZG10 scheme.
    pub vk: kzg10::VerifierKey,
    /// Information required to enforce degree bounds. Each pair is of the
    /// form `(degree_bound, shifting_advice)`. The vector is sorted in
    /// ascending order of `degree_bound`.
    /// This is `None` if `self` does not support enforcing any degree
    /// bounds.
    pub degree_bounds_and_shift_powers: Option<Vec<(usize, G1Affine)>>,
    /// The maximum degree supported by the `UniversalParams` `self` was
    /// derived from.
    pub max_degree: usize,
    /// The maximum degree supported by the trimmed parameters that `self`
    /// is a part of.
    pub supported_degree: usize,
}

/// The byte serialization of a `(degree_bound, shift_power)` list: each
/// bound as eight little-endian bytes, followed by its power.
pub open spec fn shift_powers_bytes(v: Seq<(usize, G1Affine)>) -> Seq<u8>
    decreases v.len(),
{
    if v.len() == 0 {
        Seq::<u8>::empty()
    } else {
        shift_powers_bytes(v.drop_last()) + usize_le_bytes(v.last().0) + g1_bytes_s(v.last().1)
    }
}

impl VerifierKey {
    /// The key's invariant: the degree-bound list, when present, is sorted
    /// ascending by bound.
    pub open spec fn wf(&self) -> bool {
        self.degree_bounds_and_shift_powers matches Some(v) ==> forall|i: int, j: int|
            0 <= i <= j < v@.len() ==> (#[trigger] v@[i]).0 <= (#[trigger] v@[j]).0
    }

    /// Find the appropriate shift for the degree bound: the power paired
    /// with exactly `bound`, or nothing when `bound` is not enforced.
    pub fn get_shift_power(&self, bound: usize) -> (r: Option<G1Affine>)
        requires
            self.wf(),
        ensures
            r is Some <==> (self.degree_bounds_and_shift_powers matches Some(v) && exists|k: int|
                0 <= k < v@.len() && (#[trigger] v@[k]).0 == bound),
            r matches Some(p) ==> exists|k: int|
                0 <= k < self.degree_bounds_and_shift_powers->0@.len()
                    && (#[trigger] self.degree_bounds_and_shift_powers->0@[k]).0 == bound
                    && self.degree_bounds_and_shift_powers->0@[k].1 == p,
    {
        match &self.degree_bounds_and_shift_powers {
            None => None,
            Some(v) => {
                let ghost vs = v@;
                let mut lo: usize = 0;
                let mut hi: usize = v.len();
                while lo < hi
                    invariant
                        lo <= hi <= vs.len(),
                        vs == v@,
                        self.degree_bounds_and_shift_powers matches Some(w) && w@ == vs,
                        forall|i: int, j: int|
                            0 <= i <= j < vs.len() ==> (#[trigger] vs[i]).0 <= (#[trigger] vs[j]).0,
                        forall|k: int| 0 <= k < lo ==> (#[trigger] vs[k]).0 < bound,
                        forall|k: int| hi <= k < vs.len() ==> (#[trigger] vs[k]).0 > bound,
                    decreases hi - lo,
                {
                    let mid = lo + (hi - lo) / 2;
                    let d = v[mid].0;
                    if d == bound {
                        proof {
                            let ghost all = self.degree_bounds_and_shift_powers->Some_0@;
                            assert(0 <= mid < all.len() && all[mid as int].0 == bound);
                            assert(exists|k: int|
                                0 <= k < all.len() && (#[trigger] all[k]).0 == bound);
                            assert(exists|k: int|
                                0 <= k < all.len() && (#[trigger] all[k]).0 == bound && all[k].1
                                    == all[mid as int].1);
                        }
                        return Some(v[mid].1);
                    } else if d < bound {
                        lo = mid + 1;
                    } else {
                        hi = mid;
                    }
                }
                None
            }
        }
    }

    /// Append the byte serialization of the key: the KZG10 key, then, when
    /// degree bounds are enforced, their number followed by each
    /// `(bound, shift_power)` pair, and finally the two degrees.
    pub fn write(&self, writer: &mut Vec<u8>)
        ensures
            final(writer)@ == old(writer)@ + self.vk.spec_bytes() + (
            match self.degree_bounds_and_shift_powers {
                Some(v) => usize_le_bytes(v@.len() as usize) + shift_powers_bytes(v@),
                None => Seq::<u8>::empty(),
            }) + usize_le_bytes(self.supported_degree) + usize_le_bytes(self.max_degree),
    {
        self.vk.write(writer);
        match &self.degree_bounds_and_shift_powers {
            Some(v) => {
                let ghost vs = v@;
                let ghost base = writer@;
                let n = v.len();
                let mut b = usize_to_le_bytes(n);
                writer.append(&mut b);
                let mut i: usize = 0;
                while i < n
                    invariant
                        i <= n,
                        n == vs.len(),
                        vs == v@,
                        writer@ == base + usize_le_bytes(n as usize) + shift_powers_bytes(
                            vs.subrange(0, i as int),
                        ),
                    decreases n - i,
                {
                    let mut db = usize_to_le_bytes(v[i].0);
                    writer.append(&mut db);
                    let mut pb = g1_to_bytes(&v[i].1);
                    writer.append(&mut pb);
                    proof {
                        assert(vs.subrange(0, i + 1 as int).drop_last() =~= vs.subrange(
                            0,
                            i as int,
                        ));
                        assert(writer@ =~= base + usize_le_bytes(n as usize) + shift_powers_bytes(
                            vs.subrange(0, i + 1 as int),
                        ));
                    }
                    i = i + 1;
                }
                proof {
                    assert(vs.subrange(0, n as int) =~= vs);
                }
            }
            None => {}
        }
        let mut sb = usize_to_le_bytes(self.supported_degree);
        writer.append(&mut sb);
        let mut mb = usize_to_le_bytes(self.max_degree);
        writer.append(&mut mb);
        proof {
            assert(writer@ =~= old(writer)@ + self.vk.spec_bytes() + (
            match self.degree_bounds_and_shift_powers {
                Some(v) => usize_le_bytes(v@.len() as usize) + shift_powers_bytes(v@),
                None => Seq::<u8>::empty(),
            }) + usize_le_bytes(self.supported_degree) + usize_le_bytes(self.max_degree));
        }
    }
}

impl PCVerifierKey for VerifierKey {
    open spec fn spec_max_degree(&self) -> usize {
        self.max_degree
    }

    open spec fn spec_supported_degree(&self) -> usize {
        self.supported_degree
    }

    fn max_degree(&self) -> (r: usize) {
        self.max_degree
    }

    fn supported_degree(&self) -> (r: usize) {
        self.supported_degree
    }
}

/// `PreparedVerifierKey` is used to check evaluation proofs for a given
/// commitment.
#[derive(Clone)]
pub struct PreparedVerifierKey {
    /// The verification key for the underlying KZG10 scheme.
    pub prepared_vk: kzg10::PreparedVerifierKey,
    /// Information required to enforce degree bounds. Each pair is of the
    /// form `(degree_bound, prepared_shifting_advice)`.
    /// This is `None` if `self` does not support enforcing any degree
    /// bounds.
    pub prepared_degree_bounds_and_shift_powers: Option<Vec<(usize, Vec<G1Affine>)>>,
    /// The maximum degree supported by the `UniversalParams` `self` was
    /// derived from.
    pub max_degree: usize,
    /// The maximum degree supported by the trimmed parameters that `self`
    /// is a part of.
    pub supported_degree: usize,
}

impl PCPreparedVerifierKey<VerifierKey> for PreparedVerifierKey {
    open spec fn prepare_post(vk: &VerifierKey, r: Self) -> bool {
        &&& doubling_table(vk.vk.g, r.prepared_vk.prepared_g@)
        &&& r.prepared_vk.prepared_h == vk.vk.prepared_h
        &&& r.prepared_vk.prepared_beta_h == vk.vk.prepared_beta_h
        &&& r.max_degree == vk.max_degree
        &&& r.supported_degree == vk.supported_degree
        &&& match vk.degree_bounds_and_shift_powers {
            None => r.prepared_degree_bounds_and_shift_powers is None,
            Some(v) => {
                &&& r.prepared_degree_bounds_and_shift_powers matches Some(pv)
                &&& pv@.len() == v@.len()
                &&& forall|k: int|
                    0 <= k < v@.len() ==> (#[trigger] pv@[k]).0 == v@[k].0 && doubling_table(
                        v@[k].1,
                        pv@[k].1@,
                    )
            },
        }
    }

    /// prepare `PreparedVerifierKey` from `VerifierKey`: the KZG10 key is
    /// prepared, and each shift power becomes its doubling table.
    fn prepare(vk: &VerifierKey) -> (r: Self) {
        let prepared_vk = kzg10::PreparedVerifierKey::prepare(&vk.vk);
        let prepared_degree_bounds_and_shift_powers: Option<Vec<(usize, Vec<G1Affine>)>> =
            match &vk.degree_bounds_and_shift_powers {
            Some(v) => {
                let ghost vs = v@;
                let n = v.len();
                let mut res: Vec<(usize, Vec<G1Affine>)> = Vec::new();
                let mut i: usize = 0;
                while i < n
                    invariant
                        i <= n,
                        n == vs.len(),
                        vs == v@,
                        res@.len() == i,
                        forall|k: int|
                            0 <= k < i ==> (#[trigger] res@[k]).0 == vs[k].0 && doubling_table(
                                vs[k].1,
                                res@[k].1@,
                            ),
                    decreases n - i,
                {
                    let d = v[i].0;
                    let prepared_shift_power = doubling_table_of(&v[i].1);
                    res.push((d, prepared_shift_power));
                    i = i + 1;
                }
                Some(res)
            }
            None => None,
        };
        Self {
            prepared_vk,
            prepared_degree_bounds_and_shift_powers,
            max_degree: vk.max_degree,
            supported_degree: vk.supported_degree,
        }
    }
}

/// Commitment to a polynomial that optionally enforces a degree bound.
pub struct Commitment {
    /// A KZG10 commitment to the polynomial.
    pub comm: kzg10::Commitment,
    /// A KZG10 commitment to the shifted polynomial.
    /// This is `None` if the committed polynomial does not enforce a strict
    /// degree bound.
    pub shifted_comm: Option<kzg10::Commitment>,
}

impl Clone for Commitment {
    /// An exact copy of the commitment.
    fn clone(&self) -> (r: Self)
        ensures
            r == *self,
    {
        Commitment { comm: self.comm, shifted_comm: self.shifted_comm }
    }
}

impl Copy for Commitment {}

impl Commitment {
    /// Append the byte serialization of the commitment: the main element, a
    /// one-byte flag for the presence of the shifted element, then the
    /// shifted element or the identity element in its place.
    pub fn write(&self, writer: &mut Vec<u8>)
        ensures
            match self.shifted_comm {
                Some(sc) => final(writer)@ == old(writer)@ + g1_bytes_s(self.comm.0) + seq![1u8]
                    + g1_bytes_s(sc.0),
                None => exists|z: G1Affine|
                    g1_is_zero_s(z) && final(writer)@ == old(writer)@ + g1_bytes_s(self.comm.0)
                        + seq![0u8] + g1_bytes_s(z),
            },
    {
        self.comm.write(writer);
        match &self.shifted_comm {
            Some(sc) => {
                writer.push(1u8);
                sc.write(writer);
                proof {
                    assert(writer@ =~= old(writer)@ + g1_bytes_s(self.comm.0) + seq![1u8]
                        + g1_bytes_s((self.shifted_comm->0).0));
                }
            }
            None => {
                writer.push(0u8);
                let empty = kzg10::Commitment::zero();
                empty.write(writer);
                proof {
                    assert(writer@ =~= old(writer)@ + g1_bytes_s(self.comm.0) + seq![0u8]
                        + g1_bytes_s(empty.0));
                }
            }
        }
    }

    /// The sum of two commitments: the main elements add, and so do the
    /// shifted elements where the first operand carries one.  A
    /// degree-bound commitment can only absorb another degree-bound one.
    pub fn add(self, other: Self) -> (r: Self)
        requires
            self.shifted_comm is Some ==> other.shifted_comm is Some,
        ensures
            r.comm.0 == g1_add_s(self.comm.0, other.comm.0),
            r.comm.0 == g1_add_s(other.comm.0, self.comm.0),
            match self.shifted_comm {
                Some(sc) => r.shifted_comm matches Some(x) && x.0 == g1_add_s(
                    sc.0,
                    (other.shifted_comm->0).0,
                ),
                None => r.shifted_comm == other.shifted_comm,
            },
    {
        let shifted_comm = match (self.shifted_comm, other.shifted_comm) {
            (Some(c), Some(o)) => Some(c.add(o)),
            _ => other.shifted_comm,
        };
        Commitment { comm: self.comm.add(other.comm), shifted_comm }
    }

    /// The zero commitment, with no degree bound.
    pub fn zero() -> (r: Self)
        ensures
            g1_is_zero_s(r.comm.0),
            r.shifted_comm is None,
    {
        Commitment { comm: kzg10::Commitment::zero(), shifted_comm: None }
    }

    /// Whether both the main element and the shifted element (when present)
    /// are the identity.
    pub fn is_zero(&self) -> (r: bool)
        ensures
            r == (g1_is_zero_s(self.comm.0) && match self.shifted_comm {
                Some(sc) => g1_is_zero_s(sc.0),
                None => true,
            }),
    {
        let main_zero = self.comm.is_zero();
        match &self.shifted_comm {
            Some(sc) => main_zero && sc.is_zero(),
            None => main_zero,
        }
    }


    /// Reconstruct a shared commitment: the pointwise sum of the shares,
    /// whose shifted elements must be uniformly present or absent.  Applied
    /// to what `share` returns, it gives back the original.
    pub fn reconstruct(shares: &Vec<Commitment>) -> (r: Commitment)
        requires
            shares@.len() >= 1,
            (forall|j: int|
                0 <= j < shares@.len() ==> (#[trigger] shares@[j]).shifted_comm is Some) || (
            forall|j: int|
                0 <= j < shares@.len() ==> (#[trigger] shares@[j]).shifted_comm is None),
        ensures
            r.comm.0 == g1_sum(shares@.map_values(|c: Commitment| c.comm.0)),
            (forall|j: int|
                0 <= j < shares@.len() ==> (#[trigger] shares@[j]).shifted_comm is None)
                ==> r.shifted_comm is None,
            (forall|j: int|
                0 <= j < shares@.len() ==> (#[trigger] shares@[j]).shifted_comm is Some) ==> (
            r.shifted_comm matches Some(sc) && sc.0 == g1_sum(
                shares@.map_values(|c: Commitment| (c.shifted_comm->0).0),
            )),
    {
        let ghost cs = shares@.map_values(|c: Commitment| c.comm.0);
        let ghost ss = shares@.map_values(|c: Commitment| (c.shifted_comm->0).0);
        let mut acc = shares[0];
        proof {
            assert(cs.subrange(0, 1) =~= seq![cs[0]]);
            assert(ss.subrange(0, 1) =~= seq![ss[0]]);
        }
        let n = shares.len();
        let mut i: usize = 1;
        while i < n
            invariant
                1 <= i <= n,
                n == shares@.len(),
                cs == shares@.map_values(|c: Commitment| c.comm.0),
                ss == shares@.map_values(|c: Commitment| (c.shifted_comm->0).0),
                (forall|j: int|
                    0 <= j < shares@.len() ==> (#[trigger] shares@[j]).shifted_comm is Some) || (
                forall|j: int|
                    0 <= j < shares@.len() ==> (#[trigger] shares@[j]).shifted_comm is None),
                acc.comm.0 == g1_sum(cs.subrange(0, i as int)),
                shares@[0].shifted_comm is None ==> acc.shifted_comm is None,
                shares@[0].shifted_comm is Some ==> (acc.shifted_comm matches Some(sc) && sc.0
                    == g1_sum(ss.subrange(0, i as int))),
            decreases n - i,
        {
            acc = acc.add(shares[i]);
            proof {
                assert(cs.subrange(0, i + 1 as int).drop_last() =~= cs.subrange(0, i as int));
                assert(ss.subrange(0, i + 1 as int).drop_last() =~= ss.subrange(0, i as int));
            }
            i = i + 1;
        }
        proof {
            assert(cs.subrange(0, n as int) =~= cs);
            assert(ss.subrange(0, n as int) =~= ss);
        }
        acc
    }

    /// Split a commitment with valid elements into `num` additive shares:
    /// the main element and, when present, the shifted element are shared
    /// by one call each, so the shares sum back to the original commitment.
    pub fn share(&self, num: usize, rng: &mut SeededRng) -> (r: Vec<Self>)
        requires
            num >= 1,
            g1_valid_s(self.comm.0),
            self.shifted_comm matches Some(sc) ==> g1_valid_s(sc.0),
        ensures
            r@.len() == num,
            g1_sum(r@.map_values(|c: Commitment| c.comm.0)) == self.comm.0,
            self.shifted_comm is None ==> forall|j: int|
                0 <= j < num ==> (#[trigger] r@[j]).shifted_comm is None,
            self.shifted_comm matches Some(sc) ==> {
                &&& forall|j: int| 0 <= j < num ==> (#[trigger] r@[j]).shifted_comm is Some
                &&& g1_sum(r@.map_values(|c: Commitment| (c.shifted_comm->0).0)) == sc.0
            },
    {
        let comm_shares = self.comm.share(num, rng);
        let ghost cs = comm_shares@;
        let n = comm_shares.len();
        let mut out: Vec<Commitment> = Vec::new();
        match &self.shifted_comm {
            Some(sc) => {
                let shifted_shares = sc.share(num, rng);
                let ghost ss = shifted_shares@;
                let mut i: usize = 0;
                while i < n
                    invariant
                        n == cs.len(),
                        n == ss.len(),
                        cs == comm_shares@,
                        ss == shifted_shares@,
                        i <= n,
                        out@.len() == i,
                        forall|j: int|
                            0 <= j < i ==> (#[trigger] out@[j]).comm == cs[j]
                                && out@[j].shifted_comm == Some(ss[j]),
                    decreases n - i,
                {
                    out.push(
                        Commitment { comm: comm_shares[i], shifted_comm: Some(shifted_shares[i]) },
                    );
                    i = i + 1;
                }
                proof {
                    assert(out@.map_values(|c: Commitment| c.comm.0) =~= cs.map_values(
                        |c: kzg10::Commitment| c.0,
                    ));
                    assert(out@.map_values(|c: Commitment| (c.shifted_comm->0).0) =~= ss.map_values(
                        |c: kzg10::Commitment| c.0,
                    ));
                }
            }
            None => {
                let mut i: usize = 0;
                while i < n
                    invariant
                        n == cs.len(),
                        cs == comm_shares@,
                        i <= n,
                        out@.len() == i,
                        forall|j: int|
                            0 <= j < i ==> (#[trigger] out@[j]).comm == cs[j]
                                && out@[j].shifted_comm is None,
                    decreases n - i,
                {
                    out.push(Commitment { comm: comm_shares[i], shifted_comm: None });
                    i = i + 1;
                }
                proof {
                    assert(out@.map_values(|c: Commitment| c.comm.0) =~= cs.map_values(
                        |c: kzg10::Commitment| c.0,
                    ));
                }
            }
        }
        out
    }
}

impl PCCommitment for Commitment {
    open spec fn empty_post(r: Self) -> bool {
        &&& g1_is_zero_s(r.comm.0)
        &&& r.shifted_comm matches Some(sc) && g1_is_zero_s(sc.0)
    }

    open spec fn spec_has_degree_bound(&self) -> bool {
        self.shifted_comm is Some
    }

    open spec fn size_post(&self, r: usize) -> bool {
        r == 48 + (if self.shifted_comm is Some { 48int } else { 0int })
    }

    fn empty() -> (r: Self) {
        Commitment {
            comm: kzg10::Commitment::zero(),
            shifted_comm: Some(kzg10::Commitment::zero()),
        }
    }

    fn has_degree_bound(&self) -> (r: bool) {
        self.shifted_comm.is_some()
    }

    fn size_in_bytes(&self) -> (r: usize) {
        let base = self.comm.size_in_bytes();
        match &self.shifted_comm {
            Some(sc) => base + sc.size_in_bytes(),
            None => base,
        }
    }
}

/// Prepared commitment to a polynomial that optionally enforces a degree
/// bound.
#[derive(Clone)]
pub struct PreparedCommitment {
    /// The doubling table of the main commitment.
    pub prepared_comm: kzg10::PreparedCommitment,
    /// The commitment to the shifted polynomial, kept unprepared.
    pub shifted_comm: Option<kzg10::Commitment>,
}

impl PCPreparedCommitment<Commitment> for PreparedCommitment {
    open spec fn prepare_post(comm: &Commitment, r: Self) -> bool {
        &&& doubling_table(comm.comm.0, r.prepared_comm.0@)
        &&& r.shifted_comm == comm.shifted_comm
    }

    /// Prepare commitment to a polynomial that optionally enforces a degree
    /// bound: the main element becomes its doubling table.
    fn prepare(comm: &Commitment) -> (r: Self) {
        let prepared_comm = kzg10::PreparedCommitment::prepare(&comm.comm);
        Self { prepared_comm, shifted_comm: comm.shifted_comm }
    }
}

/// `Randomness` hides the polynomial inside a commitment. It is output by
/// `KZG10::commit`.
pub struct Randomness {
    /// Commitment randomness for a KZG10 commitment.
    pub rand: kzg10::Randomness,
    /// Commitment randomness for a KZG10 commitment to the shifted
    /// polynomial. This is `None` if the committed polynomial does not
    /// enforce a strict degree bound.
    pub shifted_rand: Option<kzg10::Randomness>,
}

impl Clone for Randomness {
    /// An exact copy of the randomness.
    fn clone(&self) -> (r: Self)
        ensures
            r == *self,
    {
        let shifted_rand = match &self.shifted_rand {
            Some(sr) => Some(sr.clone()),
            None => None,
        };
        Randomness { rand: self.rand.clone(), shifted_rand }
    }
}

impl Randomness {
    /// The sum of two randomness values: the main blinding polynomials add,
    /// and the shifted ones combine, an absent one counting as zero.
    pub fn add(self, other: &Self) -> (r: Self)
        ensures
            r.rand.blinding_polynomial == poly_add_s(
                self.rand.blinding_polynomial,
                other.rand.blinding_polynomial,
            ),
            match (self.shifted_rand, other.shifted_rand) {
                (Some(a), Some(b)) => r.shifted_rand matches Some(x) && x.blinding_polynomial
                    == poly_add_s(a.blinding_polynomial, b.blinding_polynomial),
                (Some(a), None) => r.shifted_rand == Some(a),
                (None, _) => r.shifted_rand == other.shifted_rand,
            },
    {
        let mut out = self;
        out.add_assign(other);
        out
    }

    /// Add another randomness value onto `self`, an absent shifted part
    /// counting as zero.
    pub fn add_assign(&mut self, other: &Self)
        ensures
            final(self).rand.blinding_polynomial == poly_add_s(
                old(self).rand.blinding_polynomial,
                other.rand.blinding_polynomial,
            ),
            match (old(self).shifted_rand, other.shifted_rand) {
                (Some(a), Some(b)) => final(self).shifted_rand matches Some(x)
                    && x.blinding_polynomial == poly_add_s(
                    a.blinding_polynomial,
                    b.blinding_polynomial,
                ),
                (Some(a), None) => final(self).shifted_rand == Some(a),
                (None, _) => final(self).shifted_rand == other.shifted_rand,
            },
    {
        self.rand.add_assign(&other.rand);
        let shifted_rand = match (&self.shifted_rand, &other.shifted_rand) {
            (Some(a), Some(b)) => Some(a.clone().add(b)),
            (Some(a), None) => Some(a.clone()),
            (None, Some(b)) => Some(b.clone()),
            (None, None) => None,
        };
        self.shifted_rand = shifted_rand;
    }

    /// The sum of `self` and `f` times another randomness value, an absent
    /// shifted part counting as zero.
    pub fn add_scaled(self, f: Fr, other: &Self) -> (r: Self)
        ensures
            r.rand.blinding_polynomial == poly_add_s(
                self.rand.blinding_polynomial,
                poly_scale_s(f, other.rand.blinding_polynomial),
            ),
            match (self.shifted_rand, other.shifted_rand) {
                (Some(a), Some(b)) => r.shifted_rand matches Some(x) && x.blinding_polynomial
                    == poly_add_s(
                    a.blinding_polynomial,
                    poly_scale_s(f, b.blinding_polynomial),
                ),
                (Some(a), None) => r.shifted_rand == Some(a),
                (None, Some(b)) => r.shifted_rand matches Some(x) && x.blinding_polynomial
                    == poly_scale_s(f, b.blinding_polynomial),
                (None, None) => r.shifted_rand is None,
            },
    {
        let mut out = self;
        out.add_assign_scaled(f, other);
        out
    }

    /// Add `f` times another randomness value onto `self`, an absent
    /// shifted part counting as zero.
    pub fn add_assign_scaled(&mut self, f: Fr, other: &Self)
        ensures
            final(self).rand.blinding_polynomial == poly_add_s(
                old(self).rand.blinding_polynomial,
                poly_scale_s(f, other.rand.blinding_polynomial),
            ),
            match (old(self).shifted_rand, other.shifted_rand) {
                (Some(a), Some(b)) => final(self).shifted_rand matches Some(x)
                    && x.blinding_polynomial == poly_add_s(
                    a.blinding_polynomial,
                    poly_scale_s(f, b.blinding_polynomial),
                ),
                (Some(a), None) => final(self).shifted_rand == Some(a),
                (None, Some(b)) => final(self).shifted_rand matches Some(x)
                    && x.blinding_polynomial == poly_scale_s(f, b.blinding_polynomial),
                (None, None) => final(self).shifted_rand is None,
            },
    {
        self.rand.add_assign_scaled(f, &other.rand);
        let shifted_rand = match (&self.shifted_rand, &other.shifted_rand) {
            (Some(a), Some(b)) => Some(a.clone().add_scaled(f, b)),
            (Some(a), None) => Some(a.clone()),
            (None, Some(b)) => Some(
                kzg10::Randomness {
                    blinding_polynomial: crate::algebra::poly_scale(
                        &f,
                        &b.blinding_polynomial,
                    ),
                },
            ),
            (None, None) => None,
        };
        self.shifted_rand = shifted_rand;
    }

    /// The zero randomness, which hides nothing and has no shifted part.
    pub fn zero() -> (r: Self)
        ensures
            poly_is_zero_s(r.rand.blinding_polynomial),
            r.shifted_rand is None,
    {
        Randomness { rand: kzg10::Randomness::zero(), shifted_rand: None }
    }

    /// Whether the main blinding polynomial and the shifted one (when
    /// present) are zero.
    pub fn is_zero(&self) -> (r: bool)
        ensures
            r == (poly_is_zero_s(self.rand.blinding_polynomial) && match self.shifted_rand {
                Some(sr) => poly_is_zero_s(sr.blinding_polynomial),
                None => true,
            }),
    {
        let main_zero = self.rand.is_zero();
        match &self.shifted_rand {
            Some(sr) => main_zero && sr.is_zero(),
            None => main_zero,
        }
    }


    /// Reconstruct a shared randomness value: the pointwise sum of the
    /// shares, whose shifted parts must be uniformly present or absent.
    /// Applied to what `share` returns, it gives back the original.
    pub fn reconstruct(shares: &Vec<Randomness>) -> (r: Randomness)
        requires
            shares@.len() >= 1,
            (forall|j: int|
                0 <= j < shares@.len() ==> (#[trigger] shares@[j]).shifted_rand is Some) || (
            forall|j: int|
                0 <= j < shares@.len() ==> (#[trigger] shares@[j]).shifted_rand is None),
        ensures
            r.rand.blinding_polynomial == poly_sum(
                shares@.map_values(|x: Randomness| x.rand.blinding_polynomial),
            ),
            (forall|j: int|
                0 <= j < shares@.len() ==> (#[trigger] shares@[j]).shifted_rand is None)
                ==> r.shifted_rand is None,
            (forall|j: int|
                0 <= j < shares@.len() ==> (#[trigger] shares@[j]).shifted_rand is Some) ==> (
            r.shifted_rand matches Some(sr) && sr.blinding_polynomial == poly_sum(
                shares@.map_values(|x: Randomness| (x.shifted_rand->0).blinding_polynomial),
            )),
    {
        let ghost rs = shares@.map_values(|x: Randomness| x.rand.blinding_polynomial);
        let ghost ss = shares@.map_values(
            |x: Randomness| (x.shifted_rand->0).blinding_polynomial,
        );
        let mut acc = shares[0].clone();
        proof {
            assert(rs.subrange(0, 1) =~= seq![rs[0]]);
            assert(ss.subrange(0, 1) =~= seq![ss[0]]);
        }
        let n = shares.len();
        let mut i: usize = 1;
        while i < n
            invariant
                1 <= i <= n,
                n == shares@.len(),
                rs == shares@.map_values(|x: Randomness| x.rand.blinding_polynomial),
                ss == shares@.map_values(
                    |x: Randomness| (x.shifted_rand->0).blinding_polynomial,
                ),
                (forall|j: int|
                    0 <= j < shares@.len() ==> (#[trigger] shares@[j]).shifted_rand is Some) || (
                forall|j: int|
                    0 <= j < shares@.len() ==> (#[trigger] shares@[j]).shifted_rand is None),
                acc.rand.blinding_polynomial == poly_sum(rs.subrange(0, i as int)),
                shares@[0].shifted_rand is None ==> acc.shifted_rand is None,
                shares@[0].shifted_rand is Some ==> (acc.shifted_rand matches Some(sr)
                    && sr.blinding_polynomial == poly_sum(ss.subrange(0, i as int))),
            decreases n - i,
        {
            acc.add_assign(&shares[i]);
            proof {
                assert(rs.subrange(0, i + 1 as int).drop_last() =~= rs.subrange(0, i as int));
                assert(ss.subrange(0, i + 1 as int).drop_last() =~= ss.subrange(0, i as int));
            }
            i = i + 1;
        }
        proof {
            assert(rs.subrange(0, n as int) =~= rs);
            assert(ss.subrange(0, n as int) =~= ss);
        }
        acc
    }

    /// Split the randomness into `num` additive shares: the main part and,
    /// when present, the shifted part are shared by one call each, so the
    /// shares sum back to the original randomness.
    pub fn share(&self, num: usize, rng: &mut SeededRng) -> (r: Vec<Self>)
        requires
            num >= 1,
        ensures
            r@.len() == num,
            poly_sum(r@.map_values(|x: Randomness| x.rand.blinding_polynomial))
                == self.rand.blinding_polynomial,
            self.shifted_rand is None ==> forall|j: int|
                0 <= j < num ==> (#[trigger] r@[j]).shifted_rand is None,
            self.shifted_rand matches Some(sr) ==> {
                &&& forall|j: int| 0 <= j < num ==> (#[trigger] r@[j]).shifted_rand is Some
                &&& poly_sum(
                    r@.map_values(|x: Randomness| x.shifted_rand->0.blinding_polynomial),
                ) == sr.blinding_polynomial
            },
    {
        let rand_shares = self.rand.share(num, rng);
        let ghost rs = rand_shares@;
        let n = rand_shares.len();
        let mut rand_shares = rand_shares;
        let mut out: Vec<Randomness> = Vec::new();
        match &self.shifted_rand {
            Some(sr) => {
                let shifted_shares = sr.share(num, rng);
                let ghost ss = shifted_shares@;
                let mut shifted_shares = shifted_shares;
                let mut i: usize = 0;
                while i < n
                    invariant
                        n == rs.len(),
                        n == ss.len(),
                        rand_shares@ == rs.subrange(i as int, n as int),
                        shifted_shares@ == ss.subrange(i as int, n as int),
                        i <= n,
                        out@.len() == i,
                        forall|j: int|
                            0 <= j < i ==> (#[trigger] out@[j]).rand == rs[j]
                                && out@[j].shifted_rand == Some(ss[j]),
                    decreases n - i,
                {
                    let rp = rand_shares.remove(0);
                    let sp = shifted_shares.remove(0);
                    out.push(Randomness { rand: rp, shifted_rand: Some(sp) });
                    proof {
                        assert(rand_shares@ =~= rs.subrange(i + 1 as int, n as int));
                        assert(shifted_shares@ =~= ss.subrange(i + 1 as int, n as int));
                    }
                    i = i + 1;
                }
                proof {
                    assert(out@.map_values(|x: Randomness| x.rand.blinding_polynomial)
                        =~= rs.map_values(|x: kzg10::Randomness| x.blinding_polynomial));
                    assert(out@.map_values(|x: Randomness| x.shifted_rand->0.blinding_polynomial)
                        =~= ss.map_values(|x: kzg10::Randomness| x.blinding_polynomial));
                }
            }
            None => {
                let mut i: usize = 0;
                while i < n
                    invariant
                        n == rs.len(),
                        rand_shares@ == rs.subrange(i as int, n as int),
                        i <= n,
                        out@.len() == i,
                        forall|j: int|
                            0 <= j < i ==> (#[trigger] out@[j]).rand == rs[j]
                                && out@[j].shifted_rand is None,
                    decreases n - i,
                {
                    let rp = rand_shares.remove(0);
                    out.push(Randomness { rand: rp, shifted_rand: None });
                    proof {
                        assert(rand_shares@ =~= rs.subrange(i + 1 as int, n as int));
                    }
                    i = i + 1;
                }
                proof {
                    assert(out@.map_values(|x: Randomness| x.rand.blinding_polynomial)
                        =~= rs.map_values(|x: kzg10::Randomness| x.blinding_polynomial));
                }
            }
        }
        out
    }
}


impl Randomness {
    /// The canonical serialization of the randomness: the main blinding
    /// polynomial, then the shifted one behind a one-byte flag.
    pub open spec fn spec_serialize_bytes(&self) -> Seq<u8> {
        poly_cser_s(self.rand.blinding_polynomial) + (match self.shifted_rand {
            Some(sr) => seq![1u8] + poly_cser_s(sr.blinding_polynomial),
            None => seq![0u8],
        })
    }

    /// The fully uncompressed serialization of the randomness, laid out as
    /// the canonical one.
    pub open spec fn spec_serialize_uncompressed_bytes(&self) -> Seq<u8> {
        poly_user_s(self.rand.blinding_polynomial) + (match self.shifted_rand {
            Some(sr) => seq![1u8] + poly_user_s(sr.blinding_polynomial),
            None => seq![0u8],
        })
    }

    /// Append the canonical serialization of the randomness.
    pub fn serialize(&self, writer: &mut Vec<u8>)
        ensures
            final(writer)@ == old(writer)@ + self.spec_serialize_bytes(),
    {
        let mut b = poly_serialize(&self.rand.blinding_polynomial);
        writer.append(&mut b);
        match &self.shifted_rand {
            Some(sr) => {
                writer.push(1u8);
                let mut sb = poly_serialize(&sr.blinding_polynomial);
                writer.append(&mut sb);
            }
            None => {
                writer.push(0u8);
            }
        }
        proof {
            assert(writer@ =~= old(writer)@ + self.spec_serialize_bytes());
        }
    }

    /// The length of the canonical serialization.
    pub fn serialized_size(&self) -> (r: usize)
        ensures
            r == self.spec_serialize_bytes().len(),
    {
        let mut buf: Vec<u8> = Vec::new();
        self.serialize(&mut buf);
        buf.len()
    }

    /// Append the fully uncompressed serialization of the randomness.
    pub fn serialize_uncompressed(&self, writer: &mut Vec<u8>)
        ensures
            final(writer)@ == old(writer)@ + self.spec_serialize_uncompressed_bytes(),
    {
        let mut b = poly_serialize_uncompressed(&self.rand.blinding_polynomial);
        writer.append(&mut b);
        match &self.shifted_rand {
            Some(sr) => {
                writer.push(1u8);
                let mut sb = poly_serialize_uncompressed(&sr.blinding_polynomial);
                writer.append(&mut sb);
            }
            None => {
                writer.push(0u8);
            }
        }
        proof {
            assert(writer@ =~= old(writer)@ + self.spec_serialize_uncompressed_bytes());
        }
    }

    /// The length of the fully uncompressed serialization.
    pub fn uncompressed_size(&self) -> (r: usize)
        ensures
            r == self.spec_serialize_uncompressed_bytes().len(),
    {
        let mut buf: Vec<u8> = Vec::new();
        self.serialize_uncompressed(&mut buf);
        buf.len()
    }

    /// Append the unchecked serialization of the randomness, which writes
    /// the same bytes as the uncompressed one.
    pub fn serialize_unchecked(&self, writer: &mut Vec<u8>)
        ensures
            final(writer)@ == old(writer)@ + self.spec_serialize_uncompressed_bytes(),
    {
        let mut b = poly_serialize_unchecked(&self.rand.blinding_polynomial);
        writer.append(&mut b);
        match &self.shifted_rand {
            Some(sr) => {
                writer.push(1u8);
                let mut sb = poly_serialize_unchecked(&sr.blinding_polynomial);
                writer.append(&mut sb);
            }
            None => {
                writer.push(0u8);
            }
        }
        proof {
            assert(writer@ =~= old(writer)@ + self.spec_serialize_uncompressed_bytes());
        }
    }

    /// Read back a randomness value written by `serialize`: on a main
    /// blinding polynomial, a presence flag, an optional shifted one and
    /// anything after them, the value and the remaining bytes come back.
    pub fn deserialize(bytes: &Vec<u8>) -> (r: Result<(Self, Vec<u8>), DeserializeError>)
        ensures
            forall|p: DensePoly, rest: Seq<u8>|
                bytes@ == #[trigger] (poly_cser_s(p) + seq![0u8] + rest) ==> (r matches Ok(x)
                    && x.0.rand.blinding_polynomial == p && x.0.shifted_rand is None && x.1@
                    == rest),
            forall|p: DensePoly, q: DensePoly, rest: Seq<u8>|
                bytes@ == #[trigger] (poly_cser_s(p) + seq![1u8] + poly_cser_s(q) + rest) ==> (
                r matches Ok(x) && x.0.rand.blinding_polynomial == p && (
                x.0.shifted_rand matches Some(sr) && sr.blinding_polynomial == q) && x.1@
                    == rest),
    {
        proof {
            assert forall|p: DensePoly, rest: Seq<u8>|
                bytes@ == #[trigger] (poly_cser_s(p) + seq![0u8] + rest) implies bytes@
                == poly_cser_s(p) + (seq![0u8] + rest) by {
                assert(poly_cser_s(p) + seq![0u8] + rest =~= poly_cser_s(p) + (
                seq![0u8] + rest));
            }
            assert forall|p: DensePoly, q: DensePoly, rest: Seq<u8>|
                bytes@ == #[trigger] (poly_cser_s(p) + seq![1u8] + poly_cser_s(q) + rest)
                implies bytes@ == poly_cser_s(p) + (seq![1u8] + (poly_cser_s(q) + rest)) by {
                assert(poly_cser_s(p) + seq![1u8] + poly_cser_s(q) + rest =~= poly_cser_s(p) + (
                seq![1u8] + (poly_cser_s(q) + rest)));
            }
        }
        let first = poly_read(bytes.as_slice());
        match first {
            None => Err(DeserializeError),
            Some(pr) => {
                let rand = kzg10::Randomness { blinding_polynomial: pr.0 };
                let mut after = pr.1;
                if after.len() == 0 {
                    return Err(DeserializeError);
                }
                let tag = after[0];
                let ghost before = after@;
                after.remove(0);
                proof {
                    assert forall|rest: Seq<u8>| before == #[trigger] (seq![0u8] + rest)
                        implies after@ == rest && before[0] == 0u8 by {
                        assert(before.remove(0) =~= rest);
                        assert((seq![0u8] + rest)[0] == 0u8);
                    }
                    assert forall|q: DensePoly, rest: Seq<u8>| before == #[trigger] (seq![1u8] + (
                    poly_cser_s(q) + rest)) implies after@ == poly_cser_s(q) + rest && before[0]
                        == 1u8 by {
                        assert(before.remove(0) =~= poly_cser_s(q) + rest);
                        assert((seq![1u8] + (poly_cser_s(q) + rest))[0] == 1u8);
                    }
                }
                if tag == 0 {
                    Ok((Randomness { rand, shifted_rand: None }, after))
                } else if tag == 1 {
                    let second = poly_read(after.as_slice());
                    match second {
                        None => Err(DeserializeError),
                        Some(qr) => {
                            let shifted = kzg10::Randomness { blinding_polynomial: qr.0 };
                            Ok((Randomness { rand, shifted_rand: Some(shifted) }, qr.1))
                        }
                    }
                } else {
                    Err(DeserializeError)
                }
            }
        }
    }

    /// Read back a randomness value written by `serialize_uncompressed`: on a main
    /// blinding polynomial, a presence flag, an optional shifted one and
    /// anything after them, the value and the remaining bytes come back.
    pub fn deserialize_uncompressed(bytes: &Vec<u8>) -> (r: Result<(Self, Vec<u8>), DeserializeError>)
        ensures
            forall|p: DensePoly, rest: Seq<u8>|
                bytes@ == #[trigger] (poly_user_s(p) + seq![0u8] + rest) ==> (r matches Ok(x)
                    && x.0.rand.blinding_polynomial == p && x.0.shifted_rand is None && x.1@
                    == rest),
            forall|p: DensePoly, q: DensePoly, rest: Seq<u8>|
                bytes@ == #[trigger] (poly_user_s(p) + seq![1u8] + poly_user_s(q) + rest) ==> (
                r matches Ok(x) && x.0.rand.blinding_polynomial == p && (
                x.0.shifted_rand matches Some(sr) && sr.blinding_polynomial == q) && x.1@
                    == rest),
    {
        proof {
            assert forall|p: DensePoly, rest: Seq<u8>|
                bytes@ == #[trigger] (poly_user_s(p) + seq![0u8] + rest) implies bytes@
                == poly_user_s(p) + (seq![0u8] + rest) by {
                assert(poly_user_s(p) + seq![0u8] + rest =~= poly_user_s(p) + (
                seq![0u8] + rest));
            }
            assert forall|p: DensePoly, q: DensePoly, rest: Seq<u8>|
                bytes@ == #[trigger] (poly_user_s(p) + seq![1u8] + poly_user_s(q) + rest)
                implies bytes@ == poly_user_s(p) + (seq![1u8] + (poly_user_s(q) + rest)) by {
                assert(poly_user_s(p) + seq![1u8] + poly_user_s(q) + rest =~= poly_user_s(p) + (
                seq![1u8] + (poly_user_s(q) + rest)));
            }
        }
        let first = poly_read_uncompressed(bytes.as_slice());
        match first {
            None => Err(DeserializeError),
            Some(pr) => {
                let rand = kzg10::Randomness { blinding_polynomial: pr.0 };
                let mut after = pr.1;
                if after.len() == 0 {
                    return Err(DeserializeError);
                }
                let tag = after[0];
                let ghost before = after@;
                after.remove(0);
                proof {
                    assert forall|rest: Seq<u8>| before == #[trigger] (seq![0u8] + rest)
                        implies after@ == rest && before[0] == 0u8 by {
                        assert(before.remove(0) =~= rest);
                        assert((seq![0u8] + rest)[0] == 0u8);
                    }
                    assert forall|q: DensePoly, rest: Seq<u8>| before == #[trigger] (seq![1u8] + (
                    poly_user_s(q) + rest)) implies after@ == poly_user_s(q) + rest && before[0]
                        == 1u8 by {
                        assert(before.remove(0) =~= poly_user_s(q) + rest);
                        assert((seq![1u8] + (poly_user_s(q) + rest))[0] == 1u8);
                    }
                }
                if tag == 0 {
                    Ok((Randomness { rand, shifted_rand: None }, after))
                } else if tag == 1 {
                    let second = poly_read_uncompressed(after.as_slice());
                    match second {
                        None => Err(DeserializeError),
                        Some(qr) => {
                            let shifted = kzg10::Randomness { blinding_polynomial: qr.0 };
                            Ok((Randomness { rand, shifted_rand: Some(shifted) }, qr.1))
                        }
                    }
                } else {
                    Err(DeserializeError)
                }
            }
        }
    }

    /// Read back a randomness value written by `serialize_uncompressed` or
    /// `serialize_unchecked`, without extra validation.
    pub fn deserialize_unchecked(bytes: &Vec<u8>) -> (r: Result<(Self, Vec<u8>), DeserializeError>)
        ensures
            forall|p: DensePoly, rest: Seq<u8>|
                bytes@ == #[trigger] (poly_user_s(p) + seq![0u8] + rest) ==> (r matches Ok(x)
                    && x.0.rand.blinding_polynomial == p && x.0.shifted_rand is None && x.1@
                    == rest),
            forall|p: DensePoly, q: DensePoly, rest: Seq<u8>|
                bytes@ == #[trigger] (poly_user_s(p) + seq![1u8] + poly_user_s(q) + rest) ==> (
                r matches Ok(x) && x.0.rand.blinding_polynomial == p && (
                x.0.shifted_rand matches Some(sr) && sr.blinding_polynomial == q) && x.1@
                    == rest),
    {
        proof {
            assert forall|p: DensePoly, rest: Seq<u8>|
                bytes@ == #[trigger] (poly_user_s(p) + seq![0u8] + rest) implies bytes@
                == poly_user_s(p) + (seq![0u8] + rest) by {
                assert(poly_user_s(p) + seq![0u8] + rest =~= poly_user_s(p) + (
                seq![0u8] + rest));
            }
            assert forall|p: DensePoly, q: DensePoly, rest: Seq<u8>|
                bytes@ == #[trigger] (poly_user_s(p) + seq![1u8] + poly_user_s(q) + rest)
                implies bytes@ == poly_user_s(p) + (seq![1u8] + (poly_user_s(q) + rest)) by {
                assert(poly_user_s(p) + seq![1u8] + poly_user_s(q) + rest =~= poly_user_s(p) + (
                seq![1u8] + (poly_user_s(q) + rest)));
            }
        }
        let first = poly_read_unchecked(bytes.as_slice());
        match first {
            None => Err(DeserializeError),
            Some(pr) => {
                let rand = kzg10::Randomness { blinding_polynomial: pr.0 };
                let mut after = pr.1;
                if after.len() == 0 {
                    return Err(DeserializeError);
                }
                let tag = after[0];
                let ghost before = after@;
                after.remove(0);
                proof {
                    assert forall|rest: Seq<u8>| before == #[trigger] (seq![0u8] + rest)
                        implies after@ == rest && before[0] == 0u8 by {
                        assert(before.remove(0) =~= rest);
                        assert((seq![0u8] + rest)[0] == 0u8);
                    }
                    assert forall|q: DensePoly, rest: Seq<u8>| before == #[trigger] (seq![1u8] + (
                    poly_user_s(q) + rest)) implies after@ == poly_user_s(q) + rest && before[0]
                        == 1u8 by {
                        assert(before.remove(0) =~= poly_user_s(q) + rest);
                        assert((seq![1u8] + (poly_user_s(q) + rest))[0] == 1u8);
                    }
                }
                if tag == 0 {
                    Ok((Randomness { rand, shifted_rand: None }, after))
                } else if tag == 1 {
                    let second = poly_read_unchecked(after.as_slice());
                    match second {
                        None => Err(DeserializeError),
                        Some(qr) => {
                            let shifted = kzg10::Randomness { blinding_polynomial: qr.0 };
                            Ok((Randomness { rand, shifted_rand: Some(shifted) }, qr.1))
                        }
                    }
                } else {
                    Err(DeserializeError)
                }
            }
        }
    }
}

impl PCRandomness for Randomness {
    open spec fn empty_post(r: Self) -> bool {
        &&& poly_is_zero_s(r.rand.blinding_polynomial)
        &&& r.shifted_rand is None
    }

    open spec fn rand_req(num_queries: usize) -> bool {
        num_queries < usize::MAX
    }

    open spec fn rand_post(num_queries: usize, has_degree_bound: bool, r: Self) -> bool {
        &&& poly_degree_s(r.rand.blinding_polynomial) <= num_queries + 1
        &&& (has_degree_bound <==> r.shifted_rand is Some)
        &&& (r.shifted_rand matches Some(sr) ==> poly_degree_s(sr.blinding_polynomial)
            <= num_queries + 1)
    }

    fn empty() -> (r: Self) {
        Randomness { rand: kzg10::Randomness { blinding_polynomial: poly_zero() }, shifted_rand: None }
    }

    fn rand(
        num_queries: usize,
        has_degree_bound: bool,
        num_vars: Option<usize>,
        rng: &mut SeededRng,
    ) -> (r: Self) {
        let shifted_rand = if has_degree_bound {
            Some(kzg10::Randomness::rand(num_queries, false, None, rng))
        } else {
            None
        };
        Randomness { rand: kzg10::Randomness::rand(num_queries, false, None, rng), shifted_rand }
    }
}

impl crate::data_structures::LabeledCommitment<Commitment> {
    /// Append the byte serialization of the wrapped commitment.
    pub fn write(&self, writer: &mut Vec<u8>)
        ensures
            match self.spec_commitment().shifted_comm {
                Some(sc) => final(writer)@ == old(writer)@ + g1_bytes_s(
                    self.spec_commitment().comm.0,
                ) + seq![1u8] + g1_bytes_s(sc.0),
                None => exists|z: G1Affine|
                    g1_is_zero_s(z) && final(writer)@ == old(writer)@ + g1_bytes_s(
                        self.spec_commitment().comm.0,
                    ) + seq![0u8] + g1_bytes_s(z),
            },
    {
        self.commitment().write(writer)
    }

    /// Sum two labeled commitments; the label and the degree bound of the
    /// second operand are kept, as when folding a batch into an
    /// accumulator.
    pub fn add(self, other: Self) -> (r: Self)
        requires
            self.spec_commitment().shifted_comm is Some
                ==> other.spec_commitment().shifted_comm is Some,
        ensures
            r.spec_label() == other.spec_label(),
            r.spec_degree_bound() == other.spec_degree_bound(),
            r.spec_commitment().comm.0 == g1_add_s(
                self.spec_commitment().comm.0,
                other.spec_commitment().comm.0,
            ),
            match self.spec_commitment().shifted_comm {
                Some(sc) => r.spec_commitment().shifted_comm matches Some(x) && x.0 == g1_add_s(
                    sc.0,
                    (other.spec_commitment().shifted_comm->0).0,
                ),
                None => r.spec_commitment().shifted_comm
                    == other.spec_commitment().shifted_comm,
            },
    {
        let sum = (*self.commitment()).add(*other.commitment());
        let label = other.label().clone();
        let degree_bound = other.degree_bound();
        crate::data_structures::LabeledCommitment::new(label, sum, degree_bound)
    }

    /// The labeled zero commitment, with an empty label and no bound.
    pub fn zero() -> (r: Self)
        ensures
            r.spec_label() == Seq::<char>::empty(),
            g1_is_zero_s(r.spec_commitment().comm.0),
            r.spec_commitment().shifted_comm is None,
            r.spec_degree_bound() is None,
    {
        crate::data_structures::LabeledCommitment::new(String::new(), Commitment::zero(), None)
    }

    /// Whether the wrapped commitment is zero: its main element the
    /// identity, and its shifted element too when present.
    pub fn is_zero(&self) -> (r: bool)
        ensures
            r == (g1_is_zero_s(self.spec_commitment().comm.0)
                && match self.spec_commitment().shifted_comm {
                Some(sc) => g1_is_zero_s(sc.0),
                None => true,
            }),
    {
        self.commitment().is_zero()
    }

    /// Split the wrapped commitment, its elements valid, into `num`
    /// additive shares, each under the same label and degree bound, so the
    /// shares sum back to the original.
    pub fn share(&self, num: usize, rng: &mut SeededRng) -> (r: Vec<Self>)
        requires
            num >= 1,
            g1_valid_s(self.spec_commitment().comm.0),
            self.spec_commitment().shifted_comm matches Some(sc) ==> g1_valid_s(sc.0),
        ensures
            r@.len() == num,
            g1_sum(
                r@.map_values(
                    |c: crate::data_structures::LabeledCommitment<Commitment>| c.spec_commitment().comm.0,
                ),
            ) == self.spec_commitment().comm.0,
            forall|j: int|
                0 <= j < num ==> (#[trigger] r@[j]).spec_label() == self.spec_label()
                    && r@[j].spec_degree_bound() == self.spec_degree_bound(),
    {
        let shares = self.commitment().share(num, rng);
        let ghost ss = shares@;
        let n = shares.len();
        let mut out: Vec<crate::data_structures::LabeledCommitment<Commitment>> = Vec::new();
        let mut i: usize = 0;
        while i < n
            invariant
                n == ss.len(),
                ss == shares@,
                i <= n,
                out@.len() == i,
                forall|j: int|
                    0 <= j < i ==> (#[trigger] out@[j]).spec_commitment() == ss[j]
                        && out@[j].spec_label() == self.spec_label()
                        && out@[j].spec_degree_bound() == self.spec_degree_bound(),
            decreases n - i,
        {
            let label = self.label().clone();
            out.push(
                crate::data_structures::LabeledCommitment::new(
                    label,
                    shares[i],
                    self.degree_bound(),
                ),
            );
            i = i + 1;
        }
        proof {
            assert(out@.map_values(
                |c: crate::data_structures::LabeledCommitment<Commitment>| c.spec_commitment().comm.0,
            ) =~= ss.map_values(|c: Commitment| c.comm.0));
        }
        out
    }
}

} // verus!
