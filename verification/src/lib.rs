//! A verified model of an ECG autoencoder training pipeline: record reading,
//! dataset splitting, batching, the fixed encoder/decoder architecture, and
//! the training configuration with its persistence format.
//!
//! Numeric sample values are machine floating point, which this library never
//! computes with: records carry each sample as the bytes of its decimal text,
//! validated against the numeric grammar, and the tensor framework parses them
//! at the boundary outside this crate.

use vstd::prelude::*;

pub mod batcher;
pub mod dataset;
pub mod decimal;
pub mod model;
pub mod numeric;
pub mod training;

verus! {

/// Number of samples in one ECG window; every record holds exactly this many.
pub const RECORD_LEN: usize = 140;

/// Copy a byte vector element by element.
pub(crate) fn copy_bytes(v: &Vec<u8>) -> (c: Vec<u8>)
    ensures
        c@ == v@,
{
    let mut c: Vec<u8> = Vec::new();
    let mut i: usize = 0;
    while i < v.len()
        invariant
            i <= v@.len(),
            c@ == v@.subrange(0, i as int),
        decreases v@.len() - i,
    {
        c.push(v[i]);
        i = i + 1;
        proof {
            assert(c@ =~= v@.subrange(0, i as int));
        }
    }
    proof {
        assert(c@ =~= v@);
    }
    c
}

/// Copy a vector of byte fields element by element.
pub(crate) fn copy_fields(v: &Vec<Vec<u8>>) -> (c: Vec<Vec<u8>>)
    ensures
        c.deep_view() == v.deep_view(),
{
    let mut c: Vec<Vec<u8>> = Vec::new();
    let mut i: usize = 0;
    while i < v.len()
        invariant
            i <= v@.len(),
            c.deep_view() == v.deep_view().subrange(0, i as int),
        decreases v@.len() - i,
    {
        let nc = copy_bytes(&v[i]);
        proof {
            assert(nc.deep_view() =~= v@[i as int].deep_view());
        }
        let ghost prev = c.deep_view();
        proof {
            assert(prev.len() == i);
            assert(c@.len() == i);
        }
        c.push(nc);
        i = i + 1;
        proof {
            assert(c@.len() == i);
            assert(c.deep_view() == Seq::new(c@.len() as nat, |k: int| c@[k].deep_view()));
            assert(c.deep_view().len() == i);
            assert forall|j: int| 0 <= j < i implies c.deep_view()[j] == v.deep_view()[j] by {
                assert(c.deep_view()[j] == c@[j].deep_view());
                if j < i - 1 {
                    assert(c@[j].deep_view() == prev[j]);
                } else {
                    assert(c@[j] == nc);
                }
            }
            assert(c.deep_view() =~= v.deep_view().subrange(0, i as int));
        }
    }
    proof {
        assert(c.deep_view() =~= v.deep_view());
    }
    c
}

/// Append the bytes of `piece` to `out`.
pub(crate) fn push_bytes(out: &mut Vec<u8>, piece: &Vec<u8>)
    ensures
        final(out)@ == old(out)@ + piece@,
{
    let mut i: usize = 0;
    while i < piece.len()
        invariant
            i <= piece@.len(),
            out@ == old(out)@ + piece@.subrange(0, i as int),
        decreases piece@.len() - i,
    {
        out.push(piece[i]);
        i = i + 1;
        proof {
            assert(out@ =~= old(out)@ + piece@.subrange(0, i as int));
        }
    }
    proof {
        assert(out@ =~= old(out)@ + piece@);
    }
}

/// Whether two byte strings hold the same bytes.
pub(crate) fn bytes_eq(a: &Vec<u8>, b: &Vec<u8>) -> (r: bool)
    ensures
        r == (a@ == b@),
{
    if a.len() != b.len() {
        proof {
            assert(a@.len() != b@.len());
        }
        return false;
    }
    let mut i: usize = 0;
    while i < a.len()
        invariant
            a@.len() == b@.len(),
            i <= a@.len(),
            forall|j: int| 0 <= j < i ==> a@[j] == b@[j],
        decreases a@.len() - i,
    {
        if a[i] != b[i] {
            return false;
        }
        i = i + 1;
    }
    proof {
        assert(a@ =~= b@);
    }
    true
}

/// Whether two character strings hold the same characters.
pub(crate) fn str_eq(a: &str, b: &str) -> (r: bool)
    ensures
        r == (a@ == b@),
{
    let sa: String = a.to_owned();
    let sb: String = b.to_owned();
    sa.eq(&sb)
}

} // verus!

verus! {

/// A byte vector's deep view is its view.
pub broadcast proof fn lemma_bytes_deep_view(v: Vec<u8>)
    ensures
        #[trigger] v.deep_view() == v@,
{
    assert(v.deep_view() =~= v@);
}

/// A vector of byte fields viewed deeply is the pointwise view of its fields.
pub broadcast proof fn lemma_fields_deep_view(v: Vec<Vec<u8>>)
    ensures
        #[trigger] v.deep_view() == Seq::new(v@.len(), |i: int| v@[i]@),
{
    assert forall|i: int| 0 <= i < v@.len() implies v.deep_view()[i] == v@[i]@ by {
        assert(v.deep_view()[i] == v@[i].deep_view());
        lemma_bytes_deep_view(v@[i]);
    }
    assert(v.deep_view() =~= Seq::new(v@.len(), |i: int| v@[i]@));
}

} // verus!
