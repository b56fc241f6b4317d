//! Stacking a list of same-length records into a rank-2 input grid and a
//! value-identical reconstruction target.

use vstd::prelude::*;

verus! {

use crate::dataset::EcgRawRecord;
use crate::copy_fields;
use crate::copy_bytes;

broadcast use crate::lemma_bytes_deep_view, crate::lemma_fields_deep_view, Seq::lemma_flatten_push;

/// A rank-2 grid of numeric text cells in row-major order: the shape and
/// contents of the tensor the framework builds from it at the boundary.
#[derive(Debug, Clone)]
pub struct Tensor2 {
    pub rows: usize,
    pub cols: usize,
    pub data: Vec<Vec<u8>>,
}

impl Tensor2 {
    /// The flattened data holds exactly `rows * cols` cells.
    pub open spec fn wf(&self) -> bool {
        self.data@.len() == self.rows * self.cols
    }
}

/// A training batch: the stacked windows as `ecg`, and the reconstruction
/// target `ecg_out`, a value-identical copy of `ecg`.
#[derive(Debug, Clone)]
pub struct EcgBatch {
    pub ecg: Tensor2,
    pub ecg_out: Tensor2,
}

/// The ways batching fails loudly rather than padding or truncating.
#[derive(Debug, Clone, Copy, PartialEq, Eq, Structural)]
pub enum BatchError {
    /// No items were handed in.
    Empty,
    /// Two items have different lengths.
    MismatchedLengths,
}

/// Every item has the length of the first.
pub open spec fn uniform_lengths(items: Seq<Seq<Seq<u8>>>) -> bool {
    forall|i: int| 0 <= i < items.len() ==> (#[trigger] items[i]).len() == items[0].len()
}

/// Stacks windows into input/target pairs. Stateless: the compute device the
/// framework needs is supplied at the tensor boundary, outside this crate.
#[derive(Debug, Clone)]
pub struct EcgBatcher {}

impl EcgBatcher {
    pub fn new() -> (b: EcgBatcher) {
        EcgBatcher {  }
    }

    /// Stack the items in order into an [N, L] grid `ecg`, and `ecg_out` as a
    /// value-identical copy; an empty list or mismatched lengths fail loudly.
    #[verifier::loop_isolation(false)]
    pub fn batch(&self, items: &Vec<EcgRawRecord>) -> (r: Result<EcgBatch, BatchError>)
        ensures
            r is Ok <==> (items@.len() > 0 && uniform_lengths(items.deep_view())),
            items@.len() == 0 ==> r == Err::<EcgBatch, BatchError>(BatchError::Empty),
            items@.len() > 0 && !uniform_lengths(items.deep_view()) ==> r == Err::<
                EcgBatch,
                BatchError,
            >(BatchError::MismatchedLengths),
            r is Ok ==> {
                let b = r.unwrap();
                &&& b.ecg.rows == items@.len()
                &&& b.ecg.cols == items.deep_view()[0].len()
                &&& b.ecg.wf()
                &&& b.ecg.data.deep_view() == items.deep_view().flatten()
                &&& b.ecg_out.rows == b.ecg.rows
                &&& b.ecg_out.cols == b.ecg.cols
                &&& b.ecg_out.wf()
                &&& b.ecg_out.data.deep_view() == b.ecg.data.deep_view()
            },
    {
        let ghost idv = items.deep_view();
        if items.len() == 0 {
            return Err(BatchError::Empty);
        }
        let cols = items[0].len();
        proof {
            assert(idv[0].len() == cols);
        }
        let mut data: Vec<Vec<u8>> = Vec::new();
        let mut i: usize = 0;
        while i < items.len()
            invariant
                i <= items@.len(),
                cols == idv[0].len(),
                forall|k: int| 0 <= k < i ==> (#[trigger] idv[k]).len() == cols,
                data.deep_view() == idv.subrange(0, i as int).flatten(),
                data@.len() == i * cols,
            decreases items@.len() - i,
        {
            let row = &items[i];
            proof {
                assert(row.deep_view() == idv[i as int]);
            }
            if row.len() != cols {
                proof {
                    assert(idv[i as int].len() != idv[0].len());
                }
                return Err(BatchError::MismatchedLengths);
            }
            let mut j: usize = 0;
            while j < cols
                invariant
                    j <= cols,
                    data.deep_view() == idv.subrange(0, i as int).flatten() + idv[i as int].subrange(
                        0,
                        j as int,
                    ),
                    data@.len() == i * cols + j,
                decreases cols - j,
            {
                let cell = copy_bytes(&row[j]);
                proof {
                    assert(cell.deep_view() == idv[i as int][j as int]);
                    assert(data.deep_view().len() == data@.len());
                }
                let ghost prev = data.deep_view();
                data.push(cell);
                j = j + 1;
                proof {
                    let ii = i as int;
                    let jj = j as int;
                    let flat = idv.subrange(0, ii).flatten();
                    assert(data.deep_view() =~= prev.push(cell@));
                    assert(idv[ii].subrange(0, jj) =~= idv[ii].subrange(0, jj - 1).push(
                        idv[ii][jj - 1],
                    ));
                    assert(prev.push(cell@) =~= flat + idv[ii].subrange(0, jj));
                    assert(data.deep_view() =~= flat + idv[ii].subrange(0, jj));
                }
            }
            i = i + 1;
            proof {
                assert(idv[i - 1].subrange(0, cols as int) =~= idv[i - 1]);
                assert(idv.subrange(0, i as int) =~= idv.subrange(0, i - 1).push(idv[i - 1]));
                assert(idv.subrange(0, i - 1).push(idv[i - 1]).flatten() == idv.subrange(
                    0,
                    i - 1,
                ).flatten() + idv[i - 1]);
                assert(data.deep_view() =~= idv.subrange(0, i as int).flatten());
                assert(i * cols == (i - 1) * cols + cols) by (nonlinear_arith);
            }
        }
        proof {
            assert(idv.subrange(0, items@.len() as int) =~= idv);
        }
        let out = copy_fields(&data);
        proof {
            assert(out@.len() == out.deep_view().len());
            assert(data@.len() == data.deep_view().len());
        }
        Ok(
            EcgBatch {
                ecg: Tensor2 { rows: items.len(), cols, data },
                ecg_out: Tensor2 { rows: items.len(), cols, data: out },
            },
        )
    }
}

} // verus!
