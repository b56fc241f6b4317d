//! Reading ECG records out of comma-delimited text, and the position-based
//! train/test split over the resulting collection.

use vstd::prelude::*;

verus! {

use crate::numeric::is_numeric_text;
use crate::numeric::is_numeric_field;
use crate::RECORD_LEN;
use crate::copy_fields;
use crate::str_eq;

broadcast use crate::lemma_bytes_deep_view;

/// One ECG window: exactly `RECORD_LEN` numeric fields, each kept as the bytes
/// of its decimal text as it stood in the input row. The values are parsed into
/// machine floating point only at the tensor boundary, outside this crate.
pub type EcgRawRecord = Vec<Vec<u8>>;

/// What the comma-delimited reader yields on the given input bytes: the rows,
/// each a sequence of fields, or nothing when the input is not well-formed
/// (for example, rows of unequal field counts).
pub uninterp spec fn csv_rows_of(text: Seq<u8>) -> Option<Seq<Seq<Seq<u8>>>>;

/// Relies on csv::ReaderBuilder and csv::Reader::byte_records: splitting an
/// in-memory buffer into comma-delimited rows of fields (every row a record,
/// none taken as a header) is a function of the bytes alone, and a read error
/// yields `None`.
#[verifier::external_body]
fn csv_parse(text: &[u8]) -> (r: Option<Vec<Vec<Vec<u8>>>>)
    ensures
        match r {
            Some(rows) => Some(rows.deep_view()) == csv_rows_of(text@),
            None => csv_rows_of(text@) is None,
        },
{
    let mut builder = csv::ReaderBuilder::new();
    builder.has_headers(false);
    builder.delimiter(44);
    let mut rdr = builder.from_reader(text);
    let mut rows = Vec::new();
    for record in rdr.byte_records() {
        match record {
            Ok(br) => rows.push(br.iter().map(|f| f.to_vec()).collect()),
            Err(_) => return None,
        }
    }
    Some(rows)
}

/// The ways reading records can fail; any of them aborts the run before
/// training starts.
#[derive(Debug, Clone, Copy, PartialEq, Eq, Structural)]
pub enum ReadError {
    /// The input is not well-formed delimited text.
    MalformedInput,
    /// The given row holds a field that is not numeric text.
    NonNumericField { row: usize },
    /// The given row has fewer than `RECORD_LEN` fields.
    ShortRow { row: usize },
}

/// Every field of the row is numeric text.
pub open spec fn row_numeric(row: Seq<Seq<u8>>) -> bool {
    forall|j: int| 0 <= j < row.len() ==> is_numeric_text(#[trigger] row[j])
}

/// Records read from the rows starting at row `i`: each row must be all
/// numeric and hold at least `RECORD_LEN` fields, and is truncated to its
/// first `RECORD_LEN` fields; the first offending row decides the error.
pub open spec fn read_rows(rows: Seq<Seq<Seq<u8>>>, i: int) -> Result<
    Seq<Seq<Seq<u8>>>,
    ReadError,
>
    decreases rows.len() - i when 0 <= i <= rows.len()
{
    if i >= rows.len() {
        Ok(Seq::empty())
    } else if !row_numeric(rows[i]) {
        Err(ReadError::NonNumericField { row: i as usize })
    } else if rows[i].len() < RECORD_LEN {
        Err(ReadError::ShortRow { row: i as usize })
    } else {
        match read_rows(rows, i + 1) {
            Ok(rest) => Ok(seq![rows[i].take(RECORD_LEN as int)] + rest),
            Err(e) => Err(e),
        }
    }
}

/// What reading records out of the given input bytes yields.
pub open spec fn read_spec(text: Seq<u8>) -> Result<Seq<Seq<Seq<u8>>>, ReadError> {
    match csv_rows_of(text) {
        Some(rows) => read_rows(rows, 0),
        None => Err(ReadError::MalformedInput),
    }
}

/// Read the ordered sequence of ECG records out of comma-delimited text:
/// every row becomes one record of its first `RECORD_LEN` fields, in file
/// order; a malformed input, a non-numeric field or a short row is an error.
#[verifier::loop_isolation(false)]
pub fn read_ecg_raw_record(text: &[u8]) -> (r: Result<Vec<EcgRawRecord>, ReadError>)
    ensures
        match r {
            Ok(recs) => read_spec(text@) == Ok::<Seq<Seq<Seq<u8>>>, ReadError>(recs.deep_view()),
            Err(e) => read_spec(text@) == Err::<Seq<Seq<Seq<u8>>>, ReadError>(e),
        },
        r is Ok ==> forall|k: int|
            0 <= k < r.unwrap()@.len() ==> (#[trigger] r.unwrap().deep_view()[k]).len()
                == RECORD_LEN,
{
    let rows = match csv_parse(text) {
        Some(rows) => rows,
        None => {
            return Err(ReadError::MalformedInput);
        },
    };
    let ghost rdv = rows.deep_view();
    let mut recs: Vec<Vec<Vec<u8>>> = Vec::new();
    let mut i: usize = 0;
    while i < rows.len()
        invariant
            Some(rows.deep_view()) == csv_rows_of(text@),
            rdv == rows.deep_view(),
            rdv.len() == rows@.len(),
            i <= rows@.len(),
            recs@.len() == i,
            forall|k: int|
                0 <= k < i ==> (#[trigger] recs.deep_view()[k]).len() == RECORD_LEN,
            match read_rows(rdv, i as int) {
                Ok(rest) => read_rows(rdv, 0) == Ok::<Seq<Seq<Seq<u8>>>, ReadError>(
                    recs.deep_view() + rest,
                ),
                Err(e) => read_rows(rdv, 0) == Err::<Seq<Seq<Seq<u8>>>, ReadError>(e),
            },
        decreases rows@.len() - i,
    {
        let row = &rows[i];
        let ghost rowv = rdv[i as int];
        proof {
            assert(rowv == rows@[i as int].deep_view());
        }
        let mut j: usize = 0;
        while j < row.len()
            invariant
                rowv == row.deep_view(),
                j <= row@.len(),
                forall|t: int| 0 <= t < j ==> is_numeric_text(#[trigger] rowv[t]),
            decreases row@.len() - j,
        {
            proof {
                assert(rowv[j as int] == row@[j as int].deep_view());
            }
            if !is_numeric_field(&row[j]) {
                proof {
                    assert(!is_numeric_text(rowv[j as int]));
                    assert(!row_numeric(rowv));
                    assert(read_rows(rdv, i as int) == Err::<Seq<Seq<Seq<u8>>>, ReadError>(
                        ReadError::NonNumericField { row: i },
                    ));
                }
                return Err(ReadError::NonNumericField { row: i });
            }
            j = j + 1;
        }
        proof {
            assert(row_numeric(rowv));
        }
        if row.len() < RECORD_LEN {
            proof {
                assert(rowv.len() == row@.len());
                assert(read_rows(rdv, i as int) == Err::<Seq<Seq<Seq<u8>>>, ReadError>(
                    ReadError::ShortRow { row: i },
                ));
            }
            return Err(ReadError::ShortRow { row: i });
        }
        let mut rec: Vec<Vec<u8>> = Vec::new();
        let mut t: usize = 0;
        while t < RECORD_LEN
            invariant
                rowv == row.deep_view(),
                RECORD_LEN <= row@.len(),
                t <= RECORD_LEN,
                rec.deep_view() == rowv.take(RECORD_LEN as int).subrange(0, t as int),
            decreases RECORD_LEN - t,
        {
            let f = crate::copy_bytes(&row[t]);
            proof {
                assert(f.deep_view() == rowv[t as int]);
            }
            let ghost prev = rec.deep_view();
            proof {
                assert(prev.len() == t);
                assert(rec@.len() == t);
            }
            rec.push(f);
            t = t + 1;
            proof {
                assert(rec.deep_view() =~= rowv.take(RECORD_LEN as int).subrange(0, t as int));
            }
        }
        proof {
            assert(rec.deep_view() =~= rowv.take(RECORD_LEN as int));
        }
        let ghost prev_recs = recs.deep_view();
        proof {
            assert(prev_recs.len() == i);
            assert(recs@.len() == i);
        }
        recs.push(rec);
        i = i + 1;
        proof {
            assert(recs.deep_view() =~= prev_recs + seq![rowv.take(RECORD_LEN as int)]);
            assert(read_rows(rdv, i - 1) == match read_rows(rdv, i as int) {
                Ok(rest) => Ok::<Seq<Seq<Seq<u8>>>, ReadError>(
                    seq![rdv[i - 1].take(RECORD_LEN as int)] + rest,
                ),
                Err(e) => Err::<Seq<Seq<Seq<u8>>>, ReadError>(e),
            });
            if read_rows(rdv, i as int) is Ok {
                let rest = read_rows(rdv, i as int)->Ok_0;
                assert(prev_recs + (seq![rowv.take(RECORD_LEN as int)] + rest) =~= recs.deep_view()
                    + rest);
            }
        }
    }
    proof {
        assert(read_rows(rdv, i as int) == Ok::<Seq<Seq<Seq<u8>>>, ReadError>(Seq::empty()));
        assert(recs.deep_view() + Seq::<Seq<Seq<u8>>>::empty() =~= recs.deep_view());
    }
    Ok(recs)
}

/// The number of records in the train split of a dataset of `n` records:
/// the greatest whole number not above eight tenths of `n`.
pub open spec fn train_split_len(n: nat) -> nat {
    8 * n / 10
}

/// The number of records in the test split of a dataset of `n` records.
pub open spec fn test_split_len(n: nat) -> nat {
    (n - train_split_len(n)) as nat
}

/// Law: for every dataset size, the train split holds exactly the greatest
/// whole number of records not above eight tenths of the total, and the two
/// splits partition the dataset.
pub proof fn lemma_split_partition(n: nat)
    ensures
        train_split_len(n) <= n,
        train_split_len(n) + test_split_len(n) == n,
        10 * train_split_len(n) <= 8 * n < 10 * (train_split_len(n) + 1),
{
    vstd::arithmetic::div_mod::lemma_fundamental_div_mod(8 * n as int, 10);
    vstd::arithmetic::div_mod::lemma_mod_bound(8 * n as int, 10);
    assert(8 * n == 10 * (8 * n as int / 10) + (8 * n as int) % 10);
    assert(train_split_len(n) <= n) by (nonlinear_arith)
        requires
            10 * train_split_len(n) <= 8 * n,
    ;
}

/// The split name is invalid: only "train" and "test" name a split.
#[derive(Debug, Clone, Copy, PartialEq, Eq, Structural)]
pub enum SplitError {
    InvalidName,
}

/// A read-only view over a contiguous, position-based range of the full
/// record collection.
#[derive(Debug)]
pub struct EcgDataset {
    records: Vec<EcgRawRecord>,
    start: usize,
    end: usize,
}

impl View for EcgDataset {
    type V = Seq<Seq<Seq<u8>>>;

    closed spec fn view(&self) -> Seq<Seq<Seq<u8>>> {
        self.records.deep_view().subrange(self.start as int, self.end as int)
    }
}

impl EcgDataset {
    /// The view's range lies within the backing collection.
    pub closed spec fn wf(&self) -> bool {
        self.start <= self.end <= self.records@.len()
    }

    /// The split named "train" is the first `train_split_len` records of the
    /// collection, in input order; "test" is the rest; any other name is an
    /// invalid-argument error.
    pub fn new(split: &str, records: Vec<EcgRawRecord>) -> (r: Result<EcgDataset, SplitError>)
        requires
            records@.len() <= usize::MAX / 8,
        ensures
            r is Ok <==> (split@ == "train"@ || split@ == "test"@),
            r is Err ==> r == Err::<EcgDataset, SplitError>(SplitError::InvalidName),
            r is Ok ==> r.unwrap().wf(),
            split@ == "train"@ ==> r.unwrap()@ == records.deep_view().subrange(
                0,
                train_split_len(records@.len()) as int,
            ),
            split@ == "test"@ ==> r.unwrap()@ == records.deep_view().subrange(
                train_split_len(records@.len()) as int,
                records@.len() as int,
            ),
    {
        let n = records.len();
        let boundary = n * 8 / 10;
        proof {
            lemma_split_partition(n as nat);
            assert(8 * (n as nat) == (n as nat) * 8);
            assert(boundary == train_split_len(n as nat));
            reveal_strlit("train");
            reveal_strlit("test");
            assert("train"@.len() == 5);
            assert("test"@.len() == 4);
        }
        if str_eq(split, "train") {
            Ok(EcgDataset { records, start: 0, end: boundary })
        } else if str_eq(split, "test") {
            Ok(EcgDataset { records, start: boundary, end: n })
        } else {
            Err(SplitError::InvalidName)
        }
    }

    /// The record at `index` within the view, as a copy; nothing when `index`
    /// is outside the view's range.
    pub fn get(&self, index: usize) -> (r: Option<EcgRawRecord>)
        requires
            self.wf(),
        ensures
            index < self@.len() ==> r is Some && r.unwrap().deep_view() == self@[index as int],
            index >= self@.len() ==> r is None,
    {
        if index < self.end - self.start {
            Some(copy_fields(&self.records[self.start + index]))
        } else {
            None
        }
    }

    /// The number of records in the view.
    pub fn len(&self) -> (n: usize)
        requires
            self.wf(),
        ensures
            n == self@.len(),
    {
        self.end - self.start
    }
}

} // verus!
