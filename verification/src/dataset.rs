//! Records of the three-column data file, and the split into training and
//! test sets.
//!
//! The first row of the file is a header and carries no data. Every data
//! row must hold exactly three fields: left operand, right operand and
//! expected result, all kept as raw bytes. A sequence of flags, one per
//! record, decides which records train the network and which are held out
//! to test it; drawing those flags at random is the caller's business.

use vstd::prelude::*;
use crate::table::csv_rows;
use crate::table::parse_rows;

verus! {

/// One data row of the file: the two operands and the expected result,
/// as the raw bytes of their fields.
#[derive(Debug)]
pub struct Record {
    pub left: Vec<u8>,
    pub right: Vec<u8>,
    pub result: Vec<u8>,
}

/// Why a byte content yields no records.
#[derive(Debug)]
pub enum Error {
    /// The data row at this index (not counting the header) has `found`
    /// fields instead of three.
    FieldCount { row: usize, found: usize },
}

/// The data rows of a byte content: all its rows but the header.
pub open spec fn data_rows(s: Seq<u8>) -> Seq<Seq<Seq<u8>>> {
    if csv_rows(s).len() == 0 {
        Seq::empty()
    } else {
        csv_rows(s).skip(1)
    }
}

/// Reads the records out of raw file bytes: skips the header row and
/// takes the three fields of every data row. Returns an error naming the
/// first data row without exactly three fields, if there is one.
pub fn parse_records(bytes: &Vec<u8>) -> (r: Result<Vec<Record>, Error>)
    ensures
        match r {
            Ok(recs) => {
                &&& recs@.len() == data_rows(bytes@).len()
                &&& forall|k: int|
                    0 <= k < recs@.len() ==> #[trigger] data_rows(bytes@)[k].len() == 3
                &&& forall|k: int| #![trigger recs@[k]]
                    0 <= k < recs@.len() ==> {
                        &&& recs@[k].left@ == data_rows(bytes@)[k][0]
                        &&& recs@[k].right@ == data_rows(bytes@)[k][1]
                        &&& recs@[k].result@ == data_rows(bytes@)[k][2]
                    }
            },
            Err(e) => match e {
                Error::FieldCount { row, found } => {
                    &&& (row as int) < data_rows(bytes@).len()
                    &&& data_rows(bytes@)[row as int].len() == found
                    &&& found != 3
                    &&& forall|j: int|
                        0 <= j < row as int ==> #[trigger] data_rows(bytes@)[j].len() == 3
                },
            },
        },
{
    let mut rows = parse_rows(bytes);
    let ghost all = csv_rows(bytes@);
    let mut recs: Vec<Record> = Vec::new();
    if rows.len() == 0 {
        return Ok(recs);
    }
    let _header = rows.remove(0);
    let n = rows.len();
    let mut k: usize = 0;
    while k < n
        invariant
            n + 1 == all.len(),
            k <= n,
            rows@.len() == n - k,
            data_rows(bytes@) == all.skip(1),
            forall|m: int| #![trigger rows@[m]]
                0 <= m < rows@.len() ==> {
                    &&& rows@[m]@.len() == all[k as int + 1 + m].len()
                    &&& forall|j: int|
                        0 <= j < rows@[m]@.len() ==> #[trigger] rows@[m]@[j]@ == all[k as int + 1
                            + m][j]
                },
            recs@.len() == k,
            forall|m: int| 0 <= m < k ==> #[trigger] all.skip(1)[m].len() == 3,
            forall|m: int| #![trigger recs@[m]]
                0 <= m < k ==> {
                    &&& recs@[m].left@ == all.skip(1)[m][0]
                    &&& recs@[m].right@ == all.skip(1)[m][1]
                    &&& recs@[m].result@ == all.skip(1)[m][2]
                },
        decreases n - k,
    {
        let mut row = rows.remove(0);
        proof {
            assert(row@.len() == all[k as int + 1].len());
            assert(all.skip(1)[k as int] == all[k as int + 1]);
        }
        if row.len() != 3 {
            return Err(Error::FieldCount { row: k, found: row.len() });
        }
        let left = row.remove(0);
        let right = row.remove(0);
        let result = row.remove(0);
        recs.push(Record { left, right, result });
        k = k + 1;
    }
    proof {
        assert(data_rows(bytes@).len() == n);
    }
    Ok(recs)
}

/// The items whose flag equals `keep`, in their original order. The
/// flags run in step with the items; anything past the shorter of the
/// two sequences is ignored.
pub open spec fn select<T>(items: Seq<T>, flags: Seq<bool>, keep: bool) -> Seq<T>
    decreases items.len(),
{
    if items.len() == 0 || flags.len() == 0 {
        Seq::empty()
    } else {
        let rest = select(items.drop_last(), flags.drop_last(), keep);
        if flags.last() == keep {
            rest + seq![items.last()]
        } else {
            rest
        }
    }
}

/// Every item lands on exactly one side of a split: the selected and the
/// rejected items together account for all of them.
pub proof fn lemma_select_partition<T>(items: Seq<T>, flags: Seq<bool>)
    requires
        items.len() == flags.len(),
    ensures
        select(items, flags, true).len() + select(items, flags, false).len() == items.len(),
    decreases items.len(),
{
    if items.len() > 0 {
        lemma_select_partition(items.drop_last(), flags.drop_last());
    }
}

/// The records chosen for training, as parallel input and output arrays.
pub struct TranData {
    pub inputs: Vec<(Vec<u8>, Vec<u8>)>,
    pub outputs: Vec<Vec<u8>>,
}

impl TranData {
    /// An empty training set.
    pub fn new() -> (r: Self)
        ensures
            r.inputs@.len() == 0,
            r.outputs@.len() == 0,
    {
        Self { inputs: Vec::new(), outputs: Vec::new() }
    }
}

/// One record held out for testing: its inputs and the expected output.
pub struct TestData {
    pub input: (Vec<u8>, Vec<u8>),
    pub output: Vec<u8>,
}

/// Splits the records into a training set and a test set: a record whose
/// flag is true trains, one whose flag is false tests, and each side
/// keeps the original order.
pub fn get_data(records: Vec<Record>, train: &Vec<bool>) -> (r: (TranData, Vec<TestData>))
    requires
        records@.len() == train@.len(),
    ensures
        ({
            let tr = select(records@, train@, true);
            let te = select(records@, train@, false);
            &&& r.0.inputs@.len() == tr.len()
            &&& r.0.outputs@.len() == tr.len()
            &&& forall|k: int| #![trigger r.0.inputs@[k]]
                0 <= k < tr.len() ==> {
                    &&& r.0.inputs@[k].0 == tr[k].left
                    &&& r.0.inputs@[k].1 == tr[k].right
                }
            &&& forall|k: int| 0 <= k < tr.len() ==> #[trigger] r.0.outputs@[k] == tr[k].result
            &&& r.1@.len() == te.len()
            &&& forall|k: int| #![trigger r.1@[k]]
                0 <= k < te.len() ==> {
                    &&& r.1@[k].input.0 == te[k].left
                    &&& r.1@[k].input.1 == te[k].right
                    &&& r.1@[k].output == te[k].result
                }
        }),
{
    let ghost orig = records@;
    let ghost fl = train@;
    let mut records = records;
    let mut tran = TranData::new();
    let mut tests: Vec<TestData> = Vec::new();
    let n = records.len();
    let mut i: usize = 0;
    while i < n
        invariant
            n == orig.len(),
            fl == train@,
            fl.len() == orig.len(),
            i <= n,
            records@ == orig.skip(i as int),
            ({
                let tr = select(orig.take(i as int), fl.take(i as int), true);
                let te = select(orig.take(i as int), fl.take(i as int), false);
                &&& tran.inputs@.len() == tr.len()
                &&& tran.outputs@.len() == tr.len()
                &&& forall|k: int| #![trigger tran.inputs@[k]]
                    0 <= k < tr.len() ==> {
                        &&& tran.inputs@[k].0 == tr[k].left
                        &&& tran.inputs@[k].1 == tr[k].right
                    }
                &&& forall|k: int|
                    0 <= k < tr.len() ==> #[trigger] tran.outputs@[k] == tr[k].result
                &&& tests@.len() == te.len()
                &&& forall|k: int| #![trigger tests@[k]]
                    0 <= k < te.len() ==> {
                        &&& tests@[k].input.0 == te[k].left
                        &&& tests@[k].input.1 == te[k].right
                        &&& tests@[k].output == te[k].result
                    }
            }),
        decreases n - i,
    {
        let rec = records.remove(0);
        proof {
            assert(rec == orig[i as int]);
            assert(orig.skip(i as int).remove(0) =~= orig.skip(i as int + 1));
            assert(orig.take(i as int + 1).drop_last() =~= orig.take(i as int));
            assert(fl.take(i as int + 1).drop_last() =~= fl.take(i as int));
            assert(orig.take(i as int + 1).last() == orig[i as int]);
            assert(fl.take(i as int + 1).last() == fl[i as int]);
        }
        let Record { left, right, result } = rec;
        if train[i] {
            tran.inputs.push((left, right));
            tran.outputs.push(result);
        } else {
            tests.push(TestData { input: (left, right), output: result });
        }
        i = i + 1;
    }
    proof {
        assert(orig.take(n as int) =~= orig);
        assert(fl.take(n as int) =~= fl);
    }
    (tran, tests)
}

} // verus!
