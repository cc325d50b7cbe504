//! Rows of the append-only record store.
//!
//! Every run writes one fixed header line first; each qualifying cycle
//! then appends one data row with the derived rate, the two reserve
//! amounts, the two rates the cycle used, and the participant count.

use vstd::prelude::*;
use crate::amount::fmt_e4;
use crate::amount::fmt_e4_round2;
use crate::amount::fmt_e7_round0;
use crate::amount::fmt_e7_round2;
use crate::amount::format_e4;
use crate::amount::format_e4_round2;
use crate::amount::format_e7_round0;
use crate::amount::format_e7_round2;

verus! {

/// One data row of the record store, before rendering.
pub struct Row {
    pub date: String,
    pub time: String,
    pub rate_e4: u128,
    pub target_e7: u64,
    pub base_e7: u64,
    pub crypto_usd_e4: u64,
    pub usd_fiat_e4: u64,
    pub trustlines: String,
}

/// The header cells, in column order.
pub open spec fn header_cells_spec() -> Seq<Seq<char>> {
    seq![
        "date"@,
        "time"@,
        "ruv_rub"@,
        "ruv"@,
        "xlm"@,
        "xlm_usd"@,
        "usd_rub"@,
        "trustlines"@,
    ]
}

/// The rendered cells of a data row: the rate with four decimals, the
/// target amount as a whole number, the base amount and the fiat rate
/// with two decimals, the crypto rate with four.
pub open spec fn row_cells_spec(r: Row) -> Seq<Seq<char>> {
    seq![
        r.date@,
        r.time@,
        fmt_e4(r.rate_e4 as nat),
        fmt_e7_round0(r.target_e7 as nat),
        fmt_e7_round2(r.base_e7 as nat),
        fmt_e4(r.crypto_usd_e4 as nat),
        fmt_e4_round2(r.usd_fiat_e4 as nat),
        r.trustlines@,
    ]
}

/// Render the header line.
pub fn header_cells() -> (v: Vec<String>)
    ensures
        v.deep_view() == header_cells_spec(),
{
    let mut v: Vec<String> = Vec::new();
    v.push("date".to_owned());
    v.push("time".to_owned());
    v.push("ruv_rub".to_owned());
    v.push("ruv".to_owned());
    v.push("xlm".to_owned());
    v.push("xlm_usd".to_owned());
    v.push("usd_rub".to_owned());
    v.push("trustlines".to_owned());
    proof {
        assert(v.deep_view() =~= header_cells_spec());
    }
    v
}

/// Render a data row's cells.
pub fn row_cells(r: &Row) -> (v: Vec<String>)
    ensures
        v.deep_view() == row_cells_spec(*r),
{
    let mut v: Vec<String> = Vec::new();
    v.push(r.date.clone());
    v.push(r.time.clone());
    v.push(format_e4(r.rate_e4));
    v.push(format_e7_round0(r.target_e7));
    v.push(format_e7_round2(r.base_e7));
    v.push(format_e4(r.crypto_usd_e4 as u128));
    v.push(format_e4_round2(r.usd_fiat_e4));
    v.push(r.trustlines.clone());
    proof {
        assert(v.deep_view() =~= row_cells_spec(*r));
    }
    v
}

/// Each row of a list rendered into its cells.
pub open spec fn rows_rendered(rs: Seq<Row>) -> Seq<Seq<Seq<char>>> {
    rs.map_values(|r: Row| row_cells_spec(r))
}

proof fn lemma_rows_rendered_take_step(rs: Seq<Row>, i: int)
    requires
        0 <= i < rs.len(),
    ensures
        rows_rendered(rs.take(i + 1)) == rows_rendered(rs.take(i)).push(row_cells_spec(rs[i])),
{
    let lhs = rows_rendered(rs.take(i + 1));
    let rhs = rows_rendered(rs.take(i)).push(row_cells_spec(rs[i]));
    assert forall|j: int| 0 <= j < lhs.len() implies lhs[j] == rhs[j] by {
        if j < i {
            assert(rs.take(i + 1)[j] == rs[j]);
            assert(rs.take(i)[j] == rs[j]);
        } else {
            assert(rs.take(i + 1)[j] == rs[i]);
        }
    }
    assert(lhs =~= rhs);
}

/// The record store of one run: the fixed header line followed by the
/// data rows appended so far, in order.
pub struct RecordStore {
    data: Vec<Row>,
}

impl RecordStore {
    /// The data rows appended so far.
    pub closed spec fn data_rows(self) -> Seq<Row> {
        self.data@
    }

    /// Every line of the store: the header first, then each data row.
    pub open spec fn lines_spec(self) -> Seq<Seq<Seq<char>>> {
        seq![header_cells_spec()] + rows_rendered(self.data_rows())
    }

    /// A fresh store holds the header line and nothing else.
    pub fn new() -> (s: Self)
        ensures
            s.data_rows() == Seq::<Row>::empty(),
    {
        let s = RecordStore { data: Vec::new() };
        proof {
            assert(s.data_rows() =~= Seq::<Row>::empty());
        }
        s
    }

    /// Append one data row; every earlier line stays as it was.
    pub fn append_row(&mut self, r: Row)
        ensures
            final(self).data_rows() == old(self).data_rows().push(r),
    {
        self.data.push(r);
    }

    /// Render every line of the store.
    pub fn lines(&self) -> (out: Vec<Vec<String>>)
        ensures
            out.deep_view() == self.lines_spec(),
    {
        let mut out: Vec<Vec<String>> = Vec::new();
        out.push(header_cells());
        proof {
            assert(out.deep_view() =~= seq![header_cells_spec()] + rows_rendered(
                self.data@.take(0),
            ));
        }
        let mut i: usize = 0;
        while i < self.data.len()
            invariant
                i <= self.data@.len(),
                out.deep_view() == seq![header_cells_spec()] + rows_rendered(
                    self.data@.take(i as int),
                ),
            decreases self.data@.len() - i,
        {
            let ghost prior = out.deep_view();
            out.push(row_cells(&self.data[i]));
            proof {
                assert(out.deep_view() =~= prior.push(row_cells_spec(self.data@[i as int])));
                lemma_rows_rendered_take_step(self.data@, i as int);
                assert((seq![header_cells_spec()] + rows_rendered(self.data@.take(i as int))).push(
                    row_cells_spec(self.data@[i as int]),
                ) =~= seq![header_cells_spec()] + rows_rendered(self.data@.take(i + 1)));
            }
            i = i + 1;
        }
        proof {
            assert(self.data@.take(self.data@.len() as int) =~= self.data@);
            assert(out.deep_view() =~= self.lines_spec());
        }
        out
    }
}

/// In any store, the header line stands exactly at the front, once, and
/// every later line is the rendering of the data row appended at that
/// point — however many cycles ran.
pub proof fn lemma_header_first(s: RecordStore)
    ensures
        s.lines_spec().len() == 1 + s.data_rows().len(),
        s.lines_spec()[0] == header_cells_spec(),
        forall|i: int|
            1 <= i < s.lines_spec().len() ==> s.lines_spec()[i] == row_cells_spec(
                #[trigger] s.data_rows()[i - 1],
            ),
{
    assert forall|i: int| 1 <= i < s.lines_spec().len() implies s.lines_spec()[i]
        == row_cells_spec(#[trigger] s.data_rows()[i - 1]) by {
        assert(s.lines_spec()[i] == rows_rendered(s.data_rows())[i - 1]);
    }
}

/// No data row renders as the header line: a data row's first cell is its
/// date, and no cycle dates itself with the header's column name.
pub proof fn lemma_header_only_once(s: RecordStore)
    requires
        forall|i: int| 0 <= i < s.data_rows().len() ==> (#[trigger] s.data_rows()[i]).date@
            != "date"@,
    ensures
        forall|i: int| 1 <= i < s.lines_spec().len() ==> s.lines_spec()[i] != header_cells_spec(),
{
    lemma_header_first(s);
    assert forall|i: int| 1 <= i < s.lines_spec().len() implies s.lines_spec()[i]
        != header_cells_spec() by {
        let r = s.data_rows()[i - 1];
        assert(s.lines_spec()[i] == row_cells_spec(r));
        assert(row_cells_spec(r)[0] == r.date@);
        assert(header_cells_spec()[0] == "date"@);
    }
}

} // verus!
