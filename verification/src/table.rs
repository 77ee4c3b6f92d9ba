//! The page store and the table.
//!
//! A table owns a bounded arena of lazily allocated fixed-size pages and a
//! monotone row counter.  A logical row index is mapped to the byte slot
//! `[row_offset, row_offset + ROW_SIZE)` of exactly one page; a row never
//! spans two pages, the remainder bytes of each page stay unused.

use crate::row::{lemma_round_trip, spec_decode, spec_encode, Row, RowV, ROW_SIZE};
use vstd::prelude::*;
use vstd::slice::slice_to_vec;

verus! {

/// Fixed byte size of one page.
pub open const PAGE_SIZE: usize = 4096;

/// Greatest number of pages a table may own.
pub open const TABLE_MAX_PAGES: usize = 100;

/// Rows that fit in one page.
pub open const ROWS_PER_PAGE: usize = PAGE_SIZE / ROW_SIZE;

/// Hard ceiling on the number of rows a table can hold.
pub open const TABLE_MAX_ROWS: usize = ROWS_PER_PAGE * TABLE_MAX_PAGES;

/// Index of the page that holds row `row_num`.
pub open spec fn row_page(row_num: int) -> int {
    row_num / ROWS_PER_PAGE as int
}

/// Byte offset of row `row_num`'s slot inside its page.
pub open spec fn row_offset(row_num: int) -> int {
    (row_num % ROWS_PER_PAGE as int) * ROW_SIZE as int
}

/// The concrete values of the derived layout constants.
pub proof fn lemma_layout()
    ensures
        ROW_SIZE == 291,
        ROWS_PER_PAGE == 14,
        TABLE_MAX_ROWS == 1400,
{
}

/// Outcome of executing a statement; capacity exhaustion is the only
/// failure the storage layer can report.
pub enum ExecuteResult {
    Success,
    TableFull,
}

/// The record store: a row counter and a bounded arena of lazily allocated
/// pages.  Its mathematical view is the sequence of the records decoded from
/// the occupied slots, in insertion order.
pub struct Table {
    num_rows: usize,
    pages: Vec<Option<Vec<u8>>>,
}

impl Table {
    /// Internal invariant: the arena has its full complement of page cells,
    /// the row counter respects the capacity ceiling, every allocated page
    /// has the fixed page size, and every page holding a stored row is
    /// allocated.
    pub closed spec fn wf(&self) -> bool {
        &&& self.pages@.len() == TABLE_MAX_PAGES
        &&& self.num_rows <= TABLE_MAX_ROWS
        &&& forall|p: int|
            0 <= p < self.pages@.len() && #[trigger] self.pages@[p] is Some
                ==> self.pages@[p].unwrap()@.len() == PAGE_SIZE
        &&& forall|r: int|
            0 <= r < self.num_rows ==> self.pages@[#[trigger] row_page(r)] is Some
    }

    /// The raw bytes of row `row_num`'s slot.
    pub closed spec fn slot_bytes(&self, row_num: int) -> Seq<u8> {
        self.pages@[row_page(row_num)].unwrap()@.subrange(
            row_offset(row_num),
            row_offset(row_num) + ROW_SIZE as int,
        )
    }
}

impl View for Table {
    type V = Seq<RowV>;

    closed spec fn view(&self) -> Seq<RowV> {
        Seq::new(self.num_rows as nat, |r: int| spec_decode(self.slot_bytes(r)))
    }
}

/// Copy `bytes` into `page` at byte offset `off`, leaving every byte outside
/// `[off, off + bytes.len())` unchanged.
fn write_bytes_at(page: &mut Vec<u8>, off: usize, bytes: &Vec<u8>)
    requires
        off + bytes@.len() <= old(page)@.len(),
    ensures
        final(page)@.len() == old(page)@.len(),
        forall|j: int|
            off <= j < off + bytes@.len() ==> #[trigger] final(page)@[j] == bytes@[j - off],
        forall|j: int|
            0 <= j < old(page)@.len() && !(off <= j < off + bytes@.len())
                ==> #[trigger] final(page)@[j] == old(page)@[j],
{
    let count = bytes.len();
    let page_len = page.len();
    let mut k: usize = 0;
    while k < count
        invariant
            count == bytes@.len(),
            page_len == page@.len(),
            k <= count,
            off + count <= page@.len(),
            page@.len() == old(page)@.len(),
            forall|j: int| off <= j < off + k ==> #[trigger] page@[j] == bytes@[j - off],
            forall|j: int|
                0 <= j < page@.len() && !(off <= j < off + k)
                    ==> #[trigger] page@[j] == old(page)@[j],
        decreases bytes@.len() - k,
    {
        page[off + k] = bytes[k];
        k += 1;
    }
}

/// A freshly allocated, zero-initialized page.
fn alloc_page() -> (page: Vec<u8>)
    ensures
        page@.len() == PAGE_SIZE,
        forall|j: int| 0 <= j < page@.len() ==> #[trigger] page@[j] == 0u8,
{
    let mut page: Vec<u8> = Vec::new();
    let mut k: usize = 0;
    while k < PAGE_SIZE
        invariant
            k <= PAGE_SIZE,
            page@.len() == k,
            forall|j: int| 0 <= j < k ==> #[trigger] page@[j] == 0u8,
        decreases PAGE_SIZE - k,
    {
        page.push(0u8);
        k += 1;
    }
    page
}

impl Table {
    /// An empty table: no rows, no page allocated yet.
    pub fn new() -> (t: Table)
        ensures
            t.wf(),
            t@ == Seq::<RowV>::empty(),
    {
        let mut pages: Vec<Option<Vec<u8>>> = Vec::new();
        let mut i: usize = 0;
        while i < TABLE_MAX_PAGES
            invariant
                i <= TABLE_MAX_PAGES,
                pages@.len() == i,
                forall|p: int| 0 <= p < i ==> #[trigger] pages@[p] is None,
            decreases TABLE_MAX_PAGES - i,
        {
            pages.push(None);
            i += 1;
        }
        let t = Table { num_rows: 0, pages };
        proof {
            assert(t@ =~= Seq::<RowV>::empty());
        }
        t
    }

    /// Number of rows currently stored.
    pub fn num_rows(&self) -> (n: usize)
        ensures
            n == self@.len(),
    {
        self.num_rows
    }

    /// Slot address of row `row_num`: the page that holds it and the byte
    /// offset of its slot inside that page.
    pub fn row_slot(row_num: usize) -> (slot: (usize, usize))
        ensures
            slot.0 == row_page(row_num as int),
            slot.1 == row_offset(row_num as int),
    {
        proof {
            lemma_layout();
        }
        (row_num / ROWS_PER_PAGE, row_num % ROWS_PER_PAGE * ROW_SIZE)
    }

    /// The bytes of row `row_num`'s slot.
    fn read_slot(&self, row_num: usize) -> (slot: Vec<u8>)
        requires
            self.wf(),
            row_num < self.num_rows,
        ensures
            slot@ == self.slot_bytes(row_num as int),
            slot@.len() == ROW_SIZE,
    {
        let (page_num, page_offset) = Self::row_slot(row_num);
        proof {
            lemma_layout();
            assert(self.pages@[row_page(row_num as int)] is Some);
            assert(page_num < TABLE_MAX_PAGES);
            assert(page_offset + ROW_SIZE <= PAGE_SIZE);
        }
        match &self.pages[page_num] {
            Some(buf) => slice_to_vec(&buf[page_offset..page_offset + ROW_SIZE]),
            None => Vec::new(),
        }
    }

    /// Store a record.  If the table is at capacity, report `TableFull` and
    /// change nothing; otherwise append the record at the next row index.
    pub fn insert(&mut self, row: &Row) -> (res: ExecuteResult)
        requires
            old(self).wf(),
            row.wf(),
        ensures
            final(self).wf(),
            old(self)@.len() < TABLE_MAX_ROWS ==> res == ExecuteResult::Success
                && final(self)@ == old(self)@.push(row@),
            old(self)@.len() >= TABLE_MAX_ROWS ==> res == ExecuteResult::TableFull
                && *final(self) == *old(self),
    {
        if self.num_rows >= TABLE_MAX_ROWS {
            return ExecuteResult::TableFull;
        }
        let bytes = row.serialize();
        let (page_num, page_offset) = Self::row_slot(self.num_rows);
        proof {
            lemma_layout();
            assert(page_num < TABLE_MAX_PAGES);
            assert(page_offset + ROW_SIZE <= PAGE_SIZE);
        }
        let mut page: Vec<u8> = match self.pages[page_num].take() {
            Some(buf) => buf,
            None => alloc_page(),
        };
        write_bytes_at(&mut page, page_offset, &bytes);
        self.pages[page_num] = Some(page);
        self.num_rows = self.num_rows + 1;
        proof {
            lemma_layout();
            let n = old(self).num_rows as int;
            assert forall|r: int| 0 <= r < n implies self.slot_bytes(r)
                =~= old(self).slot_bytes(r) by {
                assert(old(self).pages@[row_page(r)] is Some);
                if row_page(r) == row_page(n) {
                    assert(row_offset(r) + ROW_SIZE <= row_offset(n));
                }
            }
            assert(self.slot_bytes(n) =~= bytes@);
            lemma_round_trip(row@);
            assert(self@ =~= old(self)@.push(row@));
        }
        ExecuteResult::Success
    }

    /// Read every stored record, in insertion order.  Reading neither fails
    /// nor mutates the table.
    pub fn select(&self) -> (rows: Vec<Row>)
        requires
            self.wf(),
        ensures
            select_post(*self, rows.deep_view()),
            forall|i: int| 0 <= i < rows@.len() ==> (#[trigger] rows@[i]).wf(),
    {
        let mut rows: Vec<Row> = Vec::new();
        let n = self.num_rows;
        let mut i: usize = 0;
        while i < n
            invariant
                self.wf(),
                n == self.num_rows,
                i <= n,
                rows@.len() == i,
                forall|j: int| 0 <= j < i ==> #[trigger] rows@[j]@ == self@[j],
                forall|j: int| 0 <= j < i ==> (#[trigger] rows@[j]).wf(),
            decreases n - i,
        {
            let slot = self.read_slot(i);
            let row = Row::deserialize(slot.as_slice());
            rows.push(row);
            i += 1;
        }
        proof {
            assert(rows.deep_view() =~= self@);
        }
        rows
    }
}

/// What `select` promises of a result: one decoded record per stored row,
/// in insertion order.
pub open spec fn select_post(t: Table, rows: Seq<RowV>) -> bool {
    &&& rows.len() == t@.len()
    &&& forall|i: int| 0 <= i < rows.len() ==> rows[i] == t@[i]
}

/// Law: two distinct row indices never map to overlapping byte ranges: they
/// lie in different pages, or their slots within the shared page are
/// disjoint.
pub proof fn lemma_slots_disjoint(i: int, j: int)
    requires
        0 <= i,
        0 <= j,
        i != j,
    ensures
        row_page(i) != row_page(j)
            || row_offset(i) + ROW_SIZE <= row_offset(j)
            || row_offset(j) + ROW_SIZE <= row_offset(i),
{
    lemma_layout();
}

/// Law: `select` neither fails nor mutates, and its result is a function of
/// the table alone, so two reads with no insert in between agree exactly.
pub proof fn lemma_select_idempotent(t: Table, first: Seq<RowV>, second: Seq<RowV>)
    requires
        select_post(t, first),
        select_post(t, second),
    ensures
        first =~= second,
{
}

} // verus!
