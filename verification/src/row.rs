//! The row codec: a fixed-schema record and its fixed-width byte layout.
//!
//! A serialized row is exactly [`ROW_SIZE`] bytes: the `id` as four
//! little-endian bytes, then the `username` column cut or zero-padded to
//! [`COLUMN_USERNAME_SIZE`] bytes, then the `email` column cut or zero-padded
//! to [`COLUMN_EMAIL_SIZE`] bytes.

use vstd::bytes::{
    lemma_auto_spec_u32_to_from_le_bytes, spec_u32_from_le_bytes, spec_u32_to_le_bytes,
    u32_from_le_bytes, u32_to_le_bytes,
};
use vstd::prelude::*;
use vstd::slice::slice_to_vec;
use vstd::string::StringSliceAdditionalSpecFns;

verus! {

/// Byte width of the `username` column in a serialized row.
pub open const COLUMN_USERNAME_SIZE: usize = 32;

/// Byte width of the `email` column in a serialized row.
pub open const COLUMN_EMAIL_SIZE: usize = 255;

/// Serialized size of one row: four id bytes plus the two padded columns.
pub open const ROW_SIZE: usize = 4 + COLUMN_USERNAME_SIZE + COLUMN_EMAIL_SIZE;

/// The mathematical image of a [`Row`]: its id and the byte sequences of its
/// two text columns.
pub ghost struct RowV {
    pub id: u32,
    pub username: Seq<u8>,
    pub email: Seq<u8>,
}

impl RowV {
    /// Both columns hold exactly their fixed byte width.
    pub open spec fn wf(self) -> bool {
        &&& self.username.len() == COLUMN_USERNAME_SIZE
        &&& self.email.len() == COLUMN_EMAIL_SIZE
    }
}

/// `s` cut to `n` bytes if longer, zero-padded to `n` bytes if shorter.
pub open spec fn fit(s: Seq<u8>, n: int) -> Seq<u8> {
    Seq::new(n as nat, |i: int| if i < s.len() { s[i] } else { 0u8 })
}

/// The byte layout of a well-formed row: little-endian id, then the columns.
pub open spec fn spec_encode(r: RowV) -> Seq<u8> {
    spec_u32_to_le_bytes(r.id) + r.username + r.email
}

/// The inverse reading of a [`ROW_SIZE`]-byte slot.
pub open spec fn spec_decode(b: Seq<u8>) -> RowV {
    RowV {
        id: spec_u32_from_le_bytes(b.subrange(0, 4)),
        username: b.subrange(4, 4 + COLUMN_USERNAME_SIZE as int),
        email: b.subrange(4 + COLUMN_USERNAME_SIZE as int, ROW_SIZE as int),
    }
}

/// One fixed-schema record.  The text columns always hold exactly their
/// fixed byte width; oversized input is cut silently and short input is
/// zero-padded when the record is built.
pub struct Row {
    pub id: u32,
    pub username: Vec<u8>,
    pub email: Vec<u8>,
}

impl View for Row {
    type V = RowV;

    open spec fn view(&self) -> RowV {
        RowV { id: self.id, username: self.username@, email: self.email@ }
    }
}

impl DeepView for Row {
    type V = RowV;

    open spec fn deep_view(&self) -> RowV {
        self.view()
    }
}

/// Truncate or zero-pad `s` to exactly `n` bytes.
fn fit_bytes(s: &[u8], n: usize) -> (out: Vec<u8>)
    ensures
        out@ == fit(s@, n as int),
{
    let mut out: Vec<u8> = Vec::new();
    let mut i: usize = 0;
    while i < n
        invariant
            i <= n,
            out@.len() == i,
            forall|j: int| 0 <= j < i ==> out@[j] == fit(s@, n as int)[j],
        decreases n - i,
    {
        if i < s.len() {
            out.push(s[i]);
        } else {
            out.push(0u8);
        }
        i += 1;
    }
    proof {
        assert(out@ =~= fit(s@, n as int));
    }
    out
}

impl Row {
    /// Both columns hold exactly their fixed byte width.
    pub open spec fn wf(&self) -> bool {
        self@.wf()
    }

    /// Build a record from raw column bytes, cutting or zero-padding each
    /// column to its fixed width.
    pub fn new_from_bytes(id: u32, username: &[u8], email: &[u8]) -> (r: Row)
        ensures
            r@ == (RowV {
                id,
                username: fit(username@, COLUMN_USERNAME_SIZE as int),
                email: fit(email@, COLUMN_EMAIL_SIZE as int),
            }),
            r.wf(),
    {
        Row {
            id,
            username: fit_bytes(username, COLUMN_USERNAME_SIZE),
            email: fit_bytes(email, COLUMN_EMAIL_SIZE),
        }
    }

    /// Build a record from text columns; each column's UTF-8 bytes are cut
    /// or zero-padded to the column's fixed width.
    pub fn new(id: u32, username: &str, email: &str) -> (r: Row)
        ensures
            r@ == (RowV {
                id,
                username: fit(username.spec_bytes(), COLUMN_USERNAME_SIZE as int),
                email: fit(email.spec_bytes(), COLUMN_EMAIL_SIZE as int),
            }),
            r.wf(),
    {
        Row::new_from_bytes(id, username.as_bytes(), email.as_bytes())
    }

    /// Encode the record into its fixed-width byte layout.
    pub fn serialize(&self) -> (out: Vec<u8>)
        requires
            self.wf(),
        ensures
            out@ == spec_encode(self@),
            out@.len() == ROW_SIZE,
    {
        let mut out: Vec<u8> = u32_to_le_bytes(self.id);
        out.extend_from_slice(self.username.as_slice());
        out.extend_from_slice(self.email.as_slice());
        proof {
            lemma_auto_spec_u32_to_from_le_bytes();
            assert(out@ =~= spec_encode(self@));
        }
        out
    }

    /// Decode a [`ROW_SIZE`]-byte slot back into a record.
    pub fn deserialize(data: &[u8]) -> (r: Row)
        requires
            data@.len() == ROW_SIZE,
        ensures
            r@ == spec_decode(data@),
            r.wf(),
    {
        let id = u32_from_le_bytes(&data[0..4]);
        let username = slice_to_vec(&data[4..4 + COLUMN_USERNAME_SIZE]);
        let email = slice_to_vec(&data[4 + COLUMN_USERNAME_SIZE..ROW_SIZE]);
        Row { id, username, email }
    }
}

/// Law: decoding an encoded well-formed row gives the row back unchanged.
pub proof fn lemma_round_trip(r: RowV)
    requires
        r.wf(),
    ensures
        spec_decode(spec_encode(r)) == r,
{
    lemma_auto_spec_u32_to_from_le_bytes();
    assert(spec_encode(r).subrange(0, 4) =~= spec_u32_to_le_bytes(r.id));
    assert(spec_encode(r).subrange(4, 4 + COLUMN_USERNAME_SIZE as int) =~= r.username);
    assert(spec_encode(r).subrange(4 + COLUMN_USERNAME_SIZE as int, ROW_SIZE as int)
        =~= r.email);
}

} // verus!
