//! Statement preparation and execution.
//!
//! One input line is read into a [`Statement`]: either an insert carrying
//! the record to store, or a select.  A prepared statement is then executed
//! against a [`Table`].  The line grammar is fixed:
//! `insert <id> <username> <email>` — four whitespace-separated tokens, the
//! id a decimal `u32` — or exactly `select`.

use crate::input::InputBuffer;
use crate::row::{fit, Row, RowV, COLUMN_EMAIL_SIZE, COLUMN_USERNAME_SIZE};
use crate::table::{select_post, ExecuteResult, Table, TABLE_MAX_ROWS};
use vstd::prelude::*;
use vstd::slice::slice_to_vec;
use vstd::utf8::encode_utf8;

verus! {

/// Outcome of a meta command (a line starting with `.`).
pub enum MetaCommandResult {
    Success,
    UnrecognizedCommand,
}

/// Why a line could not be prepared into a statement.
pub enum PrepareResult {
    Success,
    UnrecognizedStatement,
    SyntaxError,
}

/// The two operations the store offers.
pub enum StatementType {
    Insert,
    Select,
}

/// A prepared statement: which operation to run and, for an insert, the
/// record to store.
pub struct Statement {
    pub typ: StatementType,
    pub row_to_insert: Option<Row>,
}

/// Mathematical image of a [`Statement`].
pub ghost struct StatementV {
    pub typ: StatementType,
    pub row_to_insert: Option<RowV>,
}

impl View for Statement {
    type V = StatementV;

    open spec fn view(&self) -> StatementV {
        StatementV {
            typ: self.typ,
            row_to_insert: match self.row_to_insert {
                Some(r) => Some(r@),
                None => None,
            },
        }
    }
}

impl Statement {
    /// An insert statement carries a well-formed record.
    pub open spec fn wf(&self) -> bool {
        match self.row_to_insert {
            Some(r) => r.wf(),
            None => true,
        }
    }
}

/// The ASCII whitespace bytes the tokenizer splits on.
pub open spec fn is_ws(b: u8) -> bool {
    b == 32 || 9 <= b <= 13
}

/// `s` with its leading whitespace removed.
pub open spec fn skip_ws(s: Seq<u8>) -> Seq<u8>
    decreases s.len(),
{
    if s.len() > 0 && is_ws(s[0]) {
        skip_ws(s.drop_first())
    } else {
        s
    }
}

/// Length of the leading whitespace-free run of `s`.
pub open spec fn token_len(s: Seq<u8>) -> int
    decreases s.len(),
{
    if s.len() > 0 && !is_ws(s[0]) {
        1 + token_len(s.drop_first())
    } else {
        0
    }
}

proof fn lemma_skip_ws_len(s: Seq<u8>)
    ensures
        skip_ws(s).len() <= s.len(),
        skip_ws(s).len() > 0 ==> !is_ws(skip_ws(s)[0]),
    decreases s.len(),
{
    if s.len() > 0 && is_ws(s[0]) {
        lemma_skip_ws_len(s.drop_first());
    }
}

proof fn lemma_token_len_bounds(s: Seq<u8>)
    ensures
        0 <= token_len(s) <= s.len(),
        s.len() > 0 && !is_ws(s[0]) ==> token_len(s) >= 1,
    decreases s.len(),
{
    if s.len() > 0 && !is_ws(s[0]) {
        lemma_token_len_bounds(s.drop_first());
    }
}

/// The whitespace-separated tokens of `s`, in order.
pub open spec fn spec_tokens(s: Seq<u8>) -> Seq<Seq<u8>>
    decreases s.len(),
    via spec_tokens_decreases
{
    let t = skip_ws(s);
    if t.len() == 0 {
        Seq::empty()
    } else {
        seq![t.take(token_len(t))] + spec_tokens(t.skip(token_len(t)))
    }
}

#[via_fn]
proof fn spec_tokens_decreases(s: Seq<u8>) {
    lemma_skip_ws_len(s);
    lemma_token_len_bounds(skip_ws(s));
}

/// Dropping one leading whitespace byte leaves the tokens unchanged.
proof fn lemma_tokens_ws_head(s: Seq<u8>)
    requires
        s.len() > 0,
        is_ws(s[0]),
    ensures
        spec_tokens(s) == spec_tokens(s.drop_first()),
{
    assert(skip_ws(s) == skip_ws(s.drop_first()));
}

/// A run of `m` non-whitespace bytes ending at whitespace (or at the end of
/// the input) is exactly the leading token.
proof fn lemma_token_len_run(s: Seq<u8>, m: int)
    requires
        0 <= m <= s.len(),
        forall|k: int| 0 <= k < m ==> !is_ws(#[trigger] s[k]),
        m < s.len() ==> is_ws(s[m]),
    ensures
        token_len(s) == m,
    decreases m,
{
    if m == 0 {
    } else {
        lemma_token_len_run(s.drop_first(), m - 1);
    }
}

/// A leading run of `m` non-whitespace bytes is the first token; the rest of
/// the tokens follow after it.
proof fn lemma_tokens_token_head(s: Seq<u8>, m: int)
    requires
        1 <= m <= s.len(),
        forall|k: int| 0 <= k < m ==> !is_ws(#[trigger] s[k]),
        m < s.len() ==> is_ws(s[m]),
    ensures
        spec_tokens(s) == seq![s.take(m)] + spec_tokens(s.skip(m)),
{
    assert(skip_ws(s) == s);
    lemma_token_len_run(s, m);
}

/// ASCII whitespace test, mirroring [`is_ws`].
fn is_ws_byte(b: u8) -> (r: bool)
    ensures
        r == is_ws(b),
{
    b == 32 || (9 <= b && b <= 13)
}

/// Split `s` into its whitespace-separated tokens.
fn tokenize(s: &[u8]) -> (toks: Vec<Vec<u8>>)
    ensures
        toks.deep_view() == spec_tokens(s@),
{
    let n = s.len();
    let mut toks: Vec<Vec<u8>> = Vec::new();
    let mut i: usize = 0;
    proof {
        assert(s@.skip(0) =~= s@);
        assert(toks.deep_view() + spec_tokens(s@) =~= spec_tokens(s@));
    }
    while i < n
        invariant
            n == s@.len(),
            i <= n,
            spec_tokens(s@) == toks.deep_view() + spec_tokens(s@.skip(i as int)),
        decreases n - i,
    {
        if is_ws_byte(s[i]) {
            proof {
                lemma_tokens_ws_head(s@.skip(i as int));
                assert(s@.skip(i as int).drop_first() =~= s@.skip(i as int + 1));
            }
            i += 1;
        } else {
            let start = i;
            i += 1;
            while i < n && !is_ws_byte(s[i])
                invariant
                    n == s@.len(),
                    start < i <= n,
                    forall|k: int| start <= k < i ==> !is_ws(#[trigger] s@[k]),
                decreases n - i,
            {
                i += 1;
            }
            let tok = slice_to_vec(&s[start..i]);
            let ghost prev = toks.deep_view();
            proof {
                let rest = s@.skip(start as int);
                lemma_tokens_token_head(rest, i - start);
                assert(rest.take(i - start) =~= s@.subrange(start as int, i as int));
                assert(rest.skip(i - start) =~= s@.skip(i as int));
            }
            toks.push(tok);
            proof {
                assert(toks.deep_view() =~~= prev.push(tok@));
                assert(prev.push(tok@) =~= prev + seq![tok@]);
            }
        }
    }
    proof {
        assert(s@.skip(n as int) =~= Seq::<u8>::empty());
        assert(spec_tokens(Seq::<u8>::empty()) =~= Seq::<Seq<u8>>::empty());
        assert(toks.deep_view() =~= spec_tokens(s@));
    }
    toks
}

/// An ASCII decimal digit.
pub open spec fn is_digit(b: u8) -> bool {
    48 <= b <= 57
}

/// Every byte of `s` is a decimal digit.
pub open spec fn all_digits(s: Seq<u8>) -> bool {
    forall|k: int| 0 <= k < s.len() ==> is_digit(#[trigger] s[k])
}

/// Numeric value of a digit string, most significant digit first.
pub open spec fn digits_val(s: Seq<u8>) -> int
    decreases s.len(),
{
    if s.len() == 0 {
        0
    } else {
        digits_val(s.drop_last()) * 10 + (s.last() - 48)
    }
}

/// The digit part of a numeric token: everything after an optional leading
/// `+` sign.
pub open spec fn digits_of(s: Seq<u8>) -> Seq<u8> {
    if s.len() > 0 && s[0] == 43 {
        s.drop_first()
    } else {
        s
    }
}

/// What reading a token as a `u32` accepts: an optional leading `+`, then
/// at least one decimal digit, naming a value that fits in a `u32`.
pub open spec fn spec_parse_u32(s: Seq<u8>) -> Option<u32> {
    let d = digits_of(s);
    if d.len() > 0 && all_digits(d) && digits_val(d) <= u32::MAX {
        Some(digits_val(d) as u32)
    } else {
        None
    }
}

proof fn lemma_digits_val_nonneg(s: Seq<u8>)
    requires
        all_digits(s),
    ensures
        digits_val(s) >= 0,
    decreases s.len(),
{
    if s.len() > 0 {
        assert(all_digits(s.drop_last()));
        lemma_digits_val_nonneg(s.drop_last());
    }
}

/// A digit string is worth at least any of its prefixes.
proof fn lemma_digits_val_prefix_le(s: Seq<u8>, m: int)
    requires
        all_digits(s),
        0 <= m <= s.len(),
    ensures
        digits_val(s.take(m)) <= digits_val(s),
    decreases s.len() - m,
{
    if m < s.len() {
        lemma_digits_val_prefix_le(s, m + 1);
        assert(all_digits(s.take(m)));
        lemma_digits_val_nonneg(s.take(m));
        assert(s.take(m + 1).drop_last() =~= s.take(m));
        assert(s.take(m + 1).last() == s[m]);
    } else {
        assert(s.take(m) =~= s);
    }
}

/// Read a token as a `u32`, exactly as [`spec_parse_u32`] says.
fn parse_u32(s: &[u8]) -> (r: Option<u32>)
    ensures
        r == spec_parse_u32(s@),
{
    let n = s.len();
    let start: usize = if n > 0 && s[0] == 43 {
        1
    } else {
        0
    };
    let ghost d = digits_of(s@);
    proof {
        assert(d =~= s@.skip(start as int));
    }
    if start >= n {
        return None;
    }
    let mut val: u64 = 0;
    let mut i: usize = start;
    while i < n
        invariant
            n == s@.len(),
            start <= i <= n,
            start < n,
            d == digits_of(s@),
            d == s@.skip(start as int),
            forall|k: int| start <= k < i ==> is_digit(#[trigger] s@[k]),
            val == digits_val(s@.subrange(start as int, i as int)),
            val <= u32::MAX,
        decreases n - i,
    {
        let b = s[i];
        if b < 48 || b > 57 {
            proof {
                assert(d[i - start] == s@[i as int]);
                assert(!all_digits(d));
            }
            return None;
        }
        val = val * 10 + ((b - 48) as u64);
        proof {
            let pre = s@.subrange(start as int, i as int);
            let cur = s@.subrange(start as int, i + 1);
            assert(cur.drop_last() =~= pre);
            assert(cur.last() == s@[i as int]);
        }
        if val > 0xffff_ffffu64 {
            proof {
                if all_digits(d) {
                    assert(d.take(i + 1 - start) =~= s@.subrange(start as int, i + 1));
                    lemma_digits_val_prefix_le(d, i + 1 - start);
                }
                assert(spec_parse_u32(s@) is None);
            }
            return None;
        }
        i += 1;
    }
    proof {
        assert(s@.subrange(start as int, n as int) =~= d);
        assert(forall|k: int| 0 <= k < d.len() ==> is_digit(#[trigger] d[k]));
    }
    Some(val as u32)
}

/// The keyword `insert`, as bytes.
pub open spec fn insert_kw() -> Seq<u8> {
    seq![105u8, 110u8, 115u8, 101u8, 114u8, 116u8]
}

/// The keyword `select`, as bytes.
pub open spec fn select_kw() -> Seq<u8> {
    seq![115u8, 101u8, 108u8, 101u8, 99u8, 116u8]
}

/// The meta command `.exit`, as bytes.
pub open spec fn exit_cmd() -> Seq<u8> {
    seq![46u8, 101u8, 120u8, 105u8, 116u8]
}

/// The statement read from one line, over the line's UTF-8 bytes.  A line
/// beginning with `insert` must consist of four whitespace-separated tokens
/// whose second reads as a `u32`; its first token is skipped, and the third
/// and fourth become the record's columns under the codec's cut-or-pad rule.
/// The exact line `select` reads.  Any other line is unrecognized.
pub open spec fn spec_prepare(s: Seq<u8>) -> Result<StatementV, PrepareResult> {
    if insert_kw().is_prefix_of(s) {
        let toks = spec_tokens(s);
        if toks.len() == 4 && spec_parse_u32(toks[1]) is Some {
            Ok(StatementV {
                typ: StatementType::Insert,
                row_to_insert: Some(RowV {
                    id: spec_parse_u32(toks[1]).unwrap(),
                    username: fit(toks[2], COLUMN_USERNAME_SIZE as int),
                    email: fit(toks[3], COLUMN_EMAIL_SIZE as int),
                }),
            })
        } else {
            Err(PrepareResult::SyntaxError)
        }
    } else if s == select_kw() {
        Ok(StatementV { typ: StatementType::Select, row_to_insert: None })
    } else {
        Err(PrepareResult::UnrecognizedStatement)
    }
}

/// Does `s` start with the keyword `insert`?
fn starts_with_insert(s: &[u8]) -> (r: bool)
    ensures
        r == insert_kw().is_prefix_of(s@),
{
    if s.len() < 6 {
        return false;
    }
    let r = s[0] == 105 && s[1] == 110 && s[2] == 115 && s[3] == 101 && s[4] == 114
        && s[5] == 116;
    proof {
        if r {
            assert(insert_kw() =~= s@.subrange(0, 6));
        }
    }
    r
}

/// Is `s` exactly the keyword `select`?
fn equals_select(s: &[u8]) -> (r: bool)
    ensures
        r == (s@ == select_kw()),
{
    if s.len() != 6 {
        return false;
    }
    let r = s[0] == 115 && s[1] == 101 && s[2] == 108 && s[3] == 101 && s[4] == 99
        && s[5] == 116;
    proof {
        if r {
            assert(s@ =~= select_kw());
        }
    }
    r
}

/// Is `s` exactly the meta command `.exit`?
fn equals_exit(s: &[u8]) -> (r: bool)
    ensures
        r == (s@ == exit_cmd()),
{
    if s.len() != 5 {
        return false;
    }
    let r = s[0] == 46 && s[1] == 101 && s[2] == 120 && s[3] == 105 && s[4] == 116;
    proof {
        if r {
            assert(s@ =~= exit_cmd());
        }
    }
    r
}

/// Classify the meta command held in the buffer.  `.exit` asks the driver
/// to shut down: the buffer is released and `Success` returned, and the
/// driver decides how to end the process.  Anything else is unrecognized
/// and leaves the buffer as it is.
pub fn do_meta_command(input_buffer: &mut InputBuffer) -> (r: MetaCommandResult)
    ensures
        encode_utf8(old(input_buffer).buffer@) == exit_cmd()
            ==> r == MetaCommandResult::Success
                && final(input_buffer).buffer@ == Seq::<char>::empty(),
        encode_utf8(old(input_buffer).buffer@) != exit_cmd()
            ==> r == MetaCommandResult::UnrecognizedCommand
                && *final(input_buffer) == *old(input_buffer),
{
    let is_exit = equals_exit(input_buffer.buffer.as_str().as_bytes());
    if is_exit {
        input_buffer.close();
        MetaCommandResult::Success
    } else {
        MetaCommandResult::UnrecognizedCommand
    }
}

/// Read the buffered line into a statement, exactly as [`spec_prepare`]
/// says over the line's UTF-8 bytes.
pub fn prepare_statement(input_buffer: &InputBuffer) -> (r: Result<
    Statement,
    PrepareResult,
>)
    ensures
        ({
            let sp = spec_prepare(encode_utf8(input_buffer.buffer@));
            match r {
                Ok(st) => sp == Ok::<StatementV, PrepareResult>(st@) && st.wf(),
                Err(e) => sp == Err::<StatementV, PrepareResult>(e),
            }
        }),
{
    let bytes: &[u8] = input_buffer.buffer.as_str().as_bytes();
    if starts_with_insert(bytes) {
        let toks = tokenize(bytes);
        if toks.len() != 4 {
            return Err(PrepareResult::SyntaxError);
        }
        proof {
            assert(toks@[1]@ == toks.deep_view()[1]);
            assert(toks@[2]@ == toks.deep_view()[2]);
            assert(toks@[3]@ == toks.deep_view()[3]);
        }
        match parse_u32(toks[1].as_slice()) {
            Some(id) => {
                let row = Row::new_from_bytes(id, toks[2].as_slice(), toks[3].as_slice());
                Ok(Statement { typ: StatementType::Insert, row_to_insert: Some(row) })
            },
            None => Err(PrepareResult::SyntaxError),
        }
    } else if equals_select(bytes) {
        Ok(Statement { typ: StatementType::Select, row_to_insert: None })
    } else {
        Err(PrepareResult::UnrecognizedStatement)
    }
}

/// Store the statement's record.  A full table reports `TableFull` and
/// changes nothing; so does an insert statement carrying no record.
/// Otherwise the record is appended and `Success` returned.
pub fn execute_insert(statement: &Statement, table: &mut Table) -> (r: ExecuteResult)
    requires
        old(table).wf(),
        statement.wf(),
    ensures
        final(table).wf(),
        old(table)@.len() >= TABLE_MAX_ROWS ==> r == ExecuteResult::TableFull
            && *final(table) == *old(table),
        old(table)@.len() < TABLE_MAX_ROWS ==> match statement.row_to_insert {
            Some(row) => r == ExecuteResult::Success
                && final(table)@ == old(table)@.push(row@),
            None => r == ExecuteResult::TableFull && *final(table) == *old(table),
        },
{
    if table.num_rows() >= TABLE_MAX_ROWS {
        return ExecuteResult::TableFull;
    }
    match &statement.row_to_insert {
        Some(row) => table.insert(row),
        None => ExecuteResult::TableFull,
    }
}

/// Read every stored record, in insertion order; reading never fails and
/// never mutates the table.
pub fn execute_select(_statement: &Statement, table: &Table) -> (out: (
    ExecuteResult,
    Vec<Row>,
))
    requires
        table.wf(),
    ensures
        out.0 == ExecuteResult::Success,
        select_post(*table, out.1.deep_view()),
        forall|i: int| 0 <= i < out.1@.len() ==> (#[trigger] out.1@[i]).wf(),
{
    (ExecuteResult::Success, table.select())
}

/// Dispatch a prepared statement against the table.  An insert returns no
/// rows; a select leaves the table untouched and returns every stored
/// record in insertion order.
pub fn execute_statement(statement: &Statement, table: &mut Table) -> (out: (
    ExecuteResult,
    Vec<Row>,
))
    requires
        old(table).wf(),
        statement.wf(),
    ensures
        final(table).wf(),
        match statement.typ {
            StatementType::Insert => out.1@.len() == 0
                && (old(table)@.len() >= TABLE_MAX_ROWS ==> out.0 == ExecuteResult::TableFull
                    && *final(table) == *old(table))
                && (old(table)@.len() < TABLE_MAX_ROWS ==> match statement.row_to_insert {
                    Some(row) => out.0 == ExecuteResult::Success
                        && final(table)@ == old(table)@.push(row@),
                    None => out.0 == ExecuteResult::TableFull
                        && *final(table) == *old(table),
                }),
            StatementType::Select => *final(table) == *old(table)
                && out.0 == ExecuteResult::Success
                && select_post(*old(table), out.1.deep_view()),
        },
{
    match statement.typ {
        StatementType::Insert => {
            let r = execute_insert(statement, table);
            (r, Vec::new())
        },
        StatementType::Select => execute_select(statement, &*table),
    }
}

} // verus!
