use voiddb::row::{Row, COLUMN_EMAIL_SIZE, COLUMN_USERNAME_SIZE, ROW_SIZE};
use voiddb::statement::{execute_statement, Statement, StatementType};
use voiddb::table::{ExecuteResult, Table, ROWS_PER_PAGE, TABLE_MAX_PAGES, TABLE_MAX_ROWS};

fn trimmed(bytes: &[u8]) -> &[u8] {
    let end = bytes.iter().rposition(|&b| b != 0).map_or(0, |p| p + 1);
    &bytes[..end]
}

#[test]
fn test_insert() {
    let mut table = Table::new();
    let row = Row::new(1, "username", "email@email.com");

    let statement = Statement { typ: StatementType::Insert, row_to_insert: Some(row) };
    let exec_status = execute_statement(&statement, &mut table);

    assert!(matches!(exec_status.0, ExecuteResult::Success));
}

#[test]
fn schema_constants() {
    assert_eq!(ROW_SIZE, 291);
    assert_eq!(COLUMN_USERNAME_SIZE, 32);
    assert_eq!(COLUMN_EMAIL_SIZE, 255);
    assert_eq!(ROWS_PER_PAGE, 14);
    assert_eq!(TABLE_MAX_PAGES, 100);
    assert_eq!(TABLE_MAX_ROWS, 1400);
}

#[test]
fn serialize_layout_is_little_endian_then_columns() {
    let row = Row::new(0x01020304, "ab", "cd");
    let bytes = row.serialize();

    assert_eq!(bytes.len(), 291);
    assert_eq!(&bytes[..4], &[0x04u8, 0x03, 0x02, 0x01][..]);
    assert_eq!(&bytes[4..6], &b"ab"[..]);
    assert!(bytes[6..36].iter().all(|&b| b == 0));
    assert_eq!(&bytes[36..38], &b"cd"[..]);
    assert!(bytes[38..].iter().all(|&b| b == 0));
}

#[test]
fn round_trip_preserves_the_record() {
    let row = Row::new(7, "alice", "a@x.com");
    let bytes = row.serialize();
    let back = Row::deserialize(&bytes);

    assert_eq!(back.id, row.id);
    assert_eq!(back.username, row.username);
    assert_eq!(back.email, row.email);
    assert_eq!(trimmed(&back.username), &b"alice"[..]);
    assert_eq!(trimmed(&back.email), &b"a@x.com"[..]);
}

#[test]
fn deserialize_of_a_zeroed_slot_is_the_empty_record() {
    let zeroes = vec![0u8; 291];
    let row = Row::deserialize(&zeroes);

    assert_eq!(row.id, 0);
    assert!(row.username.iter().all(|&b| b == 0));
    assert!(row.email.iter().all(|&b| b == 0));
}

#[test]
fn oversized_username_keeps_only_the_first_32_bytes() {
    let long = "abcdefghijklmnopqrstuvwxyz0123456789densely";
    assert!(long.len() > 40);
    let row = Row::new(9, &long[..40], "a@x.com");

    assert_eq!(row.username.len(), 32);
    assert_eq!(&row.username[..], long[..32].as_bytes());

    let back = Row::deserialize(&row.serialize());
    assert_eq!(&back.username[..], long[..32].as_bytes());
}

#[test]
fn oversized_email_keeps_only_the_first_255_bytes() {
    let long: String = "e".repeat(300);
    let row = Row::new(9, "alice", &long);

    assert_eq!(row.email.len(), 255);
    assert!(row.email.iter().all(|&b| b == b'e'));
}

#[test]
fn slot_addressing_formulas() {
    assert_eq!(Table::row_slot(0), (0, 0));
    assert_eq!(Table::row_slot(1), (0, 291));
    assert_eq!(Table::row_slot(13), (0, 13 * 291));
    assert_eq!(Table::row_slot(14), (1, 0));
    assert_eq!(Table::row_slot(29), (2, 291));
    assert_eq!(Table::row_slot(1399), (99, 13 * 291));
}

#[test]
fn capacity_boundary() {
    let mut table = Table::new();
    for i in 0..1400u32 {
        let row = Row::new(i, "user", "mail@x.com");
        assert!(matches!(table.insert(&row), ExecuteResult::Success));
    }
    assert_eq!(table.num_rows(), 1400);

    let overflow_row = Row::new(9999, "late", "late@x.com");
    assert!(matches!(table.insert(&overflow_row), ExecuteResult::TableFull));
    assert_eq!(table.num_rows(), 1400);

    let rows = table.select();
    assert_eq!(rows.len(), 1400);
    for (i, row) in rows.iter().enumerate() {
        assert_eq!(row.id, i as u32);
        assert_eq!(trimmed(&row.username), &b"user"[..]);
    }
}

#[test]
fn select_keeps_insertion_order() {
    let mut table = Table::new();
    for id in [3u32, 1, 2] {
        let row = Row::new(id, "user", "mail@x.com");
        table.insert(&row);
    }

    let rows = table.select();
    let ids: Vec<u32> = rows.iter().map(|r| r.id).collect();
    assert_eq!(ids, vec![3, 1, 2]);
}

#[test]
fn select_twice_yields_identical_sequences() {
    let mut table = Table::new();
    for id in [5u32, 6, 7] {
        let row = Row::new(id, "user", "mail@x.com");
        table.insert(&row);
    }

    let first = table.select();
    let second = table.select();

    assert_eq!(first.len(), second.len());
    for (a, b) in first.iter().zip(second.iter()) {
        assert_eq!(a.id, b.id);
        assert_eq!(a.username, b.username);
        assert_eq!(a.email, b.email);
    }
}

#[test]
fn insert_then_select_scenario() {
    let mut table = Table::new();
    let first = Statement {
        typ: StatementType::Insert,
        row_to_insert: Some(Row::new(1, "alice", "a@x.com")),
    };
    let second = Statement {
        typ: StatementType::Insert,
        row_to_insert: Some(Row::new(2, "bob", "b@x.com")),
    };
    assert!(matches!(execute_statement(&first, &mut table).0, ExecuteResult::Success));
    assert!(matches!(execute_statement(&second, &mut table).0, ExecuteResult::Success));

    let select = Statement { typ: StatementType::Select, row_to_insert: None };
    let (status, rows) = execute_statement(&select, &mut table);

    assert!(matches!(status, ExecuteResult::Success));
    assert_eq!(rows.len(), 2);
    assert_eq!(rows[0].id, 1);
    assert_eq!(trimmed(&rows[0].username), &b"alice"[..]);
    assert_eq!(trimmed(&rows[0].email), &b"a@x.com"[..]);
    assert_eq!(rows[1].id, 2);
    assert_eq!(trimmed(&rows[1].username), &b"bob"[..]);
    assert_eq!(trimmed(&rows[1].email), &b"b@x.com"[..]);
}

#[test]
fn insert_statement_without_a_record_reports_table_full() {
    let mut table = Table::new();
    let statement = Statement { typ: StatementType::Insert, row_to_insert: None };

    let (status, rows) = execute_statement(&statement, &mut table);

    assert!(matches!(status, ExecuteResult::TableFull));
    assert!(rows.is_empty());
    assert_eq!(table.num_rows(), 0);
}
