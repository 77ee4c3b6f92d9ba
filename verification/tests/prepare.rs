use voiddb::input::InputBuffer;
use voiddb::statement::{
    do_meta_command, prepare_statement, MetaCommandResult, PrepareResult, Statement,
    StatementType,
};

#[test]
fn test_prepare_select() {
    let mut input_buffer = InputBuffer::new();
    input_buffer.buffer = "select".to_string();

    let exec_status = prepare_statement(&input_buffer);

    assert!(matches!(
        exec_status,
        Ok(Statement { typ: StatementType::Select, row_to_insert: None })
    ));
}

#[test]
fn test_prepare_insert() {
    let mut input_buffer = InputBuffer::new();
    input_buffer.buffer = "insert 1 username email@email.com".to_string();

    let exec_status = prepare_statement(&input_buffer);

    assert!(matches!(
        exec_status,
        Ok(Statement { typ: StatementType::Insert, row_to_insert: Some(_) })
    ));
}

#[test]
fn prepare_insert_builds_the_record() {
    let mut input_buffer = InputBuffer::new();
    input_buffer.buffer = "insert 42 alice a@x.com".to_string();

    let statement = prepare_statement(&input_buffer).ok().unwrap();
    let row = statement.row_to_insert.unwrap();

    assert_eq!(row.id, 42);
    assert_eq!(row.username.len(), 32);
    assert_eq!(row.email.len(), 255);
    assert_eq!(&row.username[..5], &b"alice"[..]);
    assert!(row.username[5..].iter().all(|&b| b == 0));
    assert_eq!(&row.email[..7], &b"a@x.com"[..]);
    assert!(row.email[7..].iter().all(|&b| b == 0));
}

#[test]
fn prepare_insert_missing_fields_is_a_syntax_error() {
    let mut input_buffer = InputBuffer::new();
    input_buffer.buffer = "insert 1 alice".to_string();

    let exec_status = prepare_statement(&input_buffer);

    assert!(matches!(exec_status, Err(PrepareResult::SyntaxError)));
}

#[test]
fn prepare_insert_extra_field_is_a_syntax_error() {
    let mut input_buffer = InputBuffer::new();
    input_buffer.buffer = "insert 1 alice a@x.com extra".to_string();

    let exec_status = prepare_statement(&input_buffer);

    assert!(matches!(exec_status, Err(PrepareResult::SyntaxError)));
}

#[test]
fn prepare_insert_bad_id_is_a_syntax_error() {
    let mut input_buffer = InputBuffer::new();
    input_buffer.buffer = "insert abc alice a@x.com".to_string();

    let exec_status = prepare_statement(&input_buffer);

    assert!(matches!(exec_status, Err(PrepareResult::SyntaxError)));
}

#[test]
fn prepare_insert_id_at_the_u32_ceiling() {
    let mut input_buffer = InputBuffer::new();
    input_buffer.buffer = "insert 4294967295 alice a@x.com".to_string();

    let statement = prepare_statement(&input_buffer).ok().unwrap();

    assert_eq!(statement.row_to_insert.unwrap().id, u32::MAX);
}

#[test]
fn prepare_insert_id_overflow_is_a_syntax_error() {
    let mut input_buffer = InputBuffer::new();
    input_buffer.buffer = "insert 4294967296 alice a@x.com".to_string();

    let exec_status = prepare_statement(&input_buffer);

    assert!(matches!(exec_status, Err(PrepareResult::SyntaxError)));
}

#[test]
fn prepare_insert_signed_id() {
    let mut input_buffer = InputBuffer::new();
    input_buffer.buffer = "insert +7 alice a@x.com".to_string();

    let statement = prepare_statement(&input_buffer).ok().unwrap();

    assert_eq!(statement.row_to_insert.unwrap().id, 7);
}

#[test]
fn prepare_unknown_keyword_is_unrecognized() {
    let mut input_buffer = InputBuffer::new();
    input_buffer.buffer = "delete 1".to_string();

    let exec_status = prepare_statement(&input_buffer);

    assert!(matches!(exec_status, Err(PrepareResult::UnrecognizedStatement)));
}

#[test]
fn meta_exit_succeeds_and_clears_the_buffer() {
    let mut input_buffer = InputBuffer::new();
    input_buffer.buffer = ".exit".to_string();

    let result = do_meta_command(&mut input_buffer);

    assert!(matches!(result, MetaCommandResult::Success));
    assert!(input_buffer.buffer.is_empty());
}

#[test]
fn meta_unknown_command_is_unrecognized() {
    let mut input_buffer = InputBuffer::new();
    input_buffer.buffer = ".tables".to_string();

    let result = do_meta_command(&mut input_buffer);

    assert!(matches!(result, MetaCommandResult::UnrecognizedCommand));
    assert_eq!(input_buffer.buffer, ".tables");
}
