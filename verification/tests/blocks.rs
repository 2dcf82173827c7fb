use databend_query::block::{DataBlock, DataField, DataSchema, DataType, DataValue, ErrorCode};
use databend_query::credits::{credit_column_of, is_whitespace_char, CreditsTable, TableIdent};
use databend_query::merge_block::{
    Event, EventStep, PortAction, PortStatus, TransformMergeBlock,
};

fn field(name: &str) -> DataField {
    DataField { name: name.to_string(), data_type: DataType::Int64 }
}

fn schema(names: &[&str]) -> DataSchema {
    DataSchema { fields: names.iter().map(|n| field(n)).collect() }
}

fn ints(v: &[i64]) -> Vec<DataValue> {
    v.iter().map(|i| DataValue::Int64(*i)).collect()
}

fn block(names: &[&str], cols: Vec<Vec<DataValue>>) -> DataBlock {
    DataBlock::create(schema(names), cols)
}

fn bytes(s: &str) -> DataValue {
    DataValue::String(s.as_bytes().to_vec())
}

// ---------------------------------------------------------------------------
// Blocks
// ---------------------------------------------------------------------------
#[test]
fn index_of_finds_the_first_field() {
    let s = schema(&["a", "b", "a"]);
    assert_eq!(s.index_of(&"a".to_string()), Ok(0));
    assert_eq!(s.index_of(&"b".to_string()), Ok(1));
    assert_eq!(s.index_of(&"z".to_string()), Err(ErrorCode::BadArguments("z".to_string())));
}

#[test]
fn try_column_by_name_gives_the_column() {
    let b = block(&["a", "b"], vec![ints(&[1, 2]), ints(&[3, 4])]);
    assert_eq!(b.try_column_by_name(&"b".to_string()), Ok(&ints(&[3, 4])));
    assert_eq!(b.try_column_by_name(&"c".to_string()), Err(ErrorCode::BadArguments("c".to_string())));
    assert_eq!(b.num_columns(), 2);
    assert_eq!(b.column(0), &ints(&[1, 2]));
}

#[test]
fn concat_blocks_rows_in_order() {
    let a = block(&["x", "y"], vec![ints(&[1]), vec![bytes("p")]]);
    let b = block(&["x", "y"], vec![ints(&[2, 3]), vec![bytes("q"), DataValue::Null]]);
    let c = DataBlock::concat_blocks(&[a, b]).unwrap();
    assert_eq!(c.column(0), &ints(&[1, 2, 3]));
    assert_eq!(c.column(1), &vec![bytes("p"), bytes("q"), DataValue::Null]);
    assert_eq!(c.schema(), &schema(&["x", "y"]));
}

#[test]
fn concat_blocks_errors() {
    assert_eq!(DataBlock::concat_blocks(&[]), Err(ErrorCode::EmptyData));
    let a = block(&["x"], vec![ints(&[1])]);
    let b = block(&["y"], vec![ints(&[2])]);
    assert_eq!(DataBlock::concat_blocks(&[a, b]), Err(ErrorCode::DataStructMissMatch));
}

#[test]
fn concat_of_one_block_is_the_block() {
    let a = block(&["x", "y"], vec![ints(&[1, 2]), ints(&[3, 4])]);
    let c = DataBlock::concat_blocks(&[block(&["x", "y"], vec![ints(&[1, 2]), ints(&[3, 4])])]).unwrap();
    assert_eq!(c, a);
}

// ---------------------------------------------------------------------------
// Merge transform
// ---------------------------------------------------------------------------
fn pairs(p: &[(&str, &str)]) -> Vec<(String, String)> {
    p.iter().map(|(l, r)| (l.to_string(), r.to_string())).collect()
}

const READY: PortStatus = PortStatus {
    output_finished: false,
    output_can_push: true,
    input_finished: false,
    input_has_data: false,
};

fn merger() -> (async_channel::Sender<DataBlock>, TransformMergeBlock) {
    let (tx, rx) = async_channel::unbounded();
    let p = TransformMergeBlock::try_create(schema(&["k", "v"]), pairs(&[("k", "key"), ("v", "value")]), rx)
        .unwrap();
    (tx, p)
}

#[test]
fn merge_name() {
    let (_tx, p) = merger();
    assert_eq!(p.name(), "TransformMergeBlock");
}

#[test]
fn merge_project_block_prefers_the_left_name() {
    let (_tx, p) = merger();
    let b = block(&["value", "k", "key"], vec![ints(&[1]), ints(&[2]), ints(&[3])]);
    let out = p.project_block(&b).unwrap();
    assert_eq!(out.schema(), &schema(&["k", "v"]));
    assert_eq!(out.column(0), &ints(&[2]));
    assert_eq!(out.column(1), &ints(&[1]));
    let bad = block(&["k"], vec![ints(&[2])]);
    assert_eq!(p.project_block(&bad), Err(ErrorCode::BadArguments("value".to_string())));
}

#[test]
fn merge_project_block_errors_only_on_a_missing_name() {
    let (_tx, rx) = async_channel::unbounded();
    let p = TransformMergeBlock::try_create(schema(&["k"]), pairs(&[("k", "key")]), rx).unwrap();
    assert!(!p.is_finished());
    let b = block(&["key", "other"], vec![ints(&[5]), ints(&[6])]);
    let out = p.project_block(&b).unwrap();
    assert_eq!(out.num_columns(), 1);
    assert_eq!(out.column(0), &ints(&[5]));
    let missing = block(&["z"], vec![ints(&[2])]);
    assert_eq!(p.project_block(&missing), Err(ErrorCode::BadArguments("key".to_string())));
}

#[test]
fn merge_event_priorities() {
    let (_tx, mut p) = merger();
    let finished = PortStatus { output_finished: true, ..READY };
    assert_eq!(p.event(&finished), EventStep::Done(Event::Finished, PortAction::FinishInput));
    let blocked = PortStatus { output_can_push: false, ..READY };
    assert_eq!(p.event(&blocked), EventStep::Done(Event::NeedConsume, PortAction::SetInputNotNeedData));
    assert_eq!(p.event(&READY), EventStep::Done(Event::NeedData, PortAction::SetInputNeedData));
    let has_data = PortStatus { input_has_data: true, ..READY };
    assert_eq!(p.event(&has_data), EventStep::PullInput);
    let input_done = PortStatus { input_finished: true, ..READY };
    assert_eq!(p.event(&input_done), EventStep::Done(Event::Async, PortAction::NoAction));
}

#[test]
fn merge_channel_block_is_projected_and_pushed() {
    let (tx, mut p) = merger();
    tx.try_send(block(&["key", "value"], vec![ints(&[7]), ints(&[8])])).unwrap();
    assert_eq!(p.event(&READY), EventStep::Done(Event::Sync, PortAction::NoAction));
    p.process().unwrap();
    let expected = block(&["k", "v"], vec![ints(&[7]), ints(&[8])]);
    assert_eq!(p.event(&READY), EventStep::Done(Event::NeedConsume, PortAction::PushOutput(expected)));
    assert_eq!(p.event(&READY), EventStep::Done(Event::NeedData, PortAction::SetInputNeedData));
}

#[test]
fn merge_input_rows_come_first() {
    let (_tx, mut p) = merger();
    assert_eq!(p.on_pulled(Ok(block(&["k", "v"], vec![ints(&[1]), ints(&[2])]))), Ok(Event::Sync));
    p.on_received(Some(block(&["key", "value"], vec![ints(&[3, 4]), ints(&[5, 6])])));
    p.process().unwrap();
    let expected = block(&["k", "v"], vec![ints(&[1, 3, 4]), ints(&[2, 5, 6])]);
    assert_eq!(p.event(&READY), EventStep::Done(Event::NeedConsume, PortAction::PushOutput(expected)));
}

#[test]
fn merge_process_error_drops_the_blocks() {
    let (_tx, mut p) = merger();
    assert_eq!(p.on_pulled(Ok(block(&["a"], vec![ints(&[1])]))), Ok(Event::Sync));
    assert_eq!(p.process(), Err(ErrorCode::BadArguments("key".to_string())));
    assert_eq!(p.event(&READY), EventStep::Done(Event::NeedData, PortAction::SetInputNeedData));
    assert_eq!(p.on_pulled(Err(ErrorCode::EmptyData)), Err(ErrorCode::EmptyData));
}

#[test]
fn merge_finishes_after_the_channel_closes() {
    let (tx, mut p) = merger();
    drop(tx);
    let input_done = PortStatus { input_finished: true, ..READY };
    assert_eq!(p.event(&input_done), EventStep::Done(Event::Async, PortAction::NoAction));
    assert!(!p.is_finished());
    p.on_received(None);
    assert!(p.is_finished());
    assert_eq!(p.event(&input_done), EventStep::Done(Event::Finished, PortAction::FinishOutput));
    p.on_received(Some(block(&["k", "v"], vec![ints(&[1]), ints(&[2])])));
    assert!(p.is_finished());
    assert_eq!(p.event(&input_done), EventStep::Done(Event::Finished, PortAction::FinishOutput));
}

#[test]
fn merge_event_with_takes_the_given_block() {
    let (_tx, mut p) = merger();
    let b = block(&["k", "v"], vec![ints(&[1]), ints(&[2])]);
    assert_eq!(p.event_with(&READY, Some(b)), EventStep::Done(Event::Sync, PortAction::NoAction));
    p.process().unwrap();
    assert!(matches!(p.event(&READY), EventStep::Done(Event::NeedConsume, PortAction::PushOutput(_))));
}

// ---------------------------------------------------------------------------
// Credits
// ---------------------------------------------------------------------------
#[test]
fn credit_entries_are_split_and_trimmed() {
    assert_eq!(credit_column_of("a, b ,c,"), vec![bytes("a"), bytes("b"), bytes("c")]);
    assert_eq!(credit_column_of(""), Vec::<DataValue>::new());
    assert_eq!(credit_column_of(","), vec![bytes("")]);
    assert_eq!(credit_column_of("a,,b"), vec![bytes("a"), bytes(""), bytes("b")]);
    assert_eq!(credit_column_of(" x \n"), vec![bytes("x")]);
    assert_eq!(credit_column_of("\u{3000}y z\u{2009},w"), vec![bytes("y z"), bytes("w")]);
    assert_eq!(credit_column_of("é , ß"), vec![bytes("é"), bytes("ß")]);
}

#[test]
fn credit_whitespace_is_unicode_whitespace() {
    for c in ['\t', '\n', '\r', ' ', '\u{85}', '\u{a0}', '\u{1680}', '\u{2000}', '\u{200a}', '\u{2028}', '\u{3000}', 'x', ',', '\u{200b}'] {
        assert_eq!(is_whitespace_char(c), c.is_whitespace(), "{:?}", c);
    }
}

#[test]
fn credits_table_info() {
    let t = CreditsTable::create(42);
    let info = t.get_table_info();
    assert_eq!(info.ident, TableIdent { table_id: 42, seq: 0 });
    assert_eq!(info.desc, "'system'.'credits'");
    assert_eq!(info.name, "credits");
    assert_eq!(info.meta.engine, "SystemCredits");
    let names: Vec<&str> = info.schema().fields.iter().map(|f| f.name.as_str()).collect();
    assert_eq!(names, vec!["name", "version", "license"]);
    assert!(info.schema().fields.iter().all(|f| f.data_type == DataType::String));
    assert_eq!(CreditsTable::table_name(), "system.credits");
}

#[test]
fn credits_full_data_rows() {
    let t = CreditsTable::create(1);
    let b = t.get_full_data("serde, tokio", "1.0.1, 1.0", "MIT, MIT").unwrap();
    assert_eq!(b.num_columns(), 3);
    assert_eq!(b.column(0), &vec![bytes("serde"), bytes("tokio")]);
    assert_eq!(b.column(1), &vec![bytes("1.0.1"), bytes("1.0")]);
    assert_eq!(b.column(2), &vec![bytes("MIT"), bytes("MIT")]);
    assert_eq!(b.schema(), t.get_table_info().schema());
}
