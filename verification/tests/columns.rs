use procmon::columns::children_text;
use procmon::columns::columns_of;
use procmon::columns::parquet_schema;
use procmon::columns::parquet_table;
use procmon::columns::Column;
use procmon::columns::ColumnType;
use procmon::process::ProcRecord;

fn record(pid: u32) -> ProcRecord {
    ProcRecord {
        ts_nanos: 1_500_000_000,
        pid,
        ppid: None,
        name: format!("p{pid}"),
        user: Some("u".to_string()),
        status: "run".to_string(),
        cpu_bits: 2.5f32.to_bits(),
        mem_rss: 10,
        mem_vms: 20,
        num_threads: 1,
        create_time: 30,
        cwd: None,
        num_fds: Some(4),
        children: vec![pid + 1, pid + 2],
    }
}

#[test]
fn the_schema_has_its_columns() {
    let fields = parquet_schema();
    let expected = [
        ("ts", ColumnType::Float64, false),
        ("pid", ColumnType::UInt32, false),
        ("ppid", ColumnType::UInt32, true),
        ("name", ColumnType::Utf8, true),
        ("user_name", ColumnType::Utf8, true),
        ("status", ColumnType::Utf8, true),
        ("cpu_percent", ColumnType::Float32, true),
        ("mem_rss", ColumnType::UInt64, false),
        ("mem_vms", ColumnType::UInt64, false),
        ("num_threads", ColumnType::UInt64, false),
        ("create_time", ColumnType::Float64, false),
        ("cwd", ColumnType::Utf8, true),
        ("num_fds", ColumnType::UInt32, true),
        ("children", ColumnType::Utf8, true),
    ];
    assert_eq!(fields.len(), expected.len());
    for (field, (name, data_type, nullable)) in fields.iter().zip(expected) {
        assert_eq!(field.name, name);
        assert_eq!(field.data_type, data_type);
        assert_eq!(field.nullable, nullable);
    }
}

#[test]
fn children_are_a_json_array() {
    assert_eq!(children_text(&vec![]), "[]");
    assert_eq!(children_text(&vec![7]), "[7]");
    assert_eq!(children_text(&vec![1, 20, 4294967295]), "[1,20,4294967295]");
}

#[test]
fn each_row_is_a_record() {
    let columns = columns_of(&vec![record(100), record(200)]);
    assert_eq!(columns.len(), 14);
    assert!(matches!(&columns[0], Column::Times(v) if *v == vec![1_500_000_000; 2]));
    assert!(matches!(&columns[1], Column::Ids(v) if *v == vec![100, 200]));
    assert!(matches!(&columns[2], Column::Counts(v) if *v == vec![None, None]));
    assert!(matches!(&columns[3], Column::Texts(v) if *v == vec![Some("p100".to_string()), Some("p200".to_string())]));
    assert!(matches!(&columns[4], Column::Texts(v) if *v == vec![Some("u".to_string()); 2]));
    assert!(matches!(&columns[5], Column::Texts(v) if *v == vec![Some("run".to_string()); 2]));
    assert!(matches!(&columns[6], Column::Shares(v) if *v == vec![Some(2.5f32.to_bits()); 2]));
    assert!(matches!(&columns[7], Column::Sizes(v) if *v == vec![10, 10]));
    assert!(matches!(&columns[8], Column::Sizes(v) if *v == vec![20, 20]));
    assert!(matches!(&columns[9], Column::Sizes(v) if *v == vec![1, 1]));
    assert!(matches!(&columns[10], Column::Seconds(v) if *v == vec![30, 30]));
    assert!(matches!(&columns[11], Column::Texts(v) if *v == vec![None, None]));
    assert!(matches!(&columns[12], Column::Counts(v) if *v == vec![Some(4), Some(4)]));
    assert!(matches!(&columns[13], Column::Texts(v)
        if *v == vec![Some("[101,102]".to_string()), Some("[201,202]".to_string())]));
}

#[test]
fn an_empty_batch_makes_no_file() {
    assert!(parquet_table(&Vec::new()).is_none());
    let table = parquet_table(&vec![record(1)]).unwrap();
    assert_eq!(table.fields.len(), table.columns.len());
}
