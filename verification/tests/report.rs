use dfs_audit::classify::AuditRecord;
use dfs_audit::emit::emit;

fn record(path: &str, accessed: &str) -> AuditRecord {
    AuditRecord {
        path: path.to_string(),
        accessed: accessed.to_string(),
    }
}

#[test]
fn empty_report_is_header_only() {
    let records: Vec<AuditRecord> = Vec::new();
    assert_eq!(emit(&records), "path,accessed\n");
}

#[test]
fn plain_fields_are_written_verbatim() {
    let records = vec![
        record("/srv/a.txt", "2019-05-01 10:20:30"),
        record("/srv/b sub/c", "2018-12-24 00:00:01"),
    ];
    assert_eq!(
        emit(&records),
        "path,accessed\n/srv/a.txt,2019-05-01 10:20:30\n/srv/b sub/c,2018-12-24 00:00:01\n"
    );
}

#[test]
fn separator_in_field_forces_quotes() {
    let records = vec![record("/srv/a,b", "2019-05-01 10:20:30")];
    assert_eq!(
        emit(&records),
        "path,accessed\n\"/srv/a,b\",2019-05-01 10:20:30\n"
    );
}

#[test]
fn embedded_quotes_are_doubled() {
    let records = vec![record("/srv/we\"ird", "2019-05-01 10:20:30")];
    assert_eq!(
        emit(&records),
        "path,accessed\n\"/srv/we\"\"ird\",2019-05-01 10:20:30\n"
    );
}

#[test]
fn newline_in_field_forces_quotes() {
    let records = vec![record("/srv/line\nbreak", "2019-05-01 10:20:30")];
    assert_eq!(
        emit(&records),
        "path,accessed\n\"/srv/line\nbreak\",2019-05-01 10:20:30\n"
    );
}

#[test]
fn report_matches_reference_csv_writer() {
    let records = vec![
        record("/plain/path", "2015-06-07 08:09:10"),
        record("/with,comma", "2015-06-07 08:09:11"),
        record("/with\"quote", "2015-06-07 08:09:12"),
        record("/with\nnewline", "2015-06-07 08:09:13"),
        record("/with\rreturn", "2015-06-07 08:09:14"),
    ];
    let mut writer = csv::Writer::from_writer(Vec::new());
    writer.write_record(["path", "accessed"]).unwrap();
    for r in &records {
        writer
            .write_record([r.path.as_str(), r.accessed.as_str()])
            .unwrap();
    }
    let reference = String::from_utf8(writer.into_inner().unwrap()).unwrap();
    assert_eq!(emit(&records), reference);
}
