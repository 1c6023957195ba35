use run_uproc::error::PipelineError;
use run_uproc::joiner::{
    annotation_file_name, classify_artifact, field_names, find_column, find_row, header_line,
    key_name, load_table, report_name, AnnotationTable, TableKind,
};

fn strings(items: &[&str]) -> Vec<String> {
    items.iter().map(|s| s.to_string()).collect()
}

fn pfam_table() -> AnnotationTable {
    let data = "accession\tidentifier\tname\nX1\tfoo\tbar\nX2\tbaz\tqux\n";
    load_table(data.as_bytes(), TableKind::Pfam).unwrap()
}

fn kegg_table() -> AnnotationTable {
    let data = "kegg_annotation_id\tname\tdefinition\tpathway\tmodule\n\
                K1\tn1\td1\tp1\tm1\n\
                K2\tn2\td2\tp2\tm2\n";
    load_table(data.as_bytes(), TableKind::Kegg).unwrap()
}

#[test]
fn four_column_join_example() {
    let table = pfam_table();
    assert!(table.has_columns(TableKind::Pfam));
    let report = table.annotate(TableKind::Pfam, &strings(&["X1,7"]));
    assert_eq!(report, strings(&["pfam_id\tcount\tidentifier\tname", "X1\t7\tfoo\tbar"]));
}

#[test]
fn six_column_join() {
    let table = kegg_table();
    assert!(table.has_columns(TableKind::Kegg));
    let report = table.annotate(TableKind::Kegg, &strings(&["K2,40", "K1,2"]));
    assert_eq!(
        report,
        strings(&[
            "kegg_id\tcount\tname\tdefinition\tpathway\tmodule",
            "K2\t40\tn2\td2\tp2\tm2",
            "K1\t2\tn1\td1\tp1\tm1",
        ])
    );
}

#[test]
fn unknown_identifiers_and_other_shapes_are_dropped() {
    let table = pfam_table();
    let lines = strings(&["X9,1", "X2,5", "X1", "X1,2,3", "", "X1,"]);
    let report = table.annotate(TableKind::Pfam, &lines);
    assert_eq!(
        report,
        strings(&["pfam_id\tcount\tidentifier\tname", "X2\t5\tbaz\tqux", "X1\t\tfoo\tbar"])
    );
    assert_eq!(table.annotate_line(TableKind::Pfam, "X9,1"), None);
    assert_eq!(table.annotate_line(TableKind::Pfam, "X2,5"), Some("X2\t5\tbaz\tqux".to_string()));
}

#[test]
fn report_of_no_lines_is_the_title_line() {
    let report = kegg_table().annotate(TableKind::Kegg, &Vec::new());
    assert_eq!(report, strings(&["kegg_id\tcount\tname\tdefinition\tpathway\tmodule"]));
}

#[test]
fn later_row_with_the_same_key_wins() {
    let data = "accession\tidentifier\tname\nX1\told\tone\nX1\tnew\ttwo\n";
    let table = load_table(data.as_bytes(), TableKind::Pfam).unwrap();
    assert_eq!(
        table.annotate_line(TableKind::Pfam, "X1,3"),
        Some("X1\t3\tnew\ttwo".to_string())
    );
}

#[test]
fn table_without_key_column_matches_nothing() {
    let data = "id\tidentifier\tname\nX1\tfoo\tbar\n";
    let table = load_table(data.as_bytes(), TableKind::Pfam).unwrap();
    assert!(table.has_columns(TableKind::Pfam));
    assert_eq!(table.annotate_line(TableKind::Pfam, "X1,3"), None);
}

#[test]
fn table_lacking_a_field_does_not_support_the_report() {
    let data = "accession\tidentifier\nX1\tfoo\n";
    let table = load_table(data.as_bytes(), TableKind::Pfam).unwrap();
    assert!(!table.has_columns(TableKind::Pfam));
    assert!(!pfam_table().has_columns(TableKind::Kegg));
}

#[test]
fn records_of_unequal_length_are_refused() {
    let data = "accession\tidentifier\tname\nX1\tfoo\n";
    assert!(matches!(
        load_table(data.as_bytes(), TableKind::Pfam),
        Err(PipelineError::MalformedTable)
    ));
    let grid = vec![strings(&["a", "b"]), strings(&["1"])];
    assert!(matches!(
        AnnotationTable::from_rows(grid, "a"),
        Err(PipelineError::MalformedTable)
    ));
}

#[test]
fn bytes_that_are_no_text_are_refused() {
    assert!(matches!(
        load_table(b"accession\tidentifier\tname\nX1\t\xff\tbar\n", TableKind::Pfam),
        Err(PipelineError::MalformedTable)
    ));
}

#[test]
fn empty_file_gives_an_empty_table() {
    let table = load_table(b"", TableKind::Kegg).unwrap();
    assert!(!table.has_columns(TableKind::Kegg));
}

#[test]
fn from_rows_builds_the_same_table() {
    let grid = vec![
        strings(&["accession", "identifier", "name"]),
        strings(&["X1", "foo", "bar"]),
    ];
    let table = AnnotationTable::from_rows(grid, "accession").unwrap();
    assert_eq!(
        table.annotate_line(TableKind::Pfam, "X1,7"),
        Some("X1\t7\tfoo\tbar".to_string())
    );
}

#[test]
fn quoted_fields_are_read_by_the_reader() {
    let data = "accession\tidentifier\tname\nX1\t\"a\tb\"\tbar\n";
    let table = load_table(data.as_bytes(), TableKind::Pfam).unwrap();
    assert_eq!(
        table.annotate_line(TableKind::Pfam, "X1,7"),
        Some("X1\t7\ta\tb\tbar".to_string())
    );
}

#[test]
fn artifacts_are_classified_by_suffix() {
    assert!(matches!(classify_artifact("/out/a.fa.pfam28.counts"), Ok(TableKind::Pfam)));
    assert!(matches!(classify_artifact("/out/a.fa.kegg.counts"), Ok(TableKind::Kegg)));
    match classify_artifact("/out/a.fa.pfam27.counts") {
        Err(PipelineError::UnrecognizedArtifact(name)) => {
            assert_eq!(name, "/out/a.fa.pfam27.counts")
        }
        _ => panic!("expected an unrecognized artifact"),
    }
    assert!(matches!(
        classify_artifact("counts"),
        Err(PipelineError::UnrecognizedArtifact(_))
    ));
}

#[test]
fn names_of_the_reference_files() {
    assert_eq!(key_name(TableKind::Kegg), "kegg_annotation_id");
    assert_eq!(key_name(TableKind::Pfam), "accession");
    assert_eq!(annotation_file_name(TableKind::Kegg), "kegg_annotation.tab");
    assert_eq!(annotation_file_name(TableKind::Pfam), "pfam_annotation.tab");
    assert_eq!(field_names(TableKind::Kegg), strings(&["name", "definition", "pathway", "module"]));
    assert_eq!(field_names(TableKind::Pfam), strings(&["identifier", "name"]));
    assert_eq!(header_line(TableKind::Pfam), "pfam_id\tcount\tidentifier\tname");
    assert_eq!(report_name("/out/a.fa.kegg.counts"), "/out/a.fa.kegg.counts.annotated");
}

#[test]
fn last_match_is_found() {
    let header = strings(&["a", "b", "a"]);
    assert_eq!(find_column(&header, "a"), Some(2));
    assert_eq!(find_column(&header, "b"), Some(1));
    assert_eq!(find_column(&header, "c"), None);
    let rows = vec![strings(&["k", "1"]), strings(&["j", "2"]), strings(&["k", "3"])];
    assert_eq!(find_row(&rows, 0, "k"), Some(2));
    assert_eq!(find_row(&rows, 0, "j"), Some(1));
    assert_eq!(find_row(&rows, 0, "z"), None);
    assert_eq!(find_row(&rows, 5, "k"), None);
}
