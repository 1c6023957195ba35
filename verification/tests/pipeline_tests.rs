use run_uproc::config::{Config, ReadLength};
use run_uproc::joiner::{classify_artifact, load_table, report_name, TableKind};
use run_uproc::jobs::build_jobs;
use run_uproc::runner::run_in_order;
use run_uproc::splitter::{artifact_name, select_outputs, split_lines, Category};

fn strings(items: &[&str]) -> Vec<String> {
    items.iter().map(|s| s.to_string()).collect()
}

#[test]
fn two_by_two_run_from_matrix_to_reports() {
    let cfg = Config {
        query: strings(&["/in"]),
        othresh: Some(2),
        pthresh: Some(3),
        read_length: ReadLength::ShortReads,
        uproc_db_dir: "/dbs".to_string(),
        uproc_model_dir: "/model".to_string(),
        annotation_dir: "/annot".to_string(),
        out_dir: "/out".to_string(),
        num_concurrent_jobs: Some(2),
        num_halt: Some(0),
    };
    let files = strings(&["/in/a.fa", "/in/b.fa"]);
    let dbs = strings(&["/dbs/kegg", "/dbs/pfam28"]);
    let jobs = build_jobs(&cfg, &files, &dbs, &Vec::new()).unwrap();
    assert_eq!(jobs.len(), 4);

    let outcomes = vec![true; jobs.len()];
    let (attempted, result) = run_in_order(
        &outcomes,
        cfg.concurrent_jobs() as usize,
        cfg.halt_threshold() as usize,
    );
    assert_eq!(attempted, 4);
    assert!(result.is_ok());

    let on_disk: Vec<String> = jobs.iter().map(|j| j.output.clone()).collect();
    let sources = select_outputs(&on_disk);
    assert_eq!(sources.len(), 4);

    let kegg = load_table(
        b"kegg_annotation_id\tname\tdefinition\tpathway\tmodule\nK1\tn\td\tp\tm\n",
        TableKind::Kegg,
    )
    .unwrap();
    let pfam = load_table(b"accession\tidentifier\tname\nPF1\tfoo\tbar\n", TableKind::Pfam).unwrap();

    let mut reports = Vec::new();
    for source in &sources {
        let raw = strings(&["K1,4", "PF1,9", "1,2,3", "seq,1,+,K1,0.9"]);
        let out = split_lines(&raw);
        assert_eq!(out.counts.len(), 2);
        assert_eq!(out.stats.len(), 1);
        assert_eq!(out.preds.len(), 1);
        let counts_name = artifact_name(source, Category::Counts);
        let kind = classify_artifact(&counts_name).unwrap();
        let report = match kind {
            TableKind::Kegg => kegg.annotate(kind, &out.counts),
            TableKind::Pfam => pfam.annotate(kind, &out.counts),
        };
        assert_eq!(report.len(), 2);
        reports.push((report_name(&counts_name), report));
    }
    assert_eq!(reports.len(), 4);
    assert_eq!(reports[0].0, "/out/a.fa.kegg.counts.annotated");
    assert_eq!(reports[0].1[1], "K1\t4\tn\td\tp\tm");
    assert_eq!(reports[1].0, "/out/a.fa.pfam28.counts.annotated");
    assert_eq!(reports[1].1[1], "PF1\t9\tfoo\tbar");

    let after_split: Vec<String> = sources
        .iter()
        .map(|s| artifact_name(s, Category::Counts))
        .collect();
    assert!(select_outputs(&after_split).is_empty());
}
