use m_v_r_esprint1::guardian::GuardianAuditor;
use m_v_r_esprint1::sced_offer_chain::{self, ScedResourceOfferRecord};
use m_v_r_esprint1::sced_chain;
use m_v_r_esprint1::sprint1::ingest_and_canonicalize_csv;

fn mk(ts: &str, repeat: bool, resource: &str, offer: &str, first: &str) -> ScedResourceOfferRecord {
    let mut fields = std::array::from_fn::<_, 48, _>(|_| "0".to_string());
    fields[0] = first.to_string();
    ScedResourceOfferRecord {
        scd_timestamp: ts.to_string(),
        repeat_hour_flag: repeat,
        resource_name: resource.to_string(),
        offer_type: offer.to_string(),
        prices_and_quantities: fields,
    }
}

fn header() -> String {
    let mut cols = vec![
        "scd_timestamp".to_string(),
        "repeat_hour_flag".to_string(),
        "resource_name".to_string(),
        "offer_type".to_string(),
    ];
    for block in 1..=6 {
        for suffix in ["urs", "drs", "rrspf", "rrsuf", "rrsff", "ns", "ecrs"] {
            cols.push(format!("price{block}_{suffix}"));
        }
        cols.push(format!("quantity_mw{block}"));
    }
    cols.join(",")
}

#[test]
fn deterministic_sort_and_chain() {
    let a = mk("2026-11-01T01:30:00", true, "RES1", "OFFNS", "10");
    let b = mk("2026-11-01T01:30:00", false, "RES1", "OFFNS", "20");

    let chain = sced_chain::build_hash_chain(vec![a.clone(), b.clone()]).expect("chain should build");

    assert_eq!(chain.len(), 2);
    assert_eq!(chain[0].repeat_hour_flag, false);
    assert_eq!(chain[1].repeat_hour_flag, true);

    let rerun = sced_chain::build_hash_chain(vec![a, b]).expect("chain should build");
    assert_eq!(chain, rerun);
}

#[test]
fn duplicate_primary_key_is_rejected() {
    let a = mk("2026-01-21T23:55:18", false, "7RNCHSLR_UNIT1", "OFFNS", "1");
    let b = mk("2026-01-21T23:55:18", false, "7RNCHSLR_UNIT1", "OFFNS", "2");
    let err = sced_chain::build_hash_chain(vec![a, b]).expect_err("must reject duplicate key");
    assert!(err.to_string().contains("duplicate primary key"));
}

#[test]
fn canonical_order_is_fixed() {
    let r = mk("2026-01-21T23:55:18", false, "7RNCHSLR_UNIT1", "OFFNS", "186.14");
    let serialized = r.canonical_record_string();
    assert!(serialized.starts_with("2026-01-21T23:55:18|false|7RNCHSLR_UNIT1|186.14|"));
    assert!(serialized.ends_with("|OFFNS"));
}

#[test]
fn dst_fallback_uniqueness_uses_repeat_hour_flag() {
    let a = mk("2026-11-01T01:30:00", false, "RES_A", "OFFNS", "10");
    let b = mk("2026-11-01T01:30:00", true, "RES_A", "OFFNS", "10");
    let chain = sced_offer_chain::build_hash_chain(vec![b, a]).expect("chain should build");
    assert_eq!(chain.len(), 2);
    assert_eq!(chain[0].key.1, false);
    assert_eq!(chain[1].key.1, true);
}

#[test]
fn numeric_blank_and_null_normalize_to_zero() {
    let csv = format!(
        "{}\n2026-01-21T23:55:18,false,RES,OFFNS,,null{}\n",
        header(),
        ",0".repeat(46)
    );
    let parsed = sced_offer_chain::parse_csv(&csv).expect("parse ok");
    assert_eq!(parsed.len(), 1);
    assert_eq!(parsed[0].prices_and_quantities[0], "0");
    assert_eq!(parsed[0].prices_and_quantities[1], "0");
}

#[test]
fn canonical_batch_empty_is_genesis() {
    let csv = format!("{}\n", header());
    let batch = ingest_and_canonicalize_csv(&csv).expect("parse must pass");
    assert_eq!(batch.records_total, 0);
    assert_eq!(batch.final_chain_hash, "0");
}

#[test]
fn guardian_replay_matches_sprint1_hash() {
    let mut row = vec![
        "2026-03-22T18:05:00".to_string(),
        "false".to_string(),
        "7RNCHSLR_UNIT1".to_string(),
        "OFFNS".to_string(),
        "1".to_string(),
    ];
    for i in 1..48 {
        row.push(if i == 7 { "100".to_string() } else { "0".to_string() });
    }
    let csv = format!("{}\n{}\n", header(), row.join(","));

    let batch = ingest_and_canonicalize_csv(&csv).expect("batch must build");
    let guardian = GuardianAuditor;
    let report = guardian.verify_batch(&batch);

    assert_eq!(report.status, "PASS");
    assert_eq!(report.final_chain_hash, batch.final_chain_hash);
}

fn header_cells() -> Vec<String> {
    header().split(',').map(|s| s.to_string()).collect()
}

#[test]
fn csv_row_reads_under_header() {
    let headers = header_cells();
    let mut row: Vec<String> = vec![" 2026-01-21T23:55:18 ".to_string(), "TRUE".to_string(), "RES".to_string(), "OFFNS".to_string()];
    for i in 0..48 {
        row.push(if i == 0 { " 1.5 ".to_string() } else { String::new() });
    }
    let rec = ScedResourceOfferRecord::from_csv_row(&headers, &row).unwrap();
    assert_eq!(rec.scd_timestamp, "2026-01-21T23:55:18");
    assert!(rec.repeat_hour_flag);
    assert_eq!(rec.prices_and_quantities[0], "1.5");
    assert_eq!(rec.prices_and_quantities[1], "0");
}

#[test]
fn csv_row_errors_name_the_column() {
    let headers = header_cells();
    let mut row: Vec<String> = vec!["t".to_string(), "maybe".to_string(), "R".to_string(), "O".to_string()];
    for _ in 0..48 {
        row.push("0".to_string());
    }
    let err = ScedResourceOfferRecord::from_csv_row(&headers, &row).unwrap_err();
    assert_eq!(err.message, "invalid boolean 'maybe'; expected true/false or 1/0");
    row[1] = "1".to_string();
    row[5] = "abc".to_string();
    let err = ScedResourceOfferRecord::from_csv_row(&headers, &row).unwrap_err();
    assert_eq!(err.message, "column 'price1_drs' expects numeric value, got 'abc'");
    let short: Vec<String> = vec!["t".to_string()];
    let err = ScedResourceOfferRecord::from_csv_row(&headers, &short).unwrap_err();
    assert_eq!(err.message, "missing value for column 'repeat_hour_flag'");
    let err = ScedResourceOfferRecord::from_csv_row(&vec!["x".to_string()], &short).unwrap_err();
    assert_eq!(err.message, "missing required column 'scd_timestamp'");
}

fn offer_row(ts: &str, flag: &str, resource: &str, first: &str) -> String {
    let mut cells = vec![ts.to_string(), flag.to_string(), resource.to_string(), "OFFNS".to_string()];
    cells.push(first.to_string());
    for _ in 1..48 {
        cells.push("0".to_string());
    }
    cells.join(",")
}

#[test]
fn csv_text_gives_records_in_row_order() {
    let text = format!(
        "{}\n{}\n{}\n",
        header(),
        offer_row("2026-01-02", "false", "B", "1.5"),
        offer_row("2026-01-01", "true", "A", "2")
    );
    let records = sced_chain::records_from_csv_text(text.as_bytes()).unwrap();
    assert_eq!(records.len(), 2);
    assert_eq!(records[0].resource_name, "B");
    assert_eq!(records[0].prices_and_quantities[0], "1.5");
    assert!(records[1].repeat_hour_flag);
}

#[test]
fn csv_text_reports_the_first_failing_row() {
    let text = format!(
        "{}\n{}\n{}\n",
        header(),
        offer_row("2026-01-02", "false", "B", "1"),
        offer_row("2026-01-01", "maybe", "A", "2")
    );
    match sced_chain::records_from_csv_text(text.as_bytes()) {
        Err(sced_chain::CsvRecordsError::Parse(n, _)) => assert_eq!(n, 3),
        other => panic!("unexpected {:?}", other.map(|r| r.len())),
    }
    let ragged = format!("{}\na,b\n", header());
    match sced_chain::records_from_csv_text(ragged.as_bytes()) {
        Err(sced_chain::CsvRecordsError::Row(n, _)) => assert_eq!(n, 2),
        other => panic!("unexpected {:?}", other.map(|r| r.len())),
    }
}
