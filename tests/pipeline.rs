use security_summary::analysis::analyze;
use security_summary::exposure::{exposure_key, is_finite_bits};
use security_summary::record::{
    decode_entry, ingest, DecodeDiagnostic, DecodeError, ExposureField, RawDocument, RawEntry,
    Service,
};
use security_summary::select::{filter_services, limit_services, rank_services, select};
use security_summary::stats::{happiness_tally, Happiness};

const GRIN: &str = "\u{1F600}";
const SMILE: &str = "\u{1F642}";
const NEUTRAL: &str = "\u{1F610}";
const FROWN: &str = "\u{1F641}";
const FEAR: &str = "\u{1F628}";

fn svc(unit: &str, exposure: f64, predicate: &str, happy: &str) -> Service {
    Service {
        unit: unit.to_string(),
        exposure: exposure.to_bits(),
        predicate: predicate.to_string(),
        happy: happy.to_string(),
    }
}

fn entry(unit: &str, exposure: f64, predicate: &str, happy: &str) -> RawEntry {
    RawEntry {
        unit: Some(unit.to_string()),
        exposure: ExposureField::Number(exposure.to_bits()),
        predicate: Some(predicate.to_string()),
        happy: Some(happy.to_string()),
    }
}

fn units(v: &[Service]) -> Vec<String> {
    v.iter().map(|s| s.unit.clone()).collect()
}

#[test]
fn ranking_is_stable_and_descending() {
    let input = vec![svc("a", 1.0, "OK", GRIN), svc("b", 3.0, "OK", GRIN), svc("c", 3.0, "OK", GRIN)];
    let out = select(input, &None, Some(3));
    assert_eq!(units(&out), vec!["b", "c", "a"]);
}

#[test]
fn ranking_orders_negative_and_zero_exposures() {
    let input = vec![
        svc("neg", -2.0, "OK", GRIN),
        svc("zero", 0.0, "OK", GRIN),
        svc("negzero", -0.0, "OK", GRIN),
        svc("small", 0.5, "OK", GRIN),
        svc("negsmall", -0.25, "OK", GRIN),
    ];
    let out = rank_services(input);
    assert_eq!(units(&out), vec!["small", "zero", "negzero", "negsmall", "neg"]);
}

#[test]
fn ranking_without_limit_keeps_all() {
    let input = vec![svc("x", 2.0, "OK", GRIN), svc("y", 9.0, "OK", GRIN), svc("z", 4.5, "OK", GRIN)];
    let out = select(input, &None, None);
    assert_eq!(units(&out), vec!["y", "z", "x"]);
}

#[test]
fn limit_zero_is_empty() {
    let input = vec![svc("a", 1.0, "OK", GRIN), svc("b", 3.0, "OK", GRIN)];
    assert!(select(input, &None, Some(0)).is_empty());
}

#[test]
fn limit_above_count_keeps_ranked_all() {
    let input = vec![svc("a", 1.0, "OK", GRIN), svc("b", 3.0, "OK", GRIN)];
    let out = select(input, &None, Some(10));
    assert_eq!(units(&out), vec!["b", "a"]);
}

#[test]
fn limit_truncates_in_order() {
    let input = vec![svc("a", 1.0, "OK", GRIN), svc("b", 3.0, "OK", GRIN), svc("c", 2.0, "OK", GRIN)];
    let out = limit_services(input, Some(2));
    assert_eq!(units(&out), vec!["a", "b"]);
}

#[test]
fn filter_is_exact_match() {
    let make = || vec![svc("a", 1.0, "EXPOSED", GRIN), svc("b", 2.0, "OK", GRIN)];
    assert!(filter_services(make(), &Some("EXPOSED2".to_string())).is_empty());
    assert!(filter_services(make(), &Some("exposed".to_string())).is_empty());
    let hit = filter_services(make(), &Some("EXPOSED".to_string()));
    assert_eq!(units(&hit), vec!["a"]);
    let all = filter_services(make(), &None);
    assert_eq!(units(&all), vec!["a", "b"]);
}

#[test]
fn entry_missing_predicate_is_skipped() {
    let mut bad = entry("bad.service", 5.0, "OK", GRIN);
    bad.predicate = None;
    let good = entry("good.service", 1.0, "OK", GRIN);
    let batch = ingest(RawDocument::Entries(vec![bad, good]));
    assert_eq!(units(&batch.services), vec!["good.service"]);
    assert_eq!(
        batch.diagnostics,
        vec![DecodeDiagnostic { index: 0, reason: DecodeError::MissingPredicate }]
    );
}

#[test]
fn string_and_native_exposure_agree() {
    let mut text = entry("t", 0.0, "OK", GRIN);
    text.exposure = ExposureField::Text(Some("2.5".parse::<f64>().unwrap().to_bits()));
    let native = entry("n", 2.5, "OK", GRIN);
    let a = decode_entry(text).ok().unwrap();
    let b = decode_entry(native).ok().unwrap();
    assert_eq!(a.exposure, b.exposure);
    assert_eq!(f64::from_bits(a.exposure), 2.5);
}

#[test]
fn end_to_end_filter_and_limit() {
    let doc = RawDocument::Entries(vec![
        entry("ok.service", 0.1, "OK", GRIN),
        entry("medium.service", 4.0, "MEDIUM", SMILE),
        entry("exposed1.service", 7.2, "EXPOSED", NEUTRAL),
        entry("exposed2.service", 9.9, "EXPOSED", FROWN),
        entry("exposed3.service", 9.9, "EXPOSED", FEAR),
        entry("unsafe.service", 9.9, "UNSAFE", FEAR),
    ]);
    let r = analyze(doc, &Some("EXPOSED".to_string()), Some(1));
    assert_eq!(units(&r.selected), vec!["exposed2.service"]);
    assert_eq!(f64::from_bits(r.selected[0].exposure), 9.9);
    assert_eq!(r.exposures.len(), 6);
    assert!(r.diagnostics.is_empty());
}

#[test]
fn end_to_end_five_entries() {
    let doc = RawDocument::Entries(vec![
        entry("u1", 0.1, "OK", GRIN),
        entry("u2", 4.0, "MEDIUM", GRIN),
        entry("u3", 7.2, "EXPOSED", GRIN),
        entry("u4", 9.9, "EXPOSED", GRIN),
        entry("u5", 9.9, "UNSAFE", GRIN),
    ]);
    let r = analyze(doc, &Some("EXPOSED".to_string()), Some(1));
    assert_eq!(units(&r.selected), vec!["u4"]);
    assert_eq!(f64::from_bits(r.selected[0].exposure), 9.9);
}

#[test]
fn unrecognized_symbol_excluded_from_tally_but_selected() {
    let doc = RawDocument::Entries(vec![
        entry("a", 1.0, "EXPOSED", GRIN),
        entry("b", 8.0, "EXPOSED", ":)"),
        entry("c", 2.0, "OK", FROWN),
    ]);
    let r = analyze(doc, &Some("EXPOSED".to_string()), None);
    assert_eq!(r.happiness.total, 7);
    assert_eq!(r.happiness.count, 2);
    assert_eq!(r.happiness.unmatched, 1);
    assert_eq!(units(&r.selected), vec!["b", "a"]);
}

#[test]
fn empty_batch_has_no_scores() {
    let r = analyze(RawDocument::Entries(vec![]), &None, None);
    assert!(r.exposures.is_empty());
    assert_eq!(r.happiness.count, 0);
    assert_eq!(r.happiness.total, 0);
    assert!(r.selected.is_empty());
}

#[test]
fn non_sequence_document_is_empty() {
    let r = analyze(RawDocument::Other, &None, Some(5));
    assert!(r.exposures.is_empty());
    assert!(r.selected.is_empty());
    assert!(r.diagnostics.is_empty());
}

#[test]
fn happiness_scores() {
    let all = vec![
        svc("a", 1.0, "OK", GRIN),
        svc("b", 1.0, "OK", SMILE),
        svc("c", 1.0, "OK", NEUTRAL),
        svc("d", 1.0, "OK", FROWN),
        svc("e", 1.0, "OK", FEAR),
    ];
    let t = happiness_tally(&all);
    assert_eq!(t.total, 15);
    assert_eq!(t.count, 5);
    assert_eq!(t.unmatched, 0);
    assert_eq!(Happiness::from_symbol(&GRIN.to_string()).score(), Some(5));
    assert_eq!(Happiness::from_symbol(&FEAR.to_string()).score(), Some(1));
    assert_eq!(Happiness::from_symbol(&"x".to_string()), Happiness::Unrecognized);
    assert_eq!(Happiness::from_symbol(&"x".to_string()).score(), None);
}

#[test]
fn decode_error_variants() {
    let mut e = entry("u", 1.0, "OK", GRIN);
    e.unit = None;
    assert_eq!(decode_entry(e).err(), Some(DecodeError::MissingUnit));
    let mut e = entry("u", 1.0, "OK", GRIN);
    e.exposure = ExposureField::Absent;
    assert_eq!(decode_entry(e).err(), Some(DecodeError::MissingExposure));
    let mut e = entry("u", 1.0, "OK", GRIN);
    e.exposure = ExposureField::Text(None);
    assert_eq!(decode_entry(e).err(), Some(DecodeError::MissingExposure));
    let mut e = entry("u", 1.0, "OK", GRIN);
    e.exposure = ExposureField::Text(Some(f64::NAN.to_bits()));
    assert_eq!(decode_entry(e).err(), Some(DecodeError::NonFiniteExposure));
    let e = entry("u", f64::INFINITY, "OK", GRIN);
    assert_eq!(decode_entry(e).err(), Some(DecodeError::NonFiniteExposure));
    let mut e = entry("u", 1.0, "OK", GRIN);
    e.predicate = None;
    assert_eq!(decode_entry(e).err(), Some(DecodeError::MissingPredicate));
    let mut e = entry("u", 1.0, "OK", GRIN);
    e.happy = None;
    assert_eq!(decode_entry(e).err(), Some(DecodeError::MissingHappy));
    let ok = decode_entry(entry("u", 1.0, "OK", "?")).ok().unwrap();
    assert_eq!(ok.unit, "u");
    assert_eq!(ok.happy, "?");
}

#[test]
fn exposure_bits_helpers() {
    assert!(is_finite_bits(2.5f64.to_bits()));
    assert!(is_finite_bits(f64::MAX.to_bits()));
    assert!(!is_finite_bits(f64::NEG_INFINITY.to_bits()));
    assert!(!is_finite_bits(f64::NAN.to_bits()));
    assert_eq!(exposure_key(0.0f64.to_bits()), exposure_key((-0.0f64).to_bits()));
    assert!(exposure_key(1.0f64.to_bits()) > exposure_key(0.5f64.to_bits()));
    assert!(exposure_key((-1.0f64).to_bits()) < exposure_key((-0.5f64).to_bits()));
    assert_eq!(exposure_key(0.0f64.to_bits()), 0x8000_0000_0000_0000);
}
