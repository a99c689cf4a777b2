use popolion::coordinator::{tally, EntryOutcome, EntryStep, ExtractionCoordinator};
use popolion::listing::listing;
use popolion::resolve::ExtractionOptions;

fn options(rules: &[&str], dest: Option<&str>, overwrite: bool) -> ExtractionOptions {
    let mut o = ExtractionOptions::new();
    o.exclude_rules = rules.iter().map(|r| r.to_string()).collect();
    o.destination_root = dest.map(|d| d.to_string());
    o.overwrite = overwrite;
    o
}

/// Runs the decisions for each path, with `exists` standing for the disk.
fn run(c: &ExtractionCoordinator, paths: &[&str], exists: bool) -> (Vec<EntryOutcome>, Vec<Vec<String>>) {
    let mut outcomes = Vec::new();
    let mut written = Vec::new();
    for p in paths {
        let o = match c.start(p) {
            EntryStep::Finished(o) => o,
            EntryStep::CheckTarget(t) => match c.after_check(exists) {
                Some(o) => o,
                None => {
                    let mut parts = Vec::new();
                    parts.extend(t.root.clone());
                    parts.extend(t.subdir.clone());
                    parts.extend(t.segments.iter().cloned());
                    written.push(parts);
                    c.after_write(true)
                }
            },
        };
        outcomes.push(o);
    }
    (outcomes, written)
}

#[test]
fn end_to_end_negated_rule_rescues_directory() {
    let c = ExtractionCoordinator::new(options(&["*.txt", "!dir/*"], Some("out"), true), "arc".to_string())
        .ok()
        .unwrap();
    let (outcomes, written) = run(&c, &["a.txt", "dir/b.bin", "dir/c.txt"], false);
    assert_eq!(
        outcomes,
        vec![EntryOutcome::SkippedFiltered, EntryOutcome::Written, EntryOutcome::Written]
    );
    assert_eq!(written, vec![vec!["out", "dir", "b.bin"], vec!["out", "dir", "c.txt"]]);
}

#[test]
fn rerun_without_overwrite_skips_existing() {
    let paths = ["a.txt", "dir/b.bin", "dir/c.txt"];
    let first = ExtractionCoordinator::new(options(&[], Some("out"), true), "arc".to_string()).ok().unwrap();
    let (o1, w1) = run(&first, &paths, false);
    assert_eq!(tally(&o1).written, 3);
    assert_eq!(w1.len(), 3);
    let again = ExtractionCoordinator::new(options(&[], Some("out"), false), "arc".to_string()).ok().unwrap();
    let (o2, w2) = run(&again, &paths, true);
    assert!(o2.iter().all(|o| *o == EntryOutcome::SkippedExisting));
    assert!(w2.is_empty());
    let t = tally(&o2);
    assert_eq!(t.skipped_existing, 3);
    assert_eq!(t.written, 0);
}

#[test]
fn overwrite_by_default_writes_existing_target() {
    let c = ExtractionCoordinator::new(ExtractionOptions::new(), "arc".to_string()).ok().unwrap();
    let (o, w) = run(&c, &["x.bin"], true);
    assert_eq!(o, vec![EntryOutcome::Written]);
    assert_eq!(w, vec![vec!["x.bin"]]);
}

#[test]
fn subdir_per_archive_is_inserted() {
    let mut o = options(&[], Some("out"), true);
    o.per_archive_subdir = true;
    let c = ExtractionCoordinator::new(o, "ui".to_string()).ok().unwrap();
    let (_, w) = run(&c, &["img/a.png"], false);
    assert_eq!(w, vec![vec!["out", "ui", "img", "a.png"]]);
}

#[test]
fn unusable_entry_path_fails_and_failed_write_is_reported() {
    let c = ExtractionCoordinator::new(ExtractionOptions::new(), "arc".to_string()).ok().unwrap();
    assert!(matches!(c.start("dir/"), EntryStep::Finished(EntryOutcome::Failed)));
    assert_eq!(c.after_write(false), EntryOutcome::Failed);
    assert_eq!(c.after_check(false), None);
}

#[test]
fn malformed_rule_stops_before_any_entry() {
    assert!(ExtractionCoordinator::new(options(&["[z"], None, true), "arc".to_string()).is_err());
}

#[test]
fn every_outcome_is_counted_once() {
    let os = vec![
        EntryOutcome::Written,
        EntryOutcome::SkippedFiltered,
        EntryOutcome::SkippedExisting,
        EntryOutcome::Failed,
        EntryOutcome::Written,
    ];
    let t = tally(&os);
    assert_eq!(t.written, 2);
    assert_eq!(t.skipped_filtered, 1);
    assert_eq!(t.skipped_existing, 1);
    assert_eq!(t.failed, 1);
    assert_eq!(t.completed(), os.len());
    assert_eq!(tally(&Vec::new()).completed(), 0);
}

#[test]
fn listing_has_one_line_per_entry_in_order() {
    let paths = vec!["b.txt".to_string(), "a/c.bin".to_string(), "z".to_string()];
    let text = listing(&paths);
    assert_eq!(text, "b.txt\na/c.bin\nz\n");
    assert_eq!(text.lines().collect::<Vec<_>>(), vec!["b.txt", "a/c.bin", "z"]);
    assert_eq!(listing(&Vec::new()), "");
}
