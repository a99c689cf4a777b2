use popolion::filter::{match_glob, parse_rule, EntryFilter, FilterError};

fn rules(texts: &[&str]) -> Vec<String> {
    texts.iter().map(|t| t.to_string()).collect()
}

#[test]
fn positive_pattern_excludes_matching_path() {
    let f = EntryFilter::new(&rules(&["*.txt"])).ok().unwrap();
    assert!(!f.is_included("a.txt"));
    assert!(f.is_included("a.bin"));
}

#[test]
fn negated_rule_after_positive_rescues() {
    let f = EntryFilter::new(&rules(&["*.dat", "!keep/*"])).ok().unwrap();
    assert!(f.is_included("keep/x.dat"));
    assert!(!f.is_included("y.dat"));
}

#[test]
fn negated_rule_before_positive_short_circuits() {
    let f = EntryFilter::new(&rules(&["!keep/*", "*.dat"])).ok().unwrap();
    assert!(f.is_included("keep/x.dat"));
    assert!(!f.is_included("y.dat"));
}

#[test]
fn no_rules_include_everything() {
    let f = EntryFilter::new(&Vec::new()).ok().unwrap();
    assert!(f.is_included("anything/at/all.bin"));
}

#[test]
fn unmatched_negated_rule_does_not_exclude() {
    let f = EntryFilter::new(&rules(&["!keep/*"])).ok().unwrap();
    assert!(f.is_included("other/file.bin"));
}

#[test]
fn star_stays_within_one_component() {
    let f = EntryFilter::new(&rules(&["*.txt"])).ok().unwrap();
    assert!(f.is_included("dir/c.txt"));
    assert!(!f.is_included("c.txt"));
    let g = EntryFilter::new(&rules(&["**/*.txt"])).ok().unwrap();
    assert!(!g.is_included("dir/c.txt"));
}

#[test]
fn first_matching_rule_decides() {
    let f = EntryFilter::new(&rules(&["**/*.dat", "!keep/*"])).ok().unwrap();
    assert!(!f.is_included("keep/x.dat"));
    let g = EntryFilter::new(&rules(&["!keep/*", "**/*.dat"])).ok().unwrap();
    assert!(g.is_included("keep/x.dat"));
    assert!(!g.is_included("other/x.dat"));
}

#[test]
fn double_star_matches_any_depth() {
    let f = EntryFilter::new(&rules(&["data/**/*.xml"])).ok().unwrap();
    assert!(!f.is_included("data/a/b/c.xml"));
    assert!(f.is_included("other/a/b/c.xml"));
}

#[test]
fn malformed_pattern_is_refused_naming_first_bad_rule() {
    let r = EntryFilter::new(&rules(&["*.txt", "a[", "{x"]));
    match r {
        Err(FilterError::InvalidPattern(p)) => assert_eq!(p, "a["),
        Ok(_) => panic!("malformed pattern accepted"),
    }
}

#[test]
fn malformed_negated_pattern_is_refused() {
    let r = EntryFilter::new(&rules(&["!{a,b"]));
    match r {
        Err(FilterError::InvalidPattern(p)) => assert_eq!(p, "!{a,b"),
        Ok(_) => panic!("malformed pattern accepted"),
    }
}

#[test]
fn rule_with_bang_is_negated() {
    let r = parse_rule("!keep/*");
    assert!(r.negated);
    assert_eq!(r.pattern, "keep/*");
    let p = parse_rule("*.dat");
    assert!(!p.negated);
    assert_eq!(p.pattern, "*.dat");
}

#[test]
fn match_glob_reports_match_and_error() {
    assert!(matches!(match_glob("*.txt", "a.txt"), Ok(true)));
    assert!(matches!(match_glob("*.txt", "a.bin"), Ok(false)));
    assert!(matches!(match_glob("*.txt", "dir/a.txt"), Ok(false)));
    assert!(matches!(match_glob("dir/*", "dir/a.txt"), Ok(true)));
    assert!(matches!(match_glob("?.bin", "a.bin"), Ok(true)));
    assert!(matches!(match_glob("[ab].bin", "c.bin"), Ok(false)));
    assert!(matches!(match_glob("a[", "a"), Err(FilterError::InvalidPattern(_))));
}
