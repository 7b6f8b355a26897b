use nix_mirror::{parse_narinfo, Scheduler};

#[test]
fn roots_are_deduplicated() {
    let roots = vec!["aaaa".to_string(), "bbbb".to_string(), "aaaa".to_string()];
    let s = Scheduler::new(&roots);
    assert_eq!(s.seen_count(), 2);
    assert!(s.was_seen("aaaa"));
    assert!(s.was_seen("bbbb"));
    assert!(!s.was_seen("cccc"));
}

#[test]
fn no_roots_means_nothing_to_do() {
    let s = Scheduler::new(&Vec::new());
    assert!(s.done());
    assert_eq!(s.seen_count(), 0);
}

#[test]
fn an_identifier_is_dispatched_at_most_once() {
    let roots = vec!["aaaa".to_string()];
    let mut s = Scheduler::new(&roots);
    let wave1 = s.take_wave();
    assert_eq!(wave1, vec!["aaaa".to_string()]);
    // the resolution of aaaa references bbbb and aaaa itself
    s.record_references(&vec!["bbbb".to_string(), "aaaa".to_string()]);
    let wave2 = s.take_wave();
    assert_eq!(wave2, vec!["bbbb".to_string()]);
    // bbbb references aaaa again: nothing new, the run is over
    s.record_references(&vec!["aaaa".to_string()]);
    assert!(s.done());
}

#[test]
fn recording_seen_identifiers_changes_nothing() {
    let mut s = Scheduler::new(&vec!["aaaa".to_string()]);
    s.record_references(&vec!["aaaa".to_string()]);
    assert_eq!(s.seen_count(), 1);
    let wave = s.take_wave();
    assert_eq!(wave.len(), 1);
    assert!(s.done());
}

#[test]
fn two_wave_traversal_visits_both_packages() {
    // A's metadata references B; B's references nothing further.
    let meta_a = "URL: nar/a.nar.xz\nReferences: bbbb-dep\nFileHash: sha256:aaaadigest\n";
    let meta_b = "URL: nar/b.nar.xz\nFileHash: sha256:bbbbdigest\n";

    let mut s = Scheduler::new(&vec!["aaaa".to_string()]);
    let mut waves: usize = 0;
    while !s.done() {
        let wave = s.take_wave();
        waves += 1;
        for id in wave {
            let text = match id.as_str() {
                "aaaa" => meta_a,
                "bbbb" => meta_b,
                _ => panic!("unexpected identifier {}", id),
            };
            let doc = parse_narinfo(text).unwrap();
            s.record_references(&doc.references);
        }
    }
    assert_eq!(waves, 2);
    assert_eq!(s.seen_count(), 2);
    assert!(s.was_seen("aaaa"));
    assert!(s.was_seen("bbbb"));
}

#[test]
fn second_run_with_everything_present_plans_no_fetches() {
    // the same traversal as above, but every file already exists locally:
    // no metadata fetch and no content fetch may be planned
    let meta_a = "URL: nar/a.nar.xz\nReferences: bbbb-dep\nFileHash: sha256:aaaadigest\n";
    let meta_b = "URL: nar/b.nar.xz\nFileHash: sha256:bbbbdigest\n";

    let mut s = Scheduler::new(&vec!["aaaa".to_string()]);
    let mut planned_fetches: usize = 0;
    while !s.done() {
        for id in s.take_wave() {
            if nix_mirror::plan_metadata_fetch(true, "https://cache.example", &id).is_some() {
                planned_fetches += 1;
            }
            let text = match id.as_str() {
                "aaaa" => meta_a,
                "bbbb" => meta_b,
                _ => panic!("unexpected identifier {}", id),
            };
            let doc = nix_mirror::parse_narinfo(text).unwrap();
            if nix_mirror::plan_content_fetch(true, "https://cache.example", &doc).is_some() {
                planned_fetches += 1;
            }
            s.record_references(&doc.references);
        }
    }
    assert_eq!(planned_fetches, 0);
}
