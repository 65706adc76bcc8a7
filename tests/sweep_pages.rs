use hubber_xml::{SeenIds, SweepError, SweepState};

#[test]
fn sweep_marks_only_entries_missing_from_feed() {
    let mut seen = SeenIds::new();
    seen.insert("A".to_string());
    seen.insert("B".to_string());
    // The store pages available entries only, so D (not available) never shows.
    let pages = vec![
        vec![(1, Some("A".to_string())), (2, Some("B".to_string()))],
        vec![(3, Some("C".to_string()))],
        vec![],
    ];
    let mut state = SweepState::new();
    let mut marked = Vec::new();
    for page in &pages {
        let keys = state.sweep_page(page, &seen).unwrap();
        marked.extend(keys);
    }
    assert_eq!(marked, vec!["C".to_string()]);
    assert_eq!(state.marked, 1);
    assert_eq!(state.cursor, 3);
    assert!(state.done);
}

#[test]
fn sweep_skips_entries_without_key() {
    let seen = SeenIds::new();
    let mut state = SweepState::new();
    let keys = state.sweep_page(&vec![(5, None), (6, Some("Q".to_string()))], &seen).unwrap();
    assert_eq!(keys, vec!["Q".to_string()]);
    assert_eq!(state.cursor, 6);
    assert!(!state.done);
}

#[test]
fn sweep_refuses_page_that_does_not_advance() {
    let seen = SeenIds::new();
    let mut state = SweepState::new();
    state.sweep_page(&vec![(10, Some("A".to_string()))], &seen).unwrap();
    let before = state;
    assert_eq!(
        state.sweep_page(&vec![(10, Some("B".to_string()))], &seen),
        Err(SweepError::PageOutOfOrder)
    );
    assert_eq!(state, before);
    assert_eq!(
        state.sweep_page(&vec![(12, None), (11, None)], &seen),
        Err(SweepError::PageOutOfOrder)
    );
}

#[test]
fn seen_ids_remember_keys() {
    let mut seen = SeenIds::new();
    assert!(!seen.contains(&"A".to_string()));
    seen.insert("A".to_string());
    assert!(seen.contains(&"A".to_string()));
    assert!(!seen.contains(&"B".to_string()));
}

