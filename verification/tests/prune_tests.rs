use audiosync::listmap::ListMap;
use audiosync::plan::scan_map;
use audiosync::prune::prune_plan;

#[test]
fn orphans_are_exactly_the_files_without_a_source() {
    let dest = scan_map(vec![
        ("A/song.opus".to_string(), 100),
        ("B/gone.opus".to_string(), 100),
    ]);
    let roots = vec![scan_map(vec![("A/song.flac".to_string(), 50)])];
    let plan = prune_plan(&dest, &roots);
    assert_eq!(plan, vec!["B/gone.opus".to_string()]);
}

#[test]
fn any_root_holding_the_source_keeps_the_file() {
    let dest = scan_map(vec![
        ("A/one.m4a".to_string(), 1),
        ("B/two.m4a".to_string(), 1),
        ("C/three.m4a".to_string(), 1),
    ]);
    let roots = vec![
        scan_map(vec![("A/one.flac".to_string(), 1)]),
        scan_map(vec![("B/two.flac".to_string(), 1)]),
    ];
    let plan = prune_plan(&dest, &roots);
    assert_eq!(plan, vec!["C/three.m4a".to_string()]);
}

#[test]
fn a_mirrored_tree_prunes_nothing() {
    let dest = scan_map(vec![
        ("A/one.opus".to_string(), 1),
        ("B/two.opus".to_string(), 1),
    ]);
    let roots = vec![scan_map(vec![
        ("A/one.flac".to_string(), 1),
        ("B/two.flac".to_string(), 1),
    ])];
    assert!(prune_plan(&dest, &roots).is_empty());
}

#[test]
fn with_no_roots_everything_is_orphaned() {
    let dest = scan_map(vec![("A/x.mp3".to_string(), 1)]);
    let roots: Vec<ListMap<u64>> = Vec::new();
    assert_eq!(prune_plan(&dest, &roots), vec!["A/x.mp3".to_string()]);
}

#[test]
fn planning_does_not_change_its_inputs() {
    let dest = scan_map(vec![("A/x.mp3".to_string(), 1)]);
    let roots: Vec<ListMap<u64>> = Vec::new();
    let first = prune_plan(&dest, &roots);
    let second = prune_plan(&dest, &roots);
    assert_eq!(first, second);
    assert_eq!(dest.len(), 1);
}
