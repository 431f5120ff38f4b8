use happyjlc::checkpoint::{parse_checkpoint_line, CheckpointManager, CompletedAssets};

fn get<'a>(v: &'a [(String, CompletedAssets)], id: &str) -> Option<&'a CompletedAssets> {
    v.iter().find(|(k, _)| k == id).map(|(_, a)| a)
}

#[test]
fn loads_existing_checkpoint_ids() {
    let checkpoint = CheckpointManager::load("/tmp/checkpoint.txt", Some("C1\nC2\ts\n\nC3\tfm\n"));
    let completed = checkpoint.completed_assets();

    assert_eq!(get(&completed, "C1"), Some(&CompletedAssets::all()));
    assert_eq!(
        get(&completed, "C2"),
        Some(&CompletedAssets {
            symbol: true,
            footprint: false,
            model_3d: false,
        })
    );
    assert_eq!(
        get(&completed, "C3"),
        Some(&CompletedAssets {
            symbol: false,
            footprint: true,
            model_3d: true,
        })
    );
}

#[test]
fn record_completed_ids_merges_asset_sets() {
    let mut checkpoint = CheckpointManager::load("/tmp/checkpoint.txt", None);

    checkpoint.record_completed_ids(
        &["C1".to_string(), "C2".to_string()],
        CompletedAssets {
            symbol: true,
            footprint: false,
            model_3d: false,
        },
    );
    let content = checkpoint
        .record_completed_ids(
            &["C2".to_string(), "C3".to_string()],
            CompletedAssets {
                symbol: false,
                footprint: true,
                model_3d: true,
            },
        )
        .unwrap();

    assert_eq!(
        content.lines().collect::<Vec<_>>(),
        vec!["C1\ts", "C2\tsfm", "C3\tfm"]
    );
}

#[test]
fn checkpoint_text_reads_back_as_written() {
    let checkpoint = CheckpointManager::load("/tmp/c.txt", Some("C9\tm\nC1\ts\nC1\tf\n"));
    let text = checkpoint.render();
    let again = CheckpointManager::load("/tmp/c.txt", Some(&text));
    assert_eq!(again.completed_assets(), checkpoint.completed_assets());
    assert_eq!(get(&checkpoint.completed_assets(), "C1").unwrap().encode(), "sf");
}

#[test]
fn asset_sets_encode_and_decode() {
    let a = CompletedAssets { symbol: true, footprint: false, model_3d: true };
    assert_eq!(a.encode(), "sm");
    assert_eq!(CompletedAssets::decode("sm"), Some(a));
    assert_eq!(CompletedAssets::decode("x"), None);
    let mut b = CompletedAssets::none();
    b.union_assign(a);
    assert!(b.covers(a));
    assert!(!a.covers(CompletedAssets::all()));
    let (id, assets) = parse_checkpoint_line("C5");
    assert_eq!(id, "C5");
    assert_eq!(assets, CompletedAssets::all());
    let (id, assets) = parse_checkpoint_line("C6 \ts");
    assert_eq!(id, "C6");
    assert_eq!(assets, CompletedAssets { symbol: true, footprint: false, model_3d: false });
}

#[test]
fn recorded_ids_cover_their_assets_and_read_back() {
    let mut first = CheckpointManager::load("/out/.checkpoint", Some("C1\ts\nC2\tf\n"));
    let symbol = CompletedAssets { symbol: true, footprint: false, model_3d: false };
    let model = CompletedAssets { symbol: false, footprint: false, model_3d: true };
    let text = first
        .record_completed_ids(&["C2".to_string(), "C3".to_string()], model)
        .unwrap();
    let entries = first.completed_assets();
    assert!(get(&entries, "C2").unwrap().covers(model));
    assert!(get(&entries, "C3").unwrap().covers(model));
    assert!(get(&entries, "C1").unwrap().covers(symbol));
    let again = CheckpointManager::load("/out/.checkpoint", Some(&text));
    assert_eq!(again.completed_assets(), entries);
}
