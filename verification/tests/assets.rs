use next_build::asset_graph::{
    all_assets_from_entries, emission_target, emit_all_assets, AssetGraph, OutputAsset,
};

fn asset(id: u64, path: &str, content: &str, references: Vec<u64>) -> OutputAsset {
    OutputAsset { id, path: path.to_string(), content: content.to_string(), references }
}

#[test]
fn diamond_yields_one_visit_and_one_write() {
    // Two distinct chunks reference the same sub-asset.
    let graph = AssetGraph {
        assets: vec![
            asset(1, ".next/server/a.js", "a", vec![3]),
            asset(2, ".next/server/b.js", "b", vec![3]),
            asset(3, ".next/server/shared.js", "shared", vec![]),
        ],
    };
    let visited = all_assets_from_entries(&graph, &vec![1, 2]);
    assert_eq!(visited.iter().filter(|id| **id == 3).count(), 1);
    assert!(visited.contains(&1) && visited.contains(&2));
    assert_eq!(visited.len(), 3);

    let (emitted, writes) = emit_all_assets(&graph, &vec![1, 2], ".next", ".next/_next", "dist");
    assert_eq!(emitted.iter().filter(|id| **id == 3).count(), 1);
    let shared_writes: Vec<_> =
        writes.iter().filter(|w| w.path == ".next/server/shared.js").collect();
    assert_eq!(shared_writes.len(), 1);
    assert_eq!(shared_writes[0].content, "shared");
}

#[test]
fn cycles_do_not_loop() {
    let graph = AssetGraph {
        assets: vec![
            asset(1, ".next/a.js", "a", vec![2]),
            asset(2, ".next/b.js", "b", vec![1]),
        ],
    };
    let visited = all_assets_from_entries(&graph, &vec![1]);
    assert_eq!(visited.len(), 2);
    assert!(visited.contains(&1) && visited.contains(&2));
}

#[test]
fn emission_policy_first_match_wins() {
    // Under the node root: verbatim.
    assert_eq!(
        emission_target(".next/server/x.js", ".next", ".next/_next", "dist"),
        Some(".next/server/x.js".to_string())
    );
    // Under the client-relative namespace: rebased, prefix stripped.
    assert_eq!(
        emission_target("client/_next/static/c.js", ".next", "client/_next", "dist"),
        Some("dist/static/c.js".to_string())
    );
    // Elsewhere: left alone.
    assert_eq!(emission_target("other/y.js", ".next", "client/_next", "dist"), None);
}

#[test]
fn skipped_assets_produce_no_write() {
    let graph = AssetGraph {
        assets: vec![
            asset(1, ".next/server/a.js", "a", vec![2]),
            asset(2, "virtual/outside.js", "v", vec![]),
        ],
    };
    let (emitted, writes) = emit_all_assets(&graph, &vec![1], ".next", "client/_next", "dist");
    assert_eq!(emitted.len(), 2);
    assert_eq!(writes.len(), 1);
    assert_eq!(writes[0].path, ".next/server/a.js");
}

#[test]
fn client_assets_are_rebased() {
    let graph = AssetGraph {
        assets: vec![asset(1, "client/_next/static/chunks/app.js", "js", vec![])],
    };
    let (_, writes) = emit_all_assets(&graph, &vec![1], ".next", "client/_next", "dist");
    assert_eq!(writes.len(), 1);
    assert_eq!(writes[0].path, "dist/static/chunks/app.js");
    assert_eq!(writes[0].content, "js");
}
