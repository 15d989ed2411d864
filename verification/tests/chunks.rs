use next_build::client_reference::{
    compute_app_client_references_chunks, dedup_client_reference_types, ChunkingContext,
    ClientReferenceType,
};

fn client_context() -> ChunkingContext {
    ChunkingContext { groups: vec![(10, vec![100, 101]), (20, vec![200])] }
}

fn ssr_context() -> ChunkingContext {
    ChunkingContext { groups: vec![(11, vec![110])] }
}

#[test]
fn scenario_reference_chunk_shapes() {
    // An Ecmascript reference is chunked for both environments; a CSS
    // reference only for the client, its SSR side empty by definition.
    let tys = vec![
        ClientReferenceType::EcmascriptClientReference { client_module: 10, ssr_module: 11 },
        ClientReferenceType::CssClientReference { client_module: 20 },
    ];
    let mut all_chunks: Vec<u64> = Vec::new();
    let chunks = compute_app_client_references_chunks(
        &tys,
        &client_context(),
        &ssr_context(),
        &mut all_chunks,
    );
    assert_eq!(chunks.len(), 2);
    assert_eq!(chunks[0].0, tys[0]);
    assert!(!chunks[0].1.client_chunks.is_empty());
    assert!(!chunks[0].1.ssr_chunks.is_empty());
    assert_eq!(chunks[0].1.client_chunks, vec![100, 101]);
    assert_eq!(chunks[0].1.ssr_chunks, vec![110]);
    assert_eq!(chunks[1].0, tys[1]);
    assert!(!chunks[1].1.client_chunks.is_empty());
    assert!(chunks[1].1.ssr_chunks.is_empty());
    assert_eq!(chunks[1].1.client_chunks, vec![200]);
}

#[test]
fn all_chunks_folded_in_enumeration_order() {
    let tys = vec![
        ClientReferenceType::EcmascriptClientReference { client_module: 10, ssr_module: 11 },
        ClientReferenceType::CssClientReference { client_module: 20 },
    ];
    let mut all_chunks: Vec<u64> = vec![7];
    compute_app_client_references_chunks(&tys, &client_context(), &ssr_context(), &mut all_chunks);
    // Existing content kept; then per reference: client chunks, then SSR.
    assert_eq!(all_chunks, vec![7, 100, 101, 110, 200]);
}

#[test]
fn references_dedup_by_identity() {
    // The same client reference reached from two server components
    // collapses to one reference.
    let ecma = ClientReferenceType::EcmascriptClientReference { client_module: 10, ssr_module: 11 };
    let css = ClientReferenceType::CssClientReference { client_module: 20 };
    let refs = vec![ecma, css, ecma, ecma, css];
    let deduped = dedup_client_reference_types(&refs);
    assert_eq!(deduped, vec![ecma, css]);
}

#[test]
fn chunk_group_expands_roots() {
    let ctx = client_context();
    assert_eq!(ctx.chunk_group(10), vec![100, 101]);
    assert_eq!(ctx.chunk_group(20), vec![200]);
    assert!(ctx.has_group(10));
    assert!(!ctx.has_group(99));
}
