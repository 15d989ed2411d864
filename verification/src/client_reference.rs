//! Client/server reference resolution and chunk computation. Every module a
//! server-rendered component imports for client execution is bundled once
//! for the browser and — if it is executable module code, not a stylesheet —
//! once more for server-side rendering, however many server entries import
//! it. The bundler itself is an external capability; what it produced for
//! each module enters here as a chunk-group table.

use vstd::prelude::*;

verus! {

/// A module boundary crossing from server-rendered code into code that must
/// also run in the browser. Modules are identified by the substrate's ids;
/// identity-deduplicated across the whole set of server entries.
#[derive(Clone, Copy, Debug, PartialEq, Eq, Hash, Structural)]
pub enum ClientReferenceType {
    EcmascriptClientReference { client_module: u64, ssr_module: u64 },
    CssClientReference { client_module: u64 },
}

/// The chunks one client reference needs to load: one ordered list of output
/// assets per execution environment. `ssr_chunks` is empty for CSS
/// references by definition.
#[derive(Debug, Clone, PartialEq, Eq)]
pub struct ClientReferenceChunks {
    /// Chunks to be loaded on the client.
    pub client_chunks: Vec<u64>,
    /// Chunks to be loaded on the server for SSR.
    pub ssr_chunks: Vec<u64>,
}

/// The external chunking capability for one target environment, settled into
/// data: for each entry module, the full chunk group the bundler expanded
/// its root chunk into.
#[derive(Debug, Clone)]
pub struct ChunkingContext {
    pub groups: Vec<(u64, Vec<u64>)>,
}

impl ChunkingContext {
    pub open spec fn spec_has_group(&self, m: u64) -> bool {
        exists|i: int| 0 <= i < self.groups@.len() && self.groups@[i].0 == m
    }

    /// The chunk group of the first table row for `m`.
    pub open spec fn spec_group(&self, m: u64) -> Seq<u64> {
        spec_group_of(self.groups@, m)
    }

    /// A well-formed chunking capability yields at least the root chunk for
    /// every module it chunked.
    pub open spec fn wf(&self) -> bool {
        forall|i: int| 0 <= i < self.groups@.len() ==> (#[trigger] self.groups@[i]).1@.len() > 0
    }

    pub fn has_group(&self, m: u64) -> (r: bool)
        ensures
            r == self.spec_has_group(m),
    {
        let mut i: usize = 0;
        while i < self.groups.len()
            invariant
                i <= self.groups@.len(),
                forall|j: int| 0 <= j < i ==> (#[trigger] self.groups@[j]).0 != m,
            decreases self.groups@.len() - i,
        {
            if self.groups[i].0 == m {
                return true;
            }
            i += 1;
        }
        false
    }

    /// Expands `m` into its full chunk group.
    pub fn chunk_group(&self, m: u64) -> (r: Vec<u64>)
        requires
            self.spec_has_group(m),
        ensures
            r@ == self.spec_group(m),
    {
        proof {
            assert(self.groups@.subrange(0, self.groups@.len() as int) =~= self.groups@);
        }
        let mut i: usize = 0;
        while i < self.groups.len()
            invariant
                i <= self.groups@.len(),
                self.spec_has_group(m),
                forall|j: int| 0 <= j < i ==> (#[trigger] self.groups@[j]).0 != m,
                spec_group_of(self.groups@.subrange(i as int, self.groups@.len() as int), m)
                    == self.spec_group(m),
            decreases self.groups@.len() - i,
        {
            proof {
                let sub = self.groups@.subrange(i as int, self.groups@.len() as int);
                assert(sub[0] == self.groups@[i as int]);
                assert(sub.subrange(1, sub.len() as int) =~= self.groups@.subrange(
                    i + 1,
                    self.groups@.len() as int,
                ));
            }
            if self.groups[i].0 == m {
                return clone_ids(&self.groups[i].1);
            }
            i += 1;
        }
        proof {
            let j = choose|j: int| 0 <= j < self.groups@.len() && self.groups@[j].0 == m;
            assert(self.groups@[j].0 == m);
            assert(false);
        }
        vstd::pervasive::unreached()
    }
}

/// First-match lookup in a chunk-group table.
pub open spec fn spec_group_of(groups: Seq<(u64, Vec<u64>)>, m: u64) -> Seq<u64>
    decreases groups.len(),
{
    if groups.len() == 0 {
        Seq::<u64>::empty()
    } else if groups[0].0 == m {
        groups[0].1@
    } else {
        spec_group_of(groups.subrange(1, groups.len() as int), m)
    }
}

/// A present module's group is one of the table's rows.
pub proof fn lemma_group_of_present(groups: Seq<(u64, Vec<u64>)>, m: u64)
    requires
        exists|i: int| 0 <= i < groups.len() && groups[i].0 == m,
    ensures
        exists|i: int|
            0 <= i < groups.len() && groups[i].0 == m && spec_group_of(groups, m) == groups[i].1@,
    decreases groups.len(),
{
    if groups[0].0 == m {
    } else {
        let t = groups.subrange(1, groups.len() as int);
        assert(exists|i: int| 0 <= i < t.len() && t[i].0 == m) by {
            let i = choose|i: int| 0 <= i < groups.len() && groups[i].0 == m;
            assert(t[i - 1] == groups[i]);
        }
        lemma_group_of_present(t, m);
        let i = choose|i: int| 0 <= i < t.len() && t[i].0 == m && spec_group_of(t, m) == t[i].1@;
        assert(groups[i + 1] == t[i]);
    }
}

pub fn clone_ids(v: &Vec<u64>) -> (r: Vec<u64>)
    ensures
        r@ == v@,
{
    let r = v.clone();
    proof {
        assert(r@ =~= v@);
    }
    r
}

/// The chunk lists one reference needs: an Ecmascript reference is chunked
/// for the client and for SSR; a CSS reference only for the client, the SSR
/// side empty by definition.
pub open spec fn spec_reference_chunks(
    ty: ClientReferenceType,
    client: ChunkingContext,
    ssr: ChunkingContext,
) -> (Seq<u64>, Seq<u64>) {
    match ty {
        ClientReferenceType::EcmascriptClientReference { client_module, ssr_module } => (
            client.spec_group(client_module),
            ssr.spec_group(ssr_module),
        ),
        ClientReferenceType::CssClientReference { client_module } => (
            client.spec_group(client_module),
            Seq::<u64>::empty(),
        ),
    }
}

/// What one reference folds into the global emission set: its client chunks,
/// then — for executable module code — its SSR chunks.
pub open spec fn spec_reference_fold(
    ty: ClientReferenceType,
    client: ChunkingContext,
    ssr: ChunkingContext,
) -> Seq<u64> {
    let chunks = spec_reference_chunks(ty, client, ssr);
    chunks.0 + chunks.1
}

/// Everything a reference sequence folds into the emission set, in
/// enumeration order.
pub open spec fn spec_all_reference_chunks(
    tys: Seq<ClientReferenceType>,
    client: ChunkingContext,
    ssr: ChunkingContext,
) -> Seq<u64>
    decreases tys.len(),
{
    if tys.len() == 0 {
        Seq::<u64>::empty()
    } else {
        spec_reference_fold(tys[0], client, ssr) + spec_all_reference_chunks(
            tys.subrange(1, tys.len() as int),
            client,
            ssr,
        )
    }
}

/// The chunking tables cover every module the references name.
pub open spec fn spec_covered(
    tys: Seq<ClientReferenceType>,
    client: ChunkingContext,
    ssr: ChunkingContext,
) -> bool {
    forall|i: int|
        0 <= i < tys.len() ==> match #[trigger] tys[i] {
            ClientReferenceType::EcmascriptClientReference { client_module, ssr_module } => {
                client.spec_has_group(client_module) && ssr.spec_has_group(ssr_module)
            },
            ClientReferenceType::CssClientReference { client_module } => client.spec_has_group(
                client_module,
            ),
        }
}

pub proof fn lemma_all_reference_chunks_push(
    tys: Seq<ClientReferenceType>,
    x: ClientReferenceType,
    client: ChunkingContext,
    ssr: ChunkingContext,
)
    ensures
        spec_all_reference_chunks(tys.push(x), client, ssr) == spec_all_reference_chunks(
            tys,
            client,
            ssr,
        ) + spec_reference_fold(x, client, ssr),
    decreases tys.len(),
{
    let p = tys.push(x);
    if tys.len() == 0 {
        assert(p[0] == x);
        assert(p.subrange(1, p.len() as int) =~= Seq::<ClientReferenceType>::empty());
        assert(spec_all_reference_chunks(Seq::<ClientReferenceType>::empty(), client, ssr)
            == Seq::<u64>::empty());
        assert(spec_all_reference_chunks(p, client, ssr) =~= spec_reference_fold(x, client, ssr));
        assert(spec_all_reference_chunks(tys, client, ssr) + spec_reference_fold(x, client, ssr)
            =~= spec_reference_fold(x, client, ssr));
    } else {
        assert(p[0] == tys[0]);
        assert(p.subrange(1, p.len() as int) =~= tys.subrange(1, tys.len() as int).push(x));
        lemma_all_reference_chunks_push(tys.subrange(1, tys.len() as int), x, client, ssr);
        assert(spec_reference_fold(tys[0], client, ssr) + (spec_all_reference_chunks(
            tys.subrange(1, tys.len() as int),
            client,
            ssr,
        ) + spec_reference_fold(x, client, ssr)) =~= (spec_reference_fold(tys[0], client, ssr)
            + spec_all_reference_chunks(tys.subrange(1, tys.len() as int), client, ssr))
            + spec_reference_fold(x, client, ssr));
    }
}

/// Deduplicates client references by identity, keeping the first occurrence
/// of each: two server components importing the same client module produce
/// one reference, not two.
pub fn dedup_client_reference_types(refs: &Vec<ClientReferenceType>) -> (r: Vec<
    ClientReferenceType,
>)
    ensures
        r@.no_duplicates(),
        forall|i: int| 0 <= i < r@.len() ==> refs@.contains(#[trigger] r@[i]),
        forall|i: int| 0 <= i < refs@.len() ==> r@.contains(#[trigger] refs@[i]),
{
    let mut out: Vec<ClientReferenceType> = Vec::new();
    let mut i: usize = 0;
    while i < refs.len()
        invariant
            i <= refs@.len(),
            out@.no_duplicates(),
            forall|j: int| 0 <= j < out@.len() ==> refs@.contains(#[trigger] out@[j]),
            forall|j: int| 0 <= j < i ==> out@.contains(#[trigger] refs@[j]),
        decreases refs@.len() - i,
    {
        let x = refs[i];
        let mut seen = false;
        let mut j: usize = 0;
        while j < out.len()
            invariant
                j <= out@.len(),
                seen == exists|l: int| 0 <= l < j && out@[l] == x,
            decreases out@.len() - j,
        {
            if out[j] == x {
                seen = true;
            }
            j += 1;
        }
        let ghost out_pre = out@;
        if !seen {
            out.push(x);
        }
        proof {
            if !seen {
                assert(out@ == out_pre.push(x));
                assert forall|a: int, b: int| 0 <= a < b < out@.len() implies out@[a] != out@[b] by {
                    if b == out@.len() - 1 {
                        assert(out@[a] == out_pre[a]);
                    }
                }
                assert(out@[out@.len() - 1] == x);
            }
            assert forall|j: int| 0 <= j < i + 1 implies out@.contains(#[trigger] refs@[j]) by {
                if j < i {
                    let l = choose|l: int| 0 <= l < out_pre.len() && out_pre[l] == refs@[j];
                    assert(out@[l] == refs@[j]);
                } else {
                    if seen {
                        let l = choose|l: int| 0 <= l < out_pre.len() && out_pre[l] == x;
                        assert(out@[l] == x);
                    } else {
                        assert(out@[out@.len() - 1] == x);
                    }
                }
            }
        }
        i += 1;
    }
    out
}

/// Computes every client reference's chunks, and folds each chunk — client
/// and SSR alike — into the global emission set `all_chunks`, in enumeration
/// order over the references. Returns the mapping from reference to its
/// chunks.
pub fn compute_app_client_references_chunks(
    app_client_reference_types: &Vec<ClientReferenceType>,
    client_chunking_context: &ChunkingContext,
    ssr_chunking_context: &ChunkingContext,
    all_chunks: &mut Vec<u64>,
) -> (r: Vec<(ClientReferenceType, ClientReferenceChunks)>)
    requires
        spec_covered(app_client_reference_types@, *client_chunking_context, *ssr_chunking_context),
    ensures
        r@.len() == app_client_reference_types@.len(),
        forall|i: int|
            0 <= i < r@.len() ==> (#[trigger] r@[i]).0 == app_client_reference_types@[i],
        forall|i: int|
            0 <= i < r@.len() ==> ((#[trigger] r@[i]).1.client_chunks@, r@[i].1.ssr_chunks@)
                == spec_reference_chunks(
                app_client_reference_types@[i],
                *client_chunking_context,
                *ssr_chunking_context,
            ),
        final(all_chunks)@ == old(all_chunks)@ + spec_all_reference_chunks(
            app_client_reference_types@,
            *client_chunking_context,
            *ssr_chunking_context,
        ),
{
    let tys = app_client_reference_types;
    let mut r: Vec<(ClientReferenceType, ClientReferenceChunks)> = Vec::new();
    let mut i: usize = 0;
    proof {
        assert(tys@.subrange(0, 0) =~= Seq::<ClientReferenceType>::empty());
        assert(old(all_chunks)@ + Seq::<u64>::empty() =~= old(all_chunks)@);
    }
    while i < tys.len()
        invariant
            i <= tys@.len(),
            spec_covered(tys@, *client_chunking_context, *ssr_chunking_context),
            r@.len() == i,
            forall|j: int| 0 <= j < i ==> (#[trigger] r@[j]).0 == tys@[j],
            forall|j: int|
                0 <= j < i ==> ((#[trigger] r@[j]).1.client_chunks@, r@[j].1.ssr_chunks@)
                    == spec_reference_chunks(
                    tys@[j],
                    *client_chunking_context,
                    *ssr_chunking_context,
                ),
            all_chunks@ == old(all_chunks)@ + spec_all_reference_chunks(
                tys@.subrange(0, i as int),
                *client_chunking_context,
                *ssr_chunking_context,
            ),
        decreases tys@.len() - i,
    {
        let ty = tys[i];
        let chunks = match ty {
            ClientReferenceType::EcmascriptClientReference { client_module, ssr_module } => {
                let client_chunks = client_chunking_context.chunk_group(client_module);
                let ssr_chunks = ssr_chunking_context.chunk_group(ssr_module);
                ClientReferenceChunks { client_chunks, ssr_chunks }
            },
            ClientReferenceType::CssClientReference { client_module } => {
                let client_chunks = client_chunking_context.chunk_group(client_module);
                ClientReferenceChunks { client_chunks, ssr_chunks: Vec::new() }
            },
        };
        // Fold this reference's chunks into the global emission set: client
        // chunks, then SSR chunks.
        let mut c: usize = 0;
        let ghost chunks_pre = all_chunks@;
        while c < chunks.client_chunks.len()
            invariant
                c <= chunks.client_chunks@.len(),
                all_chunks@ == chunks_pre + chunks.client_chunks@.subrange(0, c as int),
            decreases chunks.client_chunks@.len() - c,
        {
            all_chunks.push(chunks.client_chunks[c]);
            proof {
                assert(chunks.client_chunks@.subrange(0, c + 1) =~= chunks.client_chunks@.subrange(
                    0,
                    c as int,
                ).push(chunks.client_chunks@[c as int]));
                assert(all_chunks@ =~= chunks_pre + chunks.client_chunks@.subrange(0, c + 1));
            }
            c += 1;
        }
        let mut s: usize = 0;
        let ghost chunks_mid = all_chunks@;
        while s < chunks.ssr_chunks.len()
            invariant
                s <= chunks.ssr_chunks@.len(),
                all_chunks@ == chunks_mid + chunks.ssr_chunks@.subrange(0, s as int),
            decreases chunks.ssr_chunks@.len() - s,
        {
            all_chunks.push(chunks.ssr_chunks[s]);
            proof {
                assert(chunks.ssr_chunks@.subrange(0, s + 1) =~= chunks.ssr_chunks@.subrange(
                    0,
                    s as int,
                ).push(chunks.ssr_chunks@[s as int]));
                assert(all_chunks@ =~= chunks_mid + chunks.ssr_chunks@.subrange(0, s + 1));
            }
            s += 1;
        }
        r.push((ty, chunks));
        proof {
            let prefix = tys@.subrange(0, i as int);
            assert(tys@.subrange(0, i + 1) =~= prefix.push(tys@[i as int]));
            lemma_all_reference_chunks_push(
                prefix,
                tys@[i as int],
                *client_chunking_context,
                *ssr_chunking_context,
            );
            assert(chunks.client_chunks@.subrange(0, chunks.client_chunks@.len() as int)
                =~= chunks.client_chunks@);
            assert(chunks.ssr_chunks@.subrange(0, chunks.ssr_chunks@.len() as int)
                =~= chunks.ssr_chunks@);
            assert((chunks_pre + chunks.client_chunks@) + chunks.ssr_chunks@ =~= chunks_pre + (
            chunks.client_chunks@ + chunks.ssr_chunks@));
            assert(all_chunks@ =~= old(all_chunks)@ + spec_all_reference_chunks(
                tys@.subrange(0, i + 1),
                *client_chunking_context,
                *ssr_chunking_context,
            ));
        }
        i += 1;
    }
    proof {
        assert(tys@.subrange(0, tys@.len() as int) =~= tys@);
    }
    r
}

/// Law: the chunk shape per reference type. With well-formed chunking
/// capabilities, a CSS client reference yields non-empty client chunks and
/// empty SSR chunks; an Ecmascript client reference yields both non-empty.
pub proof fn lemma_reference_chunk_shape(
    ty: ClientReferenceType,
    client: ChunkingContext,
    ssr: ChunkingContext,
)
    requires
        client.wf(),
        ssr.wf(),
        spec_covered(seq![ty], client, ssr),
    ensures
        ty is CssClientReference ==> spec_reference_chunks(ty, client, ssr).0.len() > 0
            && spec_reference_chunks(ty, client, ssr).1.len() == 0,
        ty is EcmascriptClientReference ==> spec_reference_chunks(ty, client, ssr).0.len() > 0
            && spec_reference_chunks(ty, client, ssr).1.len() > 0,
{
    assert(seq![ty][0] == ty);
    match ty {
        ClientReferenceType::EcmascriptClientReference { client_module, ssr_module } => {
            lemma_group_of_present(client.groups@, client_module);
            lemma_group_of_present(ssr.groups@, ssr_module);
        },
        ClientReferenceType::CssClientReference { client_module } => {
            lemma_group_of_present(client.groups@, client_module);
        },
    }
}

} // verus!
