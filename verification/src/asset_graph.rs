//! Asset graph traversal and emission. Nodes are output assets; edges are
//! the primary references each asset resolves to. The reachable set is
//! collected breadth-first over an explicit worklist, visiting each asset at
//! most once, so a diamond — two chunks referencing the same sub-asset —
//! yields one visit, and any accidental cycle cannot loop. Each collected
//! asset is then judged by the emission policy: under the node output root
//! it is written verbatim, under the client-relative namespace it is rebased
//! into the client output root, otherwise it is left alone.

use vstd::prelude::*;
use vstd::seq_lib::seq_to_set_is_finite;
use vstd::set_lib::lemma_len_subset;
use crate::client_reference::clone_ids;
use crate::paths::{lies_under, path_lies_under, rebase_path};

verus! {

/// One node of the output-asset graph: its identity, the path it wants to
/// live at, its content, and the assets its primary references resolve to.
#[derive(Debug, Clone)]
pub struct OutputAsset {
    pub id: u64,
    pub path: String,
    pub content: String,
    pub references: Vec<u64>,
}

/// Ghost mirror of an output asset.
pub struct AssetView {
    pub id: u64,
    pub path: Seq<char>,
    pub content: Seq<char>,
    pub references: Seq<u64>,
}

impl View for OutputAsset {
    type V = AssetView;

    open spec fn view(&self) -> AssetView {
        AssetView {
            id: self.id,
            path: self.path@,
            content: self.content@,
            references: self.references@,
        }
    }
}

/// The asset graph, as the chunking steps settled it.
#[derive(Debug)]
pub struct AssetGraph {
    pub assets: Vec<OutputAsset>,
}

/// First-match lookup of an asset row.
pub open spec fn spec_asset_of(s: Seq<OutputAsset>, id: u64) -> AssetView
    decreases s.len(),
{
    if s.len() == 0 {
        arbitrary()
    } else if s[0].id == id {
        s[0]@
    } else {
        spec_asset_of(s.subrange(1, s.len() as int), id)
    }
}

impl AssetGraph {
    pub open spec fn spec_has_asset(&self, id: u64) -> bool {
        exists|i: int| 0 <= i < self.assets@.len() && self.assets@[i].id == id
    }

    pub open spec fn spec_asset(&self, id: u64) -> AssetView {
        spec_asset_of(self.assets@, id)
    }

    /// Resolves an asset id to its node, if the graph holds one.
    pub fn get_asset(&self, id: u64) -> (r: Option<&OutputAsset>)
        ensures
            r is Some <==> self.spec_has_asset(id),
            r is Some ==> r->Some_0@ == self.spec_asset(id),
    {
        proof {
            assert(self.assets@.subrange(0, self.assets@.len() as int) =~= self.assets@);
        }
        let mut i: usize = 0;
        while i < self.assets.len()
            invariant
                i <= self.assets@.len(),
                forall|j: int| 0 <= j < i ==> (#[trigger] self.assets@[j]).id != id,
                spec_asset_of(self.assets@.subrange(i as int, self.assets@.len() as int), id)
                    == self.spec_asset(id),
            decreases self.assets@.len() - i,
        {
            proof {
                let sub = self.assets@.subrange(i as int, self.assets@.len() as int);
                assert(sub[0] == self.assets@[i as int]);
                assert(sub.subrange(1, sub.len() as int) =~= self.assets@.subrange(
                    i + 1,
                    self.assets@.len() as int,
                ));
            }
            if self.assets[i].id == id {
                return Some(&self.assets[i]);
            }
            i += 1;
        }
        None
    }
}

/// Every asset id any reference in the rows can resolve to.
pub open spec fn refs_universe(s: Seq<OutputAsset>) -> Set<u64>
    decreases s.len(),
{
    if s.len() == 0 {
        Set::<u64>::empty()
    } else {
        s[0].references@.to_set().union(refs_universe(s.subrange(1, s.len() as int)))
    }
}

pub proof fn lemma_refs_universe(s: Seq<OutputAsset>)
    ensures
        refs_universe(s).finite(),
        forall|i: int, j: int|
            0 <= i < s.len() && 0 <= j < s[i].references@.len() ==> refs_universe(s).contains(
                #[trigger] s[i].references@[j],
            ),
    decreases s.len(),
{
    broadcast use seq_to_set_is_finite;

    if s.len() > 0 {
        let t = s.subrange(1, s.len() as int);
        lemma_refs_universe(t);
        assert forall|i: int, j: int|
            0 <= i < s.len() && 0 <= j < s[i].references@.len() implies refs_universe(s).contains(
            #[trigger] s[i].references@[j],
        ) by {
            if i == 0 {
                assert(s[0].references@.to_set().contains(s[0].references@[j]));
            } else {
                assert(t[i - 1] == s[i]);
                assert(refs_universe(t).contains(t[i - 1].references@[j]));
            }
        }
    }
}

/// The ids the traversal can ever see: the entry ids plus every reference
/// target in the graph.
pub open spec fn graph_universe(g: AssetGraph, entries: Seq<u64>) -> Set<u64> {
    entries.to_set().union(refs_universe(g.assets@))
}

/// `p` is a chain of reference edges through the graph.
pub open spec fn is_ref_path(g: AssetGraph, p: Seq<u64>) -> bool {
    forall|k: int|
        0 <= k < p.len() - 1 ==> g.spec_has_asset(#[trigger] p[k]) && g.spec_asset(
            p[k],
        ).references.contains(p[k + 1])
}

/// `a` is an entry or lies on a reference chain from one.
pub open spec fn reachable_from(g: AssetGraph, entries: Seq<u64>, a: u64) -> bool {
    exists|p: Seq<u64>|
        p.len() > 0 && entries.contains(p[0]) && #[trigger] is_ref_path(g, p) && p.last() == a
}

/// An entry is reachable by the one-step chain.
pub proof fn lemma_entry_reachable(g: AssetGraph, entries: Seq<u64>, a: u64)
    requires
        entries.contains(a),
    ensures
        reachable_from(g, entries, a),
{
    let p = seq![a];
    assert(p[0] == a && p.last() == a);
    assert(is_ref_path(g, p));
}

/// A reference of a reachable asset is reachable: the chain grows by one.
pub proof fn lemma_reachable_step(g: AssetGraph, entries: Seq<u64>, a: u64, r: u64)
    requires
        reachable_from(g, entries, a),
        g.spec_has_asset(a),
        g.spec_asset(a).references.contains(r),
    ensures
        reachable_from(g, entries, r),
{
    let p = choose|p: Seq<u64>|
        p.len() > 0 && entries.contains(p[0]) && #[trigger] is_ref_path(g, p) && p.last() == a;
    let p2 = p.push(r);
    assert(p2[0] == p[0]);
    assert(p2.last() == r);
    assert forall|k: int|
        0 <= k < p2.len() - 1 implies g.spec_has_asset(#[trigger] p2[k]) && g.spec_asset(
        p2[k],
    ).references.contains(p2[k + 1]) by {
        if k < p.len() - 1 {
            assert(p2[k] == p[k] && p2[k + 1] == p[k + 1]);
        } else {
            assert(p2[k] == p.last() && p2[k + 1] == r);
        }
    }
    assert(is_ref_path(g, p2));
}

pub fn contains_id(v: &Vec<u64>, x: u64) -> (r: bool)
    ensures
        r == v@.contains(x),
{
    let mut i: usize = 0;
    while i < v.len()
        invariant
            i <= v@.len(),
            forall|j: int| 0 <= j < i ==> v@[j] != x,
        decreases v@.len() - i,
    {
        if v[i] == x {
            return true;
        }
        i += 1;
    }
    false
}

/// Walks the asset graph from the given entry chunks and collects every
/// reachable asset id exactly once: the result holds each entry, is closed
/// under references, and has no duplicates, however many chunks reference
/// the same asset and whatever cycles the references form.
pub fn all_assets_from_entries(graph: &AssetGraph, entries: &Vec<u64>) -> (r: Vec<u64>)
    ensures
        r@.no_duplicates(),
        forall|i: int| 0 <= i < entries@.len() ==> r@.contains(#[trigger] entries@[i]),
        forall|i: int, j: int|
            0 <= i < r@.len() && graph.spec_has_asset(r@[i]) && 0 <= j < graph.spec_asset(
                r@[i],
            ).references.len() ==> r@.contains(#[trigger] graph.spec_asset(r@[i]).references[j]),
        forall|i: int| 0 <= i < r@.len() ==> reachable_from(*graph, entries@, #[trigger] r@[i]),
{
    let ghost uni = graph_universe(*graph, entries@);
    proof {
        broadcast use seq_to_set_is_finite;

        lemma_refs_universe(graph.assets@);
        assert(uni.finite());
    }
    let mut visited: Vec<u64> = Vec::new();
    let mut worklist: Vec<u64> = clone_ids(entries);
    proof {
        assert forall|i: int| 0 <= i < worklist@.len() implies uni.contains(
            #[trigger] worklist@[i],
        ) by {
            assert(entries@.to_set().contains(entries@[i]));
        }
        assert forall|i: int|
            0 <= i < worklist@.len() implies reachable_from(
            *graph,
            entries@,
            #[trigger] worklist@[i],
        ) by {
            assert(entries@.contains(entries@[i]));
            lemma_entry_reachable(*graph, entries@, worklist@[i]);
        }
    }
    while worklist.len() > 0
        invariant
            uni == graph_universe(*graph, entries@),
            uni.finite(),
            visited@.no_duplicates(),
            visited@.len() <= uni.len(),
            forall|i: int| 0 <= i < visited@.len() ==> uni.contains(#[trigger] visited@[i]),
            forall|i: int| 0 <= i < worklist@.len() ==> uni.contains(#[trigger] worklist@[i]),
            forall|i: int|
                0 <= i < entries@.len() ==> visited@.contains(#[trigger] entries@[i])
                    || worklist@.contains(entries@[i]),
            forall|i: int, j: int|
                0 <= i < visited@.len() && graph.spec_has_asset(visited@[i]) && 0 <= j
                    < graph.spec_asset(visited@[i]).references.len() ==> visited@.contains(
                    #[trigger] graph.spec_asset(visited@[i]).references[j],
                ) || worklist@.contains(graph.spec_asset(visited@[i]).references[j]),
            forall|i: int|
                0 <= i < visited@.len() ==> reachable_from(
                    *graph,
                    entries@,
                    #[trigger] visited@[i],
                ),
            forall|i: int|
                0 <= i < worklist@.len() ==> reachable_from(
                    *graph,
                    entries@,
                    #[trigger] worklist@[i],
                ),
        decreases uni.len() - visited@.len(), worklist@.len(),
    {
        let ghost wl_pre = worklist@;
        let id = worklist.pop().unwrap();
        let ghost wl_rest = worklist@;
        proof {
            assert(id == wl_pre[wl_pre.len() - 1]);
            assert(wl_rest =~= wl_pre.subrange(0, wl_pre.len() - 1));
        }
        if contains_id(&visited, id) {
            proof {
                assert forall|l: int|
                    0 <= l < wl_rest.len() implies reachable_from(
                    *graph,
                    entries@,
                    #[trigger] wl_rest[l],
                ) by {
                    assert(wl_rest[l] == wl_pre[l]);
                }
                lemma_shrunk_worklist(wl_pre, wl_rest, visited@, entries@);
                assert forall|i: int, j: int|
                    0 <= i < visited@.len() && graph.spec_has_asset(visited@[i]) && 0 <= j
                        < graph.spec_asset(visited@[i]).references.len() implies visited@.contains(
                    #[trigger] graph.spec_asset(visited@[i]).references[j],
                ) || wl_rest.contains(graph.spec_asset(visited@[i]).references[j]) by {
                    let x = graph.spec_asset(visited@[i]).references[j];
                    if !visited@.contains(x) {
                        let l = choose|l: int| 0 <= l < wl_pre.len() && wl_pre[l] == x;
                        if l < wl_pre.len() - 1 {
                            assert(wl_rest[l] == x);
                        } else {
                            assert(x == id);
                            assert(visited@.contains(id));
                            assert(false);
                        }
                    }
                }
            }
        } else {
            let ghost visited_pre = visited@;
            visited.push(id);
            proof {
                assert forall|a: int, b: int| 0 <= a < b < visited@.len() implies visited@[a]
                    != visited@[b] by {
                    if b == visited@.len() - 1 {
                        assert(visited@[a] == visited_pre[a]);
                        if visited_pre[a] == id {
                            assert(visited_pre.contains(id));
                        }
                    }
                }
                assert(uni.contains(id));
                visited@.unique_seq_to_set();
                lemma_len_subset(visited@.to_set(), uni);
                assert(visited@.to_set().subset_of(uni)) by {
                    assert forall|x: u64| visited@.to_set().contains(x) implies uni.contains(
                        x,
                    ) by {
                        let l = choose|l: int| 0 <= l < visited@.len() && visited@[l] == x;
                    }
                }
            }
            let asset = graph.get_asset(id);
            match asset {
                Some(a) => {
                    let mut j: usize = 0;
                    proof {
                        assert(a.references@.subrange(0, 0) =~= Seq::<u64>::empty());
                        assert(worklist@ =~= wl_rest + a.references@.subrange(0, 0));
                    }
                    while j < a.references.len()
                        invariant
                            j <= a.references@.len(),
                            worklist@ =~= wl_rest + a.references@.subrange(0, j as int),
                        decreases a.references@.len() - j,
                    {
                        worklist.push(a.references[j]);
                        proof {
                            assert(a.references@.subrange(0, j + 1) =~= a.references@.subrange(
                                0,
                                j as int,
                            ).push(a.references@[j as int]));
                        }
                        j += 1;
                    }
                    proof {
                        assert(a.references@.subrange(0, a.references@.len() as int)
                            =~= a.references@);
                        assert(worklist@ =~= wl_rest + a.references@);
                        lemma_visit_step(*graph, id, a@, wl_pre, wl_rest, worklist@, visited_pre,
                            visited@, entries@, uni);
                        assert forall|l: int|
                            0 <= l < worklist@.len() implies reachable_from(
                            *graph,
                            entries@,
                            #[trigger] worklist@[l],
                        ) by {
                            if l < wl_rest.len() {
                                assert(worklist@[l] == wl_pre[l]);
                            } else {
                                assert(worklist@[l] == a@.references[l - wl_rest.len()]);
                                assert(a@.references.contains(a@.references[l - wl_rest.len()]));
                                lemma_reachable_step(
                                    *graph,
                                    entries@,
                                    id,
                                    a@.references[l - wl_rest.len()],
                                );
                            }
                        }
                    }
                },
                None => {
                    proof {
                        assert forall|l: int|
                            0 <= l < wl_rest.len() implies reachable_from(
                            *graph,
                            entries@,
                            #[trigger] wl_rest[l],
                        ) by {
                            assert(wl_rest[l] == wl_pre[l]);
                        }
                        lemma_visit_step_no_asset(*graph, id, wl_pre, wl_rest, visited_pre,
                            visited@, entries@, uni);
                    }
                },
            }
        }
    }
    proof {
        assert(worklist@.len() == 0);
        assert forall|i: int|
            0 <= i < entries@.len() implies visited@.contains(#[trigger] entries@[i]) by {
            if worklist@.contains(entries@[i]) {
                let l = choose|l: int| 0 <= l < worklist@.len() && worklist@[l] == entries@[i];
            }
        }
        assert forall|i: int, j: int|
            0 <= i < visited@.len() && graph.spec_has_asset(visited@[i]) && 0 <= j
                < graph.spec_asset(visited@[i]).references.len() implies visited@.contains(
            #[trigger] graph.spec_asset(visited@[i]).references[j],
        ) by {
            let x = graph.spec_asset(visited@[i]).references[j];
            if worklist@.contains(x) {
                let l = choose|l: int| 0 <= l < worklist@.len() && worklist@[l] == x;
            }
        }
    }
    visited
}

/// When a popped id was already visited, the entry and closure obligations
/// survive the shorter worklist.
proof fn lemma_shrunk_worklist(
    wl_pre: Seq<u64>,
    wl_rest: Seq<u64>,
    visited: Seq<u64>,
    entries: Seq<u64>,
)
    requires
        wl_pre.len() > 0,
        wl_rest == wl_pre.subrange(0, wl_pre.len() - 1),
        visited.contains(wl_pre[wl_pre.len() - 1]),
        forall|i: int|
            0 <= i < entries.len() ==> visited.contains(#[trigger] entries[i]) || wl_pre.contains(
                entries[i],
            ),
    ensures
        forall|i: int|
            0 <= i < entries.len() ==> visited.contains(#[trigger] entries[i]) || wl_rest.contains(
                entries[i],
            ),
{
    assert forall|i: int|
        0 <= i < entries.len() implies visited.contains(#[trigger] entries[i]) || wl_rest.contains(
        entries[i],
    ) by {
        if !visited.contains(entries[i]) {
            let l = choose|l: int| 0 <= l < wl_pre.len() && wl_pre[l] == entries[i];
            if l < wl_pre.len() - 1 {
                assert(wl_rest[l] == entries[i]);
            }
        }
    }
}

/// After a fresh id moved to the visited set and its references joined the
/// worklist, the entry and closure obligations hold again.
proof fn lemma_visit_step(
    g: AssetGraph,
    id: u64,
    a: AssetView,
    wl_pre: Seq<u64>,
    wl_rest: Seq<u64>,
    wl_post: Seq<u64>,
    visited_pre: Seq<u64>,
    visited_post: Seq<u64>,
    entries: Seq<u64>,
    uni: Set<u64>,
)
    requires
        wl_pre.len() > 0,
        wl_rest == wl_pre.subrange(0, wl_pre.len() - 1),
        id == wl_pre[wl_pre.len() - 1],
        visited_post == visited_pre.push(id),
        g.spec_has_asset(id),
        a == g.spec_asset(id),
        wl_post == wl_rest + a.references,
        uni == graph_universe(g, entries),
        forall|i: int| 0 <= i < wl_pre.len() ==> uni.contains(#[trigger] wl_pre[i]),
        forall|i: int|
            0 <= i < entries.len() ==> visited_pre.contains(#[trigger] entries[i])
                || wl_pre.contains(entries[i]),
        forall|i: int, j: int|
            0 <= i < visited_pre.len() && g.spec_has_asset(visited_pre[i]) && 0 <= j
                < g.spec_asset(visited_pre[i]).references.len() ==> visited_pre.contains(
                #[trigger] g.spec_asset(visited_pre[i]).references[j],
            ) || wl_pre.contains(g.spec_asset(visited_pre[i]).references[j]),
    ensures
        forall|i: int| 0 <= i < wl_post.len() ==> uni.contains(#[trigger] wl_post[i]),
        forall|i: int|
            0 <= i < entries.len() ==> visited_post.contains(#[trigger] entries[i])
                || wl_post.contains(entries[i]),
        forall|i: int, j: int|
            0 <= i < visited_post.len() && g.spec_has_asset(visited_post[i]) && 0 <= j
                < g.spec_asset(visited_post[i]).references.len() ==> visited_post.contains(
                #[trigger] g.spec_asset(visited_post[i]).references[j],
            ) || wl_post.contains(g.spec_asset(visited_post[i]).references[j]),
{
    lemma_refs_universe(g.assets@);
    lemma_asset_row(g.assets@, id);
    let row = choose|r: int|
        0 <= r < g.assets@.len() && g.assets@[r].id == id && g.assets@[r]@ == g.spec_asset(id);
    assert forall|i: int| 0 <= i < wl_post.len() implies uni.contains(#[trigger] wl_post[i]) by {
        if i < wl_rest.len() {
            assert(wl_post[i] == wl_pre[i]);
        } else {
            let j = i - wl_rest.len();
            assert(wl_post[i] == a.references[j]);
            assert(g.assets@[row].references@[j] == a.references[j]);
            assert(refs_universe(g.assets@).contains(g.assets@[row].references@[j]));
        }
    }
    assert forall|i: int|
        0 <= i < entries.len() implies visited_post.contains(#[trigger] entries[i])
        || wl_post.contains(entries[i]) by {
        if !visited_pre.contains(entries[i]) {
            let l = choose|l: int| 0 <= l < wl_pre.len() && wl_pre[l] == entries[i];
            if l < wl_pre.len() - 1 {
                assert(wl_post[l] == entries[i]);
            } else {
                assert(visited_post[visited_post.len() - 1] == id);
            }
        } else {
            let l = choose|l: int| 0 <= l < visited_pre.len() && visited_pre[l] == entries[i];
            assert(visited_post[l] == entries[i]);
        }
    }
    assert forall|i: int, j: int|
        0 <= i < visited_post.len() && g.spec_has_asset(visited_post[i]) && 0 <= j < g.spec_asset(
            visited_post[i],
        ).references.len() implies visited_post.contains(
        #[trigger] g.spec_asset(visited_post[i]).references[j],
    ) || wl_post.contains(g.spec_asset(visited_post[i]).references[j]) by {
        let x = g.spec_asset(visited_post[i]).references[j];
        if i < visited_pre.len() {
            assert(visited_post[i] == visited_pre[i]);
            if !visited_pre.contains(x) {
                let l = choose|l: int| 0 <= l < wl_pre.len() && wl_pre[l] == x;
                if l < wl_pre.len() - 1 {
                    assert(wl_post[l] == x);
                } else {
                    assert(x == id);
                    assert(visited_post[visited_post.len() - 1] == id);
                }
            } else {
                let l = choose|l: int| 0 <= l < visited_pre.len() && visited_pre[l] == x;
                assert(visited_post[l] == x);
            }
        } else {
            assert(visited_post[i] == id);
            assert(wl_post[wl_rest.len() + j] == a.references[j]);
        }
    }
}

/// As `lemma_visit_step`, for an id the graph holds no asset for: nothing
/// joins the worklist.
proof fn lemma_visit_step_no_asset(
    g: AssetGraph,
    id: u64,
    wl_pre: Seq<u64>,
    wl_rest: Seq<u64>,
    visited_pre: Seq<u64>,
    visited_post: Seq<u64>,
    entries: Seq<u64>,
    uni: Set<u64>,
)
    requires
        wl_pre.len() > 0,
        wl_rest == wl_pre.subrange(0, wl_pre.len() - 1),
        id == wl_pre[wl_pre.len() - 1],
        visited_post == visited_pre.push(id),
        !g.spec_has_asset(id),
        forall|i: int|
            0 <= i < entries.len() ==> visited_pre.contains(#[trigger] entries[i])
                || wl_pre.contains(entries[i]),
        forall|i: int, j: int|
            0 <= i < visited_pre.len() && g.spec_has_asset(visited_pre[i]) && 0 <= j
                < g.spec_asset(visited_pre[i]).references.len() ==> visited_pre.contains(
                #[trigger] g.spec_asset(visited_pre[i]).references[j],
            ) || wl_pre.contains(g.spec_asset(visited_pre[i]).references[j]),
    ensures
        forall|i: int|
            0 <= i < entries.len() ==> visited_post.contains(#[trigger] entries[i])
                || wl_rest.contains(entries[i]),
        forall|i: int, j: int|
            0 <= i < visited_post.len() && g.spec_has_asset(visited_post[i]) && 0 <= j
                < g.spec_asset(visited_post[i]).references.len() ==> visited_post.contains(
                #[trigger] g.spec_asset(visited_post[i]).references[j],
            ) || wl_rest.contains(g.spec_asset(visited_post[i]).references[j]),
{
    assert forall|i: int|
        0 <= i < entries.len() implies visited_post.contains(#[trigger] entries[i])
        || wl_rest.contains(entries[i]) by {
        if !visited_pre.contains(entries[i]) {
            let l = choose|l: int| 0 <= l < wl_pre.len() && wl_pre[l] == entries[i];
            if l < wl_pre.len() - 1 {
                assert(wl_rest[l] == entries[i]);
            } else {
                assert(visited_post[visited_post.len() - 1] == id);
            }
        } else {
            let l = choose|l: int| 0 <= l < visited_pre.len() && visited_pre[l] == entries[i];
            assert(visited_post[l] == entries[i]);
        }
    }
    assert forall|i: int, j: int|
        0 <= i < visited_post.len() && g.spec_has_asset(visited_post[i]) && 0 <= j < g.spec_asset(
            visited_post[i],
        ).references.len() implies visited_post.contains(
        #[trigger] g.spec_asset(visited_post[i]).references[j],
    ) || wl_rest.contains(g.spec_asset(visited_post[i]).references[j]) by {
        let x = g.spec_asset(visited_post[i]).references[j];
        if i < visited_pre.len() {
            assert(visited_post[i] == visited_pre[i]);
            if !visited_pre.contains(x) {
                let l = choose|l: int| 0 <= l < wl_pre.len() && wl_pre[l] == x;
                if l < wl_pre.len() - 1 {
                    assert(wl_rest[l] == x);
                } else {
                    assert(x == id);
                    assert(visited_post[visited_post.len() - 1] == id);
                }
            } else {
                let l = choose|l: int| 0 <= l < visited_pre.len() && visited_pre[l] == x;
                assert(visited_post[l] == x);
            }
        } else {
            assert(visited_post[i] == id);
            assert(false);
        }
    }
}

// ---------------------------------------------------------------------------
// Emission.
// ---------------------------------------------------------------------------

/// One pending file write.
#[derive(Debug, Clone, PartialEq, Eq)]
pub struct FileWrite {
    pub path: String,
    pub content: String,
}

/// Ghost mirror of a pending write.
pub struct WriteView {
    pub path: Seq<char>,
    pub content: Seq<char>,
}

impl View for FileWrite {
    type V = WriteView;

    open spec fn view(&self) -> WriteView {
        WriteView { path: self.path@, content: self.content@ }
    }
}

pub open spec fn write_views(ws: Seq<FileWrite>) -> Seq<WriteView> {
    ws.map_values(|w: FileWrite| w@)
}

/// The emission policy, first match wins: a path under the node output root
/// is written verbatim there; a path under the client-relative namespace is
/// rebased into the client output root, stripping the namespace prefix;
/// anything else is left alone.
pub open spec fn spec_emission_target(
    asset_path: Seq<char>,
    node_root: Seq<char>,
    client_relative: Seq<char>,
    client_root: Seq<char>,
) -> Option<Seq<char>> {
    if lies_under(asset_path, node_root) {
        Some(asset_path)
    } else if lies_under(asset_path, client_relative) {
        Some(client_root + asset_path.subrange(client_relative.len() as int, asset_path.len() as int))
    } else {
        None
    }
}

pub fn emission_target(
    asset_path: &str,
    node_root: &str,
    client_relative: &str,
    client_root: &str,
) -> (r: Option<String>)
    ensures
        r is Some <==> spec_emission_target(
            asset_path@,
            node_root@,
            client_relative@,
            client_root@,
        ) is Some,
        r is Some ==> r->Some_0@ == spec_emission_target(
            asset_path@,
            node_root@,
            client_relative@,
            client_root@,
        )->Some_0,
{
    if path_lies_under(asset_path, node_root) {
        Some(asset_path.to_owned())
    } else if path_lies_under(asset_path, client_relative) {
        Some(rebase_path(asset_path, client_relative, client_root))
    } else {
        None
    }
}

/// The writes a collected id sequence turns into: each id that resolves to
/// an asset whose path an output root claims contributes exactly one write,
/// in collection order.
pub open spec fn spec_asset_writes(
    g: AssetGraph,
    ids: Seq<u64>,
    node_root: Seq<char>,
    client_relative: Seq<char>,
    client_root: Seq<char>,
) -> Seq<WriteView>
    decreases ids.len(),
{
    if ids.len() == 0 {
        Seq::<WriteView>::empty()
    } else {
        let rest = spec_asset_writes(
            g,
            ids.subrange(1, ids.len() as int),
            node_root,
            client_relative,
            client_root,
        );
        if g.spec_has_asset(ids[0]) {
            let a = g.spec_asset(ids[0]);
            match spec_emission_target(a.path, node_root, client_relative, client_root) {
                Some(p) => seq![WriteView { path: p, content: a.content }] + rest,
                None => rest,
            }
        } else {
            rest
        }
    }
}

pub proof fn lemma_asset_writes_push(
    g: AssetGraph,
    ids: Seq<u64>,
    x: u64,
    node_root: Seq<char>,
    client_relative: Seq<char>,
    client_root: Seq<char>,
)
    ensures
        spec_asset_writes(g, ids.push(x), node_root, client_relative, client_root)
            == spec_asset_writes(g, ids, node_root, client_relative, client_root)
            + spec_asset_writes(g, seq![x], node_root, client_relative, client_root),
    decreases ids.len(),
{
    let p = ids.push(x);
    let single = spec_asset_writes(g, seq![x], node_root, client_relative, client_root);
    if ids.len() == 0 {
        assert(p =~= seq![x]);
        assert(spec_asset_writes(g, ids, node_root, client_relative, client_root)
            =~= Seq::<WriteView>::empty());
        assert(spec_asset_writes(g, ids, node_root, client_relative, client_root) + single
            =~= single);
    } else {
        assert(p[0] == ids[0]);
        assert(p.subrange(1, p.len() as int) =~= ids.subrange(1, ids.len() as int).push(x));
        lemma_asset_writes_push(
            g,
            ids.subrange(1, ids.len() as int),
            x,
            node_root,
            client_relative,
            client_root,
        );
        let rest = spec_asset_writes(
            g,
            ids.subrange(1, ids.len() as int),
            node_root,
            client_relative,
            client_root,
        );
        if g.spec_has_asset(ids[0]) {
            let a = g.spec_asset(ids[0]);
            match spec_emission_target(a.path, node_root, client_relative, client_root) {
                Some(t) => {
                    assert(seq![WriteView { path: t, content: a.content }] + (rest + single)
                        =~= (seq![WriteView { path: t, content: a.content }] + rest) + single);
                },
                None => {},
            }
        }
    }
}

/// At most one write per collected id.
pub proof fn lemma_writes_bounded(
    g: AssetGraph,
    ids: Seq<u64>,
    node_root: Seq<char>,
    client_relative: Seq<char>,
    client_root: Seq<char>,
)
    ensures
        spec_asset_writes(g, ids, node_root, client_relative, client_root).len() <= ids.len(),
    decreases ids.len(),
{
    if ids.len() > 0 {
        lemma_writes_bounded(
            g,
            ids.subrange(1, ids.len() as int),
            node_root,
            client_relative,
            client_root,
        );
    }
}

/// Turns the collected ids into their pending writes, in order.
pub fn emission_writes(
    graph: &AssetGraph,
    ids: &Vec<u64>,
    node_root: &str,
    client_relative: &str,
    client_root: &str,
) -> (writes: Vec<FileWrite>)
    ensures
        write_views(writes@) == spec_asset_writes(
            *graph,
            ids@,
            node_root@,
            client_relative@,
            client_root@,
        ),
{
    let mut writes: Vec<FileWrite> = Vec::new();
    let mut i: usize = 0;
    proof {
        assert(ids@.subrange(0, 0) =~= Seq::<u64>::empty());
        assert(write_views(writes@) =~= Seq::<WriteView>::empty());
    }
    while i < ids.len()
        invariant
            i <= ids@.len(),
            write_views(writes@) == spec_asset_writes(
                *graph,
                ids@.subrange(0, i as int),
                node_root@,
                client_relative@,
                client_root@,
            ),
        decreases ids@.len() - i,
    {
        let id = ids[i];
        let ghost writes_pre = writes@;
        match graph.get_asset(id) {
            Some(a) => {
                match emission_target(a.path.as_str(), node_root, client_relative, client_root) {
                    Some(target) => {
                        let w = FileWrite { path: target, content: clone_text(&a.content) };
                        writes.push(w);
                    },
                    None => {},
                }
            },
            None => {},
        }
        proof {
            let prefix = ids@.subrange(0, i as int);
            assert(ids@.subrange(0, i + 1) =~= prefix.push(id));
            lemma_asset_writes_push(
                *graph,
                prefix,
                id,
                node_root@,
                client_relative@,
                client_root@,
            );
            let single = spec_asset_writes(
                *graph,
                seq![id],
                node_root@,
                client_relative@,
                client_root@,
            );
            assert(seq![id].subrange(1, 1) =~= Seq::<u64>::empty());
            assert(spec_asset_writes(
                *graph,
                Seq::<u64>::empty(),
                node_root@,
                client_relative@,
                client_root@,
            ) == Seq::<WriteView>::empty());
            if graph.spec_has_asset(id) {
                let av = graph.spec_asset(id);
                match spec_emission_target(av.path, node_root@, client_relative@, client_root@) {
                    Some(t) => {
                        assert(single =~= seq![WriteView { path: t, content: av.content }]);
                        assert(write_views(writes@) =~= write_views(writes_pre).push(
                            writes@[writes@.len() - 1]@,
                        ));
                        assert(write_views(writes@) =~= spec_asset_writes(
                            *graph,
                            ids@.subrange(0, i + 1),
                            node_root@,
                            client_relative@,
                            client_root@,
                        ));
                    },
                    None => {
                        assert(single =~= Seq::<WriteView>::empty());
                        assert(write_views(writes@) =~= spec_asset_writes(
                            *graph,
                            ids@.subrange(0, i + 1),
                            node_root@,
                            client_relative@,
                            client_root@,
                        ));
                    },
                }
            } else {
                assert(single =~= Seq::<WriteView>::empty());
                assert(write_views(writes@) =~= spec_asset_writes(
                    *graph,
                    ids@.subrange(0, i + 1),
                    node_root@,
                    client_relative@,
                    client_root@,
                ));
            }
        }
        i += 1;
    }
    proof {
        assert(ids@.subrange(0, ids@.len() as int) =~= ids@);
    }
    writes
}

pub fn clone_text(s: &String) -> (r: String)
    ensures
        r@ == s@,
{
    s.clone()
}

/// Collects every asset transitively reachable from the given chunks — each
/// exactly once — and produces the writes the emission policy assigns them:
/// verbatim under the node root, rebased from the client-relative namespace
/// into the client output root, skipped elsewhere.
pub fn emit_all_assets(
    graph: &AssetGraph,
    chunks: &Vec<u64>,
    node_root: &str,
    client_relative_path: &str,
    client_output_path: &str,
) -> (r: (Vec<u64>, Vec<FileWrite>))
    ensures
        r.0@.no_duplicates(),
        forall|i: int| 0 <= i < chunks@.len() ==> r.0@.contains(#[trigger] chunks@[i]),
        forall|i: int, j: int|
            0 <= i < r.0@.len() && graph.spec_has_asset(r.0@[i]) && 0 <= j < graph.spec_asset(
                r.0@[i],
            ).references.len() ==> r.0@.contains(
                #[trigger] graph.spec_asset(r.0@[i]).references[j],
            ),
        forall|i: int| 0 <= i < r.0@.len() ==> reachable_from(*graph, chunks@, #[trigger] r.0@[i]),
        write_views(r.1@) == spec_asset_writes(
            *graph,
            r.0@,
            node_root@,
            client_relative_path@,
            client_output_path@,
        ),
{
    let assets = all_assets_from_entries(graph, chunks);
    let writes = emission_writes(graph, &assets, node_root, client_relative_path, client_output_path);
    (assets, writes)
}

/// Occurrences of `x` in `s`.
pub open spec fn spec_count(s: Seq<u64>, x: u64) -> nat
    decreases s.len(),
{
    if s.len() == 0 {
        0
    } else {
        (if s[0] == x {
            1nat
        } else {
            0nat
        }) + spec_count(s.subrange(1, s.len() as int), x)
    }
}

pub proof fn lemma_count_zero(s: Seq<u64>, x: u64)
    requires
        !s.contains(x),
    ensures
        spec_count(s, x) == 0,
    decreases s.len(),
{
    if s.len() > 0 {
        let t = s.subrange(1, s.len() as int);
        assert(!t.contains(x)) by {
            if t.contains(x) {
                let l = choose|l: int| 0 <= l < t.len() && t[l] == x;
                assert(s[l + 1] == x);
            }
        }
        lemma_count_zero(t, x);
    }
}

/// Law: traversal dedups. However many chunks reference an asset — the
/// diamond included — the collected set holds it exactly once, and so at
/// most one write is issued for it.
pub proof fn lemma_traversal_dedups(ids: Seq<u64>, x: u64)
    requires
        ids.no_duplicates(),
        ids.contains(x),
    ensures
        spec_count(ids, x) == 1,
    decreases ids.len(),
{
    let t = ids.subrange(1, ids.len() as int);
    assert forall|a: int, b: int| 0 <= a < b < t.len() implies t[a] != t[b] by {
        assert(t[a] == ids[a + 1] && t[b] == ids[b + 1]);
    }
    if ids[0] == x {
        assert(!t.contains(x)) by {
            if t.contains(x) {
                let l = choose|l: int| 0 <= l < t.len() && t[l] == x;
                assert(ids[l + 1] == x);
            }
        }
        lemma_count_zero(t, x);
    } else {
        assert(t.contains(x)) by {
            let l = choose|l: int| 0 <= l < ids.len() && ids[l] == x;
            assert(t[l - 1] == x);
        }
        lemma_traversal_dedups(t, x);
    }
}

/// The looked-up asset view is one of the graph's rows.
pub proof fn lemma_asset_row(s: Seq<OutputAsset>, id: u64)
    requires
        exists|i: int| 0 <= i < s.len() && s[i].id == id,
    ensures
        exists|i: int| 0 <= i < s.len() && s[i].id == id && s[i]@ == spec_asset_of(s, id),
    decreases s.len(),
{
    if s[0].id == id {
    } else {
        let t = s.subrange(1, s.len() as int);
        assert(exists|i: int| 0 <= i < t.len() && t[i].id == id) by {
            let i = choose|i: int| 0 <= i < s.len() && s[i].id == id;
            assert(t[i - 1] == s[i]);
        }
        lemma_asset_row(t, id);
        let i = choose|i: int| 0 <= i < t.len() && t[i].id == id && t[i]@ == spec_asset_of(t, id);
        assert(s[i + 1] == t[i]);
    }
}

} // verus!
