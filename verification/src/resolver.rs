//! The transform resolver: the global matrix of a node, composed from the
//! local transforms along its chain of ancestors.

use vstd::prelude::*;
use crate::components::{Row, Transform};
use crate::entity::Entity;
use crate::error::WorldError;
use crate::math::{is_product_of, mat4_mul, Mat4};
use crate::scene_graph::{forest_wf, is_node, NodeIndex, NodeView, SceneGraph};
use crate::store::Store;

verus! {

/// Why the global matrix of a node cannot be resolved, if it cannot. The
/// chain is examined from the node towards its root, and the first obstacle
/// decides: an index that names no node and an entity that is not live give
/// `NotFound`, an entity without a `Transform` gives `MissingComponent`.
pub open spec fn resolve_failure(entities: Map<Entity, Row>, g: Seq<NodeView>, n: int) -> Option<
    WorldError,
>
    decreases n,
{
    if !is_node(g, n) {
        Some(WorldError::NotFound)
    } else if !entities.contains_key(g[n].entity) {
        Some(WorldError::NotFound)
    } else if entities[g[n].entity].transform.is_none() {
        Some(WorldError::MissingComponent)
    } else {
        match g[n].parent {
            Some(p) => if 0 <= p < n {
                resolve_failure(entities, g, p)
            } else {
                None
            },
            None => None,
        }
    }
}

/// The local transform of the entity of node `n`.
pub open spec fn local_transform(entities: Map<Entity, Row>, g: Seq<NodeView>, n: int) -> Transform {
    entities[g[n].entity].transform.unwrap()
}

/// Holds where `m` was computed as the global matrix of node `n`: for a
/// root, the matrix of its local transform; for any other node, the product
/// of its parent's global matrix with the matrix of its local transform, in
/// that order.
pub open spec fn is_global_matrix(
    entities: Map<Entity, Row>,
    g: Seq<NodeView>,
    n: int,
    m: Mat4,
) -> bool
    decreases n,
{
    &&& is_node(g, n)
    &&& match g[n].parent {
        Some(p) => 0 <= p < n && exists|pm: Mat4, lm: Mat4|
            {
                &&& is_global_matrix(entities, g, p, pm)
                &&& Transform::is_matrix_of(local_transform(entities, g, n), lm)
                &&& #[trigger] is_product_of(pm, lm, m)
            },
        None => Transform::is_matrix_of(local_transform(entities, g, n), m),
    }
}

/// The chain of a node: its root first, the node itself last.
pub open spec fn ancestor_chain(g: Seq<NodeView>, n: int) -> Seq<int>
    decreases n,
{
    if !is_node(g, n) {
        Seq::empty()
    } else {
        match g[n].parent {
            Some(p) => if 0 <= p < n {
                ancestor_chain(g, p).push(n)
            } else {
                seq![n]
            },
            None => seq![n],
        }
    }
}

/// Holds where `m` was computed as the product of the matrices of the local
/// transforms of the nodes of a chain, multiplied from the first to the
/// last: `((L0 * L1) * L2) * ...`.
pub open spec fn is_chain_product(
    entities: Map<Entity, Row>,
    g: Seq<NodeView>,
    chain: Seq<int>,
    m: Mat4,
) -> bool
    decreases chain.len(),
{
    if chain.len() == 0 {
        false
    } else if chain.len() == 1 {
        Transform::is_matrix_of(local_transform(entities, g, chain[0]), m)
    } else {
        exists|pm: Mat4, lm: Mat4|
            {
                &&& is_chain_product(entities, g, chain.drop_last(), pm)
                &&& Transform::is_matrix_of(
                    local_transform(entities, g, chain.last()),
                    lm,
                )
                &&& #[trigger] is_product_of(pm, lm, m)
            }
    }
}

/// The global matrix of a node is the product of the local transforms of
/// its ancestors and itself, applied from the root to the node.
pub proof fn law_global_matrix_is_chain_product(
    entities: Map<Entity, Row>,
    g: Seq<NodeView>,
    n: int,
    m: Mat4,
)
    requires
        forest_wf(g),
        is_node(g, n),
    ensures
        is_global_matrix(entities, g, n, m) <==> is_chain_product(
            entities,
            g,
            ancestor_chain(g, n),
            m,
        ),
        ancestor_chain(g, n).len() >= 1,
        ancestor_chain(g, n).last() == n,
    decreases n,
{
    match g[n].parent {
        Some(p) => {
            assert(is_node(g, p) && p < n);
            let chain = ancestor_chain(g, n);
            let up = ancestor_chain(g, p);
            law_global_matrix_is_chain_product(entities, g, p, m);
            assert(chain == up.push(n));
            assert(chain.drop_last() =~= up);
            assert(chain.len() >= 2);
            if is_global_matrix(entities, g, n, m) {
                assert(exists|pm: Mat4, lm: Mat4|
                    {
                        &&& is_global_matrix(entities, g, p, pm)
                        &&& Transform::is_matrix_of(local_transform(entities, g, n), lm)
                        &&& #[trigger] is_product_of(pm, lm, m)
                    });
                let (pm, lm) = choose|pm: Mat4, lm: Mat4|
                    {
                        &&& is_global_matrix(entities, g, p, pm)
                        &&& Transform::is_matrix_of(local_transform(entities, g, n), lm)
                        &&& #[trigger] is_product_of(pm, lm, m)
                    };
                assert(is_global_matrix(entities, g, p, pm));
                law_global_matrix_is_chain_product(entities, g, p, pm);
                assert(is_chain_product(entities, g, chain.drop_last(), pm));
                assert(is_chain_product(entities, g, chain, m));
            }
            if is_chain_product(entities, g, chain, m) {
                let (pm, lm) = choose|pm: Mat4, lm: Mat4|
                    {
                        &&& is_chain_product(entities, g, chain.drop_last(), pm)
                        &&& Transform::is_matrix_of(
                            local_transform(entities, g, chain.last()),
                            lm,
                        )
                        &&& #[trigger] is_product_of(pm, lm, m)
                    };
                law_global_matrix_is_chain_product(entities, g, p, pm);
                assert(is_global_matrix(entities, g, p, pm));
                assert(is_global_matrix(entities, g, n, m));
            }
        },
        None => {
            assert(ancestor_chain(g, n) =~= seq![n]);
        },
    }
}

/// The global matrix of a node and the reasons for which it cannot be
/// resolved depend on the store only through the local transforms of the
/// entities on the node's chain.
pub proof fn law_global_matrix_reads_chain_only(
    before: Map<Entity, Row>,
    after: Map<Entity, Row>,
    g: Seq<NodeView>,
    n: int,
    m: Mat4,
)
    requires
        forest_wf(g),
        is_node(g, n),
        forall|k: int|
            0 <= k < ancestor_chain(g, n).len() ==> {
                let e = g[#[trigger] ancestor_chain(g, n)[k]].entity;
                &&& before.contains_key(e) == after.contains_key(e)
                &&& before.contains_key(e) ==> before[e].transform == after[e].transform
            },
    ensures
        resolve_failure(before, g, n) == resolve_failure(after, g, n),
        resolve_failure(before, g, n).is_none() ==> (is_global_matrix(before, g, n, m)
            <==> is_global_matrix(after, g, n, m)),
    decreases n,
{
    let chain = ancestor_chain(g, n);
    law_global_matrix_is_chain_product(before, g, n, m);
    assert(chain.last() == n);
    assert(chain[chain.len() - 1] == n);
    match g[n].parent {
        Some(p) => {
            assert(is_node(g, p) && p < n);
            let up = ancestor_chain(g, p);
            assert(chain == up.push(n));
            assert forall|k: int| 0 <= k < up.len() implies {
                let e = g[#[trigger] up[k]].entity;
                &&& before.contains_key(e) == after.contains_key(e)
                &&& before.contains_key(e) ==> before[e].transform == after[e].transform
            } by {
                assert(chain[k] == up[k]);
            }
            law_global_matrix_reads_chain_only(before, after, g, p, m);
            if resolve_failure(before, g, n).is_none() {
                assert(local_transform(before, g, n) == local_transform(after, g, n));
                if is_global_matrix(before, g, n, m) {
                    let (pm, lm) = choose|pm: Mat4, lm: Mat4|
                        {
                            &&& is_global_matrix(before, g, p, pm)
                            &&& Transform::is_matrix_of(local_transform(before, g, n), lm)
                            &&& #[trigger] is_product_of(pm, lm, m)
                        };
                    law_global_matrix_reads_chain_only(before, after, g, p, pm);
                    assert(is_global_matrix(after, g, p, pm));
                }
                if is_global_matrix(after, g, n, m) {
                    let (pm, lm) = choose|pm: Mat4, lm: Mat4|
                        {
                            &&& is_global_matrix(after, g, p, pm)
                            &&& Transform::is_matrix_of(local_transform(after, g, n), lm)
                            &&& #[trigger] is_product_of(pm, lm, m)
                        };
                    law_global_matrix_reads_chain_only(before, after, g, p, pm);
                    assert(is_global_matrix(before, g, p, pm));
                }
            }
        },
        None => {},
    }
}

/// Resolves the global matrix of a node: the product of the local
/// transforms along its chain, from the root to the node. Nothing is cached:
/// every call walks the chain.
pub fn global_transform(store: &Store, graph: &SceneGraph, node: NodeIndex) -> (r: Result<
    Mat4,
    WorldError,
>)
    requires
        graph.wf(),
    ensures
        r.is_err() ==> resolve_failure(store@, graph@, node.0 as int) == Some(r.unwrap_err()),
        r.is_ok() ==> resolve_failure(store@, graph@, node.0 as int).is_none(),
        r.is_ok() ==> is_global_matrix(store@, graph@, node.0 as int, r.unwrap()),
    decreases node.0,
{
    let e = match graph.entity(node) {
        Some(e) => e,
        None => {
            return Err(WorldError::NotFound);
        },
    };
    if !store.contains(e) {
        return Err(WorldError::NotFound);
    }
    let local = match store.get::<Transform>(e) {
        Ok(t) => t.matrix(),
        Err(_) => {
            return Err(WorldError::MissingComponent);
        },
    };
    match graph.parent(node) {
        Some(p) => {
            assert(graph@[node.0 as int].parent == Some(p.0 as int));
            assert(is_node(graph@, node.0 as int));
            assert(p.0 < node.0);
            match global_transform(store, graph, p) {
                Ok(above) => Ok(mat4_mul(&above, &local)),
                Err(failure) => Err(failure),
            }
        },
        None => Ok(local),
    }
}

} // verus!
