use vstd::prelude::*;

verus! {

// Ray parameters are carried as order keys: unsigned integers that order
// as the parameters themselves do, so that the choice of the nearest hit
// is made on plain values.

/// `t` is one of the roots of sphere `i` and lies strictly inside `(t_min, t_max)`.
pub open spec fn eligible(roots: Seq<Option<(u64, u64)>>, i: int, t: u64, t_min: u64, t_max: u64) -> bool {
    &&& 0 <= i < roots.len()
    &&& roots[i] is Some
    &&& ((roots[i]->0).0 == t || (roots[i]->0).1 == t)
    &&& t_min < t < t_max
}

/// Sphere `i` has an eligible root.
pub open spec fn has_eligible(roots: Seq<Option<(u64, u64)>>, i: int, t_min: u64, t_max: u64) -> bool {
    &&& 0 <= i < roots.len()
    &&& roots[i] is Some
    &&& (t_min < (roots[i]->0).0 < t_max || t_min < (roots[i]->0).1 < t_max)
}

/// `(i, t)` is the nearest hit: `t` is an eligible root of sphere `i`, no
/// eligible root of any sphere is smaller, and no earlier sphere has an
/// eligible root equal to it.
pub open spec fn is_closest(
    roots: Seq<Option<(u64, u64)>>,
    i: int,
    t: u64,
    t_min: u64,
    t_max: u64,
) -> bool {
    &&& eligible(roots, i, t, t_min, t_max)
    &&& forall|j: int, u: u64| #[trigger] eligible(roots, j, u, t_min, t_max) ==> t <= u
    &&& forall|j: int, u: u64| j < i && #[trigger] eligible(roots, j, u, t_min, t_max) ==> t < u
}

/// What the scan of the first `i` spheres has found: nothing where none of
/// them has an eligible root, else the nearest hit among them.
spec fn scanned(
    roots: Seq<Option<(u64, u64)>>,
    i: int,
    best: Option<(usize, u64)>,
    t_min: u64,
    t_max: u64,
) -> bool {
    &&& best is None <==> forall|j: int| 0 <= j < i ==> !has_eligible(roots, j, t_min, t_max)
    &&& best matches Some((k, t)) ==> {
        &&& eligible(roots, k as int, t, t_min, t_max)
        &&& k < i
        &&& forall|j: int, u: u64| j < i && #[trigger] eligible(roots, j, u, t_min, t_max) ==> t <= u
        &&& forall|j: int, u: u64| j < k && #[trigger] eligible(roots, j, u, t_min, t_max) ==> t < u
    }
}

proof fn lemma_scan_step(
    roots: Seq<Option<(u64, u64)>>,
    i: int,
    prev: Option<(usize, u64)>,
    best: Option<(usize, u64)>,
    t_min: u64,
    t_max: u64,
)
    requires
        0 <= i < roots.len(),
        scanned(roots, i, prev, t_min, t_max),
        prev is Some ==> best is Some,
        best is None ==> !has_eligible(roots, i, t_min, t_max),
        best is Some && prev is None ==> (best->0).0 == i,
        best matches Some((k, t)) ==> eligible(roots, k as int, t, t_min, t_max) && (k == i || best
            == prev),
        best matches Some((k, t)) ==> prev matches Some((k0, t0)) ==> t <= t0 && (k != k0 ==> t
            < t0),
        forall|u: u64| #[trigger]
            eligible(roots, i, u, t_min, t_max) ==> (best matches Some((k, t)) && t <= u),
    ensures
        scanned(roots, i + 1, best, t_min, t_max),
{
    if best is None {
        assert forall|j: int| 0 <= j < i + 1 implies !has_eligible(roots, j, t_min, t_max) by {
            if j < i {
            }
        }
    } else {
        let (k, t) = best->0;
        if prev is None {
            assert(has_eligible(roots, i, t_min, t_max));
        } else {
            let (k0, t0) = prev->0;
            assert(has_eligible(roots, k0 as int, t_min, t_max));
        }
        assert forall|j: int, u: u64|
            j < i + 1 && #[trigger] eligible(roots, j, u, t_min, t_max) implies t <= u by {
            if j < i {
                assert(has_eligible(roots, j, t_min, t_max));
                let (k0, t0) = prev->0;
                assert(t0 <= u);
            }
        }
        assert forall|j: int, u: u64| j < k && #[trigger] eligible(roots, j, u, t_min, t_max) implies t
            < u by {
            assert(has_eligible(roots, j, t_min, t_max));
            if prev is Some {
                let (k0, t0) = prev->0;
                if j < k0 {
                    assert(t0 < u);
                } else {
                    assert(t0 <= u);
                }
            }
        }
    }
}

/// Picks the nearest hit among the spheres' roots (`None` where a sphere is
/// missed): the smallest root strictly inside `(t_min, t_max)`, with the
/// sphere it belongs to; on equal roots the earlier sphere wins.
pub fn closest_root(roots: &Vec<Option<(u64, u64)>>, t_min: u64, t_max: u64) -> (r: Option<(usize, u64)>)
    ensures
        r is None <==> forall|j: int| 0 <= j < roots@.len() ==> !has_eligible(roots@, j, t_min, t_max),
        r matches Some((i, t)) ==> is_closest(roots@, i as int, t, t_min, t_max),
{
    let mut best: Option<(usize, u64)> = None;
    let mut i: usize = 0;
    while i < roots.len()
        invariant
            0 <= i <= roots@.len(),
            scanned(roots@, i as int, best, t_min, t_max),
        decreases roots@.len() - i,
    {
        let ghost prev = best;
        if let Some((t1, t2)) = roots[i] {
            if t_min < t1 && t1 < t_max {
                match best {
                    Some((_, t)) if t1 >= t => {},
                    _ => {
                        best = Some((i, t1));
                    },
                }
            }
            if t_min < t2 && t2 < t_max {
                match best {
                    Some((_, t)) if t2 >= t => {},
                    _ => {
                        best = Some((i, t2));
                    },
                }
            }
            proof {
                assert(roots@[i as int] == Some((t1, t2)));
                lemma_scan_step(roots@, i as int, prev, best, t_min, t_max);
            }
        } else {
            proof {
                lemma_scan_step(roots@, i as int, prev, best, t_min, t_max);
            }
        }
        i = i + 1;
    }
    best
}

/// Which terms of one light a hit point receives. Diffuse light is counted
/// whether or not the light is blocked; specular light only when the light
/// reaches the point and the surface is specular.
#[derive(Clone, Copy, Debug, PartialEq, Eq, Structural)]
pub struct LightTerms {
    pub diffuse: bool,
    pub specular: bool,
}

/// The terms that a light gives: diffuse always, specular only when unblocked
/// on a specular surface.
pub open spec fn terms_of(occluded: bool, specular_surface: bool) -> LightTerms {
    LightTerms { diffuse: true, specular: !occluded && specular_surface }
}

/// The terms of a light that a hit point receives.
pub fn light_terms(occluded: bool, specular_surface: bool) -> (r: LightTerms)
    ensures
        r == terms_of(occluded, specular_surface),
{
    LightTerms { diffuse: true, specular: !occluded && specular_surface }
}

/// Blocking a light takes away its specular term and leaves its diffuse
/// term as it was.
pub proof fn lemma_occluder_blocks_specular_only(specular_surface: bool)
    ensures
        !terms_of(true, specular_surface).specular,
        terms_of(true, specular_surface).diffuse == terms_of(false, specular_surface).diffuse,
        terms_of(false, specular_surface).specular == specular_surface,
{
}

} // verus!
