use vstd::prelude::*;

verus! {

/// An ordered collection of surfaces, searched front to back by a ray.
///
/// Surfaces are added while a scene is built and only read while it is
/// rendered; a render works on a snapshot of the world.
#[derive(Clone)]
pub struct World<T> {
    objects: Vec<T>,
}

impl<T> View for World<T> {
    type V = Seq<T>;

    /// The surfaces of the world, in insertion order.
    closed spec fn view(&self) -> Seq<T> {
        self.objects@
    }
}

impl<T> World<T> {
    /// An empty world.
    pub fn new() -> (w: World<T>)
        ensures
            w@ == Seq::<T>::empty(),
    {
        World { objects: Vec::new() }
    }

    /// A world holding a single surface.
    pub fn from(object: T) -> (w: World<T>)
        ensures
            w@ == seq![object],
    {
        let mut objects = Vec::new();
        objects.push(object);
        proof {
            assert(objects@ =~= seq![object]);
        }
        World { objects }
    }

    /// Removes every surface.
    pub fn clear(&mut self)
        ensures
            final(self)@ == Seq::<T>::empty(),
    {
        self.objects.clear();
    }

    /// Appends a surface after those already present.
    pub fn push(&mut self, object: T)
        ensures
            final(self)@ == old(self)@.push(object),
    {
        self.objects.push(object);
    }

    /// Number of surfaces in the world.
    pub fn len(&self) -> (n: usize)
        ensures
            n == self@.len(),
    {
        self.objects.len()
    }

    /// Whether the world holds no surface.
    pub fn is_empty(&self) -> (b: bool)
        ensures
            b == (self@.len() == 0),
    {
        self.objects.len() == 0
    }

    /// The surface at position `i` in insertion order.
    pub fn get(&self, i: usize) -> (o: &T)
        requires
            i < self@.len(),
        ensures
            *o == self@[i as int],
    {
        &self.objects[i]
    }

    /// Nearest hit of a ray against the world.
    ///
    /// `hit_within(surface, best)` tests one surface against the ray, with its
    /// search window closed at the parameter of `best`, the nearest hit found so
    /// far (or left open when there is none). Surfaces are tested in insertion
    /// order; a surface that reports a hit becomes the new best, so the window
    /// shrinks as the scan goes and the result is the hit reported last.
    pub fn hit<H, F>(&self, hit_within: F) -> (r: Option<H>)
        where
            F: Fn(&T, &Option<H>) -> Option<H>,
        requires
            forall|o: &T, best: &Option<H>| #[trigger] hit_within.requires((o, best)),
        ensures
            exists|trail: Seq<Option<H>>|
                is_scan_trail(self@, hit_within, trail) && r == trail.last(),
    {
        let mut best: Option<H> = None;
        let ghost mut trail: Seq<Option<H>> = seq![None];
        let n = self.objects.len();
        let mut i: usize = 0;
        while i < n
            invariant
                n == self@.len(),
                0 <= i <= n,
                forall|o: &T, b: &Option<H>| #[trigger] hit_within.requires((o, b)),
                trail.len() == i + 1,
                trail[0] is None,
                best == trail.last(),
                forall|k: int|
                    0 <= k < i ==> #[trigger] scan_link(self@[k], hit_within, trail[k], trail[k + 1]),
            decreases n - i,
        {
            let found = hit_within(&self.objects[i], &best);
            proof {
                let next = keep_nearest(best, found);
                assert(scan_link(self@[i as int], hit_within, best, next));
                trail = trail.push(next);
            }
            best = match found {
                Some(h) => Some(h),
                None => best,
            };
            i = i + 1;
        }
        proof {
            assert(is_scan_trail(self@, hit_within, trail));
        }
        best
    }

}

/// The best hit after one more surface was tested: the surface's own hit when
/// it reported one, else the earlier best.
pub open spec fn keep_nearest<H>(best: Option<H>, found: Option<H>) -> Option<H> {
    if found is Some {
        found
    } else {
        best
    }
}

/// One step of a scan: testing `object` with the best hit `before` may give
/// the best hit `after`.
pub open spec fn scan_link<T, H, F: Fn(&T, &Option<H>) -> Option<H>>(
    object: T,
    hit_within: F,
    before: Option<H>,
    after: Option<H>,
) -> bool {
    exists|found: Option<H>|
        hit_within.ensures((&object, &before), found) && after == keep_nearest(before, found)
}

/// `trail` records a possible scan over `objects`: its entry `i` is the best
/// hit after the first `i` surfaces were tested, starting from no hit.
pub open spec fn is_scan_trail<T, H, F: Fn(&T, &Option<H>) -> Option<H>>(
    objects: Seq<T>,
    hit_within: F,
    trail: Seq<Option<H>>,
) -> bool {
    &&& trail.len() == objects.len() + 1
    &&& trail[0] is None
    &&& forall|k: int|
        0 <= k < objects.len() ==> #[trigger] scan_link(objects[k], hit_within, trail[k], trail[k + 1])
}

/// `r` is the nearest of the hits that `own` gives the surfaces `objects`,
/// measured by `dist`, and the first of equally near ones; `None` exactly when
/// no surface has a hit.
pub open spec fn is_nearest_hit<T, H>(
    objects: Seq<T>,
    own: spec_fn(T) -> Option<H>,
    dist: spec_fn(H) -> int,
    r: Option<H>,
) -> bool {
    match r {
        None => forall|k: int| 0 <= k < objects.len() ==> #[trigger] own(objects[k]) is None,
        Some(h) => exists|j: int|
            {
                &&& 0 <= j < objects.len()
                &&& own(objects[j]) == Some(h)
                &&& forall|k: int|
                    0 <= k < objects.len() && #[trigger] own(objects[k]) is Some ==> dist(h) <= dist(
                        own(objects[k])->0,
                    )
                &&& forall|k: int|
                    0 <= k < j && #[trigger] own(objects[k]) is Some ==> dist(h) < dist(
                        own(objects[k])->0,
                    )
            },
    }
}

/// `hit_within` tests a surface against a window closed at the best hit so
/// far: it reports the surface's own hit `own(o)` exactly when there is one
/// and it is nearer, by `dist`, than the best.
pub open spec fn respects_window<T, H, F: Fn(&T, &Option<H>) -> Option<H>>(
    hit_within: F,
    own: spec_fn(T) -> Option<H>,
    dist: spec_fn(H) -> int,
) -> bool {
    forall|o: T, best: Option<H>, found: Option<H>| #[trigger]
        hit_within.ensures((&o, &best), found) ==> found == (if own(o) is Some && (best is None
            || dist(own(o)->0) < dist(best->0)) {
            own(o)
        } else {
            None
        })
}

/// Scanning a world gives the same hit as testing each surface alone and
/// keeping the nearest, the first of equally near ones, provided each
/// surface's test reports its own hit exactly when it is nearer than the best
/// hit so far.
pub proof fn lemma_scan_finds_nearest<T, H, F: Fn(&T, &Option<H>) -> Option<H>>(
    objects: Seq<T>,
    hit_within: F,
    own: spec_fn(T) -> Option<H>,
    dist: spec_fn(H) -> int,
    trail: Seq<Option<H>>,
)
    requires
        is_scan_trail(objects, hit_within, trail),
        respects_window(hit_within, own, dist),
    ensures
        is_nearest_hit(objects, own, dist, trail.last()),
{
    lemma_scan_prefix(objects, hit_within, own, dist, trail, objects.len() as int);
    assert(objects.take(objects.len() as int) =~= objects);
}

/// After the first `i` surfaces the scan holds the nearest hit among them.
proof fn lemma_scan_prefix<T, H, F: Fn(&T, &Option<H>) -> Option<H>>(
    objects: Seq<T>,
    hit_within: F,
    own: spec_fn(T) -> Option<H>,
    dist: spec_fn(H) -> int,
    trail: Seq<Option<H>>,
    i: int,
)
    requires
        is_scan_trail(objects, hit_within, trail),
        respects_window(hit_within, own, dist),
        0 <= i <= objects.len(),
    ensures
        is_nearest_hit(objects.take(i), own, dist, trail[i]),
    decreases i,
{
    if i > 0 {
        lemma_scan_prefix(objects, hit_within, own, dist, trail, i - 1);
        let before = objects.take(i - 1);
        let now = objects.take(i);
        let o = objects[i - 1];
        let k = i - 1;
        assert(scan_link(objects[k], hit_within, trail[k], trail[k + 1]));
        assert(k + 1 == i);
        let found = choose|found: Option<H>|
            #[trigger] hit_within.ensures((&o, &trail[i - 1]), found) && trail[i] == keep_nearest(
                trail[i - 1],
                found,
            );
        assert(hit_within.ensures((&o, &trail[i - 1]), found));
        assert(forall|k: int| 0 <= k < i - 1 ==> now[k] == before[k]);
        assert(now[i - 1] == o);
        match trail[i - 1] {
            None => {
                if own(o) is Some {
                    assert(trail[i] == own(o));
                    assert(forall|k: int|
                        0 <= k < i - 1 ==> #[trigger] own(now[k]) == own(before[k]));
                } else {
                    assert(trail[i] is None);
                    assert forall|k: int| 0 <= k < now.len() implies #[trigger] own(
                        now[k],
                    ) is None by {
                        if k < i - 1 {
                            assert(own(before[k]) is None);
                        }
                    }
                }
            },
            Some(b) => {
                let j = choose|j: int|
                    {
                        &&& 0 <= j < before.len()
                        &&& own(before[j]) == Some(b)
                        &&& forall|k: int|
                            0 <= k < before.len() && #[trigger] own(before[k]) is Some ==> dist(b)
                                <= dist(own(before[k])->0)
                        &&& forall|k: int|
                            0 <= k < j && #[trigger] own(before[k]) is Some ==> dist(b) < dist(
                                own(before[k])->0,
                            )
                    };
                if own(o) is Some && dist(own(o)->0) < dist(b) {
                    let h = own(o)->0;
                    assert(trail[i] == Some(h));
                    assert forall|k: int|
                        0 <= k < now.len() && #[trigger] own(now[k]) is Some implies dist(h) <= dist(
                            own(now[k])->0,
                        ) by {
                        if k < i - 1 {
                            assert(own(before[k]) is Some);
                        }
                    }
                    assert forall|k: int|
                        0 <= k < i - 1 && #[trigger] own(now[k]) is Some implies dist(h) < dist(
                            own(now[k])->0,
                        ) by {
                        assert(own(before[k]) is Some);
                    }
                    assert(own(now[i - 1]) == Some(h));
                } else {
                    assert(trail[i] == Some(b));
                    assert(own(now[j]) == Some(b));
                    assert forall|k: int|
                        0 <= k < now.len() && #[trigger] own(now[k]) is Some implies dist(b) <= dist(
                            own(now[k])->0,
                        ) by {
                        if k < i - 1 {
                            assert(own(before[k]) is Some);
                        }
                    }
                    assert forall|k: int|
                        0 <= k < j && #[trigger] own(now[k]) is Some implies dist(b) < dist(
                            own(now[k])->0,
                        ) by {
                        assert(own(before[k]) is Some);
                    }
                }
            },
        }
    }
}

} // verus!
