//! The rule of the game, stated over the unbounded lattice.
//!
//! A world is a sequence of live sites, in which a site may occur more than
//! once. Everything here is specification: the executable step is held to it.

use vstd::prelude::*;
use crate::cell::Site;

verus! {

/// `a` and `b` are at most one apart along both axes.
pub open spec fn within_one(a: Site, b: Site) -> bool {
    -1 <= a.x - b.x <= 1 && -1 <= a.y - b.y <= 1
}

/// `a` and `b` are different sites that touch, by an edge or by a corner.
pub open spec fn adjacent(a: Site, b: Site) -> bool {
    within_one(a, b) && a != b
}

/// The number of entries of `live` that are adjacent to `site`. An entry that
/// occurs twice is counted twice; `site` itself is never counted.
pub open spec fn neighbor_count(live: Seq<Site>, site: Site) -> nat {
    live.filter(touching(site)).len()
}

/// The test that holds of the sites adjacent to `site`.
pub open spec fn touching(site: Site) -> spec_fn(Site) -> bool {
    |other: Site| adjacent(site, other)
}

/// The nine sites within one of `site`, column by column from the lower left.
pub open spec fn neighborhood(site: Site) -> Seq<Site> {
    Seq::new(9, |k: int| Site { x: site.x - 1 + k / 3, y: site.y - 1 + k % 3 })
}

/// The neighbourhoods of all entries of `live`, one after the other.
pub open spec fn neighborhoods(live: Seq<Site>) -> Seq<Site>
    decreases live.len(),
{
    if live.len() == 0 {
        Seq::empty()
    } else {
        neighborhoods(live.drop_last()) + neighborhood(live.last())
    }
}

/// `seen`, followed by the items that are not yet in it: each once, in the
/// order in which they first occur.
pub open spec fn with_new(seen: Seq<Site>, items: Seq<Site>) -> Seq<Site>
    decreases items.len(),
{
    if items.len() == 0 {
        seen
    } else {
        let so_far = with_new(seen, items.drop_last());
        if so_far.contains(items.last()) {
            so_far
        } else {
            so_far.push(items.last())
        }
    }
}

/// Every site that could be alive after a step: each live site and each of
/// its neighbours, once, in the order in which they are first met.
pub open spec fn candidates(live: Seq<Site>) -> Seq<Site> {
    with_new(Seq::empty(), neighborhoods(live))
}

/// The rule: a site is alive after the step if it has three neighbours, or
/// if it has two and is alive now.
pub open spec fn alive_next(live: Seq<Site>, site: Site) -> bool {
    let n = neighbor_count(live, site);
    n == 3 || (n == 2 && live.contains(site))
}

/// The world that follows `live`: the candidates that the rule keeps, in the
/// order of the candidates.
pub open spec fn next_generation(live: Seq<Site>) -> Seq<Site> {
    candidates(live).filter(keeps(live))
}

/// The test that holds of the sites that are alive after a step from `live`.
pub open spec fn keeps(live: Seq<Site>) -> spec_fn(Site) -> bool {
    |site: Site| alive_next(live, site)
}

/// Taking in two batches of items one after the other is taking in both at
/// once.
pub proof fn lemma_with_new_concat(seen: Seq<Site>, first: Seq<Site>, second: Seq<Site>)
    ensures
        with_new(seen, first + second) == with_new(with_new(seen, first), second),
    decreases second.len(),
{
    if second.len() == 0 {
        assert(first + second =~= first);
    } else {
        lemma_with_new_concat(seen, first, second.drop_last());
        assert((first + second).drop_last() =~= first + second.drop_last());
    }
}

/// What `with_new` gives holds exactly what was seen and what was taken in.
pub proof fn lemma_with_new_contains(seen: Seq<Site>, items: Seq<Site>, site: Site)
    ensures
        with_new(seen, items).contains(site) <==> seen.contains(site) || items.contains(site),
    decreases items.len(),
{
    if items.len() > 0 {
        let rest = items.drop_last();
        let so_far = with_new(seen, rest);
        lemma_with_new_contains(seen, rest, site);
        if items.contains(site) {
            let i = choose|i: int| 0 <= i < items.len() && items[i] == site;
            if i < rest.len() {
                assert(rest[i] == site);
            }
        }
        if rest.contains(site) {
            let i = choose|i: int| 0 <= i < rest.len() && rest[i] == site;
            assert(items[i] == site);
        }
        if !so_far.contains(items.last()) {
            let grown = so_far.push(items.last());
            assert(grown[so_far.len() as int] == items.last());
            if so_far.contains(site) {
                let i = choose|i: int| 0 <= i < so_far.len() && so_far[i] == site;
                assert(grown[i] == site);
            }
        }
    }
}

/// `with_new` repeats nothing, where nothing was repeated in what was seen.
pub proof fn lemma_with_new_distinct(seen: Seq<Site>, items: Seq<Site>)
    requires
        seen.no_duplicates(),
    ensures
        with_new(seen, items).no_duplicates(),
    decreases items.len(),
{
    if items.len() > 0 {
        lemma_with_new_distinct(seen, items.drop_last());
    }
}

/// The neighbourhood of a site holds exactly the sites within one of it.
pub proof fn lemma_neighborhood_contains(center: Site, site: Site)
    ensures
        neighborhood(center).contains(site) <==> within_one(center, site),
{
    let around = neighborhood(center);
    if within_one(center, site) {
        let k = 3 * (site.x - center.x + 1) + (site.y - center.y + 1);
        assert(around[k] == site);
    }
}

/// The neighbourhoods of a world hold exactly the sites within one of an
/// entry of it.
pub proof fn lemma_neighborhoods_contains(live: Seq<Site>, site: Site)
    ensures
        neighborhoods(live).contains(site) <==> exists|i: int|
            0 <= i < live.len() && within_one(#[trigger] live[i], site),
    decreases live.len(),
{
    if live.len() > 0 {
        let rest = live.drop_last();
        let before = neighborhoods(rest);
        let around = neighborhood(live.last());
        lemma_neighborhoods_contains(rest, site);
        lemma_neighborhood_contains(live.last(), site);
        if before.contains(site) {
            let k = choose|k: int| 0 <= k < before.len() && before[k] == site;
            assert((before + around)[k] == site);
            let i = choose|i: int| 0 <= i < rest.len() && within_one(#[trigger] rest[i], site);
            assert(within_one(live[i], site));
        }
        if around.contains(site) {
            let k = choose|k: int| 0 <= k < around.len() && around[k] == site;
            assert((before + around)[before.len() + k] == site);
            assert(within_one(live[live.len() - 1], site));
        }
        if exists|i: int| 0 <= i < live.len() && within_one(#[trigger] live[i], site) {
            let i = choose|i: int| 0 <= i < live.len() && within_one(#[trigger] live[i], site);
            if i < rest.len() {
                assert(within_one(rest[i], site));
            }
        }
    }
}

/// The candidates of a world are the sites within one of an entry of it, and
/// none of them is listed twice.
pub proof fn lemma_candidates(live: Seq<Site>, site: Site)
    ensures
        candidates(live).no_duplicates(),
        candidates(live).contains(site) <==> exists|i: int|
            0 <= i < live.len() && within_one(#[trigger] live[i], site),
{
    lemma_with_new_distinct(Seq::empty(), neighborhoods(live));
    lemma_with_new_contains(Seq::empty(), neighborhoods(live), site);
    lemma_neighborhoods_contains(live, site);
}

/// A site with a neighbour in the world is within one of an entry of it.
pub proof fn lemma_neighbor_is_near(live: Seq<Site>, site: Site)
    requires
        neighbor_count(live, site) > 0,
    ensures
        exists|i: int| 0 <= i < live.len() && within_one(#[trigger] live[i], site),
{
    let near = live.filter(touching(site));
    live.lemma_filter_pred(touching(site), 0);
    assert(near.contains(near[0]));
    live.lemma_filter_contains_rev(touching(site), near[0]);
    let i = choose|i: int| 0 <= i < live.len() && live[i] == near[0];
    assert(within_one(live[i], site));
}

/// Filtering repeats nothing, where nothing was repeated before.
pub proof fn lemma_filter_distinct(items: Seq<Site>, test: spec_fn(Site) -> bool)
    requires
        items.no_duplicates(),
    ensures
        items.filter(test).no_duplicates(),
    decreases items.len(),
{
    reveal(Seq::filter);
    if items.len() > 0 {
        let rest = items.drop_last();
        lemma_filter_distinct(rest, test);
        if rest.filter(test).contains(items.last()) {
            rest.lemma_filter_contains_rev(test, items.last());
        }
    }
}

/// After a step, the world lists no site twice, whatever it listed before.
pub proof fn lemma_next_generation_distinct(live: Seq<Site>)
    ensures
        next_generation(live).no_duplicates(),
{
    lemma_with_new_distinct(Seq::empty(), neighborhoods(live));
    lemma_filter_distinct(candidates(live), keeps(live));
}

/// After a step, the world holds exactly the sites that the rule keeps
/// alive or brings to life.
pub proof fn lemma_next_generation_contains(live: Seq<Site>, site: Site)
    ensures
        next_generation(live).contains(site) <==> alive_next(live, site),
{
    let checked = candidates(live);
    if next_generation(live).contains(site) {
        let next = next_generation(live);
        let i = choose|i: int| 0 <= i < next.len() && next[i] == site;
        checked.lemma_filter_pred(keeps(live), i);
    }
    if alive_next(live, site) {
        lemma_neighbor_is_near(live, site);
        lemma_candidates(live, site);
        let i = choose|i: int| 0 <= i < checked.len() && checked[i] == site;
        checked.lemma_filter_contains(keeps(live), i);
    }
}

/// An empty world stays empty.
pub proof fn lemma_empty_stays_empty()
    ensures
        next_generation(Seq::empty()) == Seq::<Site>::empty(),
{
    reveal(Seq::filter);
    assert(candidates(Seq::empty()) == Seq::<Site>::empty());
}

} // verus!
