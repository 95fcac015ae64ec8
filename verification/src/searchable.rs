//! Location Index: proximity matching on fixed-point coordinates.
//!
//! A query returns every base record whose latitude lies in the half-open
//! window `[latitude - tolerance, latitude + tolerance)` (or equals the query
//! latitude exactly, which the half-open upper bound would otherwise admit
//! only by luck) and whose longitude independently does the same — a
//! bounding-box approximation, not a radius test. The all-zero coordinate is
//! a sentinel for "no location data" and never matches anything.
//!
//! The matcher holds the base coordinates as a plain arena indexed by record
//! identity and scans it per query: coordinates are fixed-point integers
//! precisely so that window membership is exact integer arithmetic, with no
//! partially-ordered float keys to exclude.

use vstd::prelude::*;
use crate::models::{Entry, Location};

verus! {

/// Membership of `v` in the tolerance window around `center`: the half-open
/// range plus the exact centre value.
pub open spec fn in_window(center: int, tol: int, v: int) -> bool {
    (center - tol <= v && v < center + tol) || v == center
}

/// Exec window test; `i128` arithmetic keeps the bounds exact for any `i64`
/// centre and tolerance.
pub fn within_window(center: i64, tol: i64, v: i64) -> (r: bool)
    ensures
        r == in_window(center as int, tol as int, v as int),
{
    let lo: i128 = center as i128 - tol as i128;
    let hi: i128 = center as i128 + tol as i128;
    (lo <= v as i128 && (v as i128) < hi) || v == center
}

/// Alternate matcher keyed on the base records' coordinates.
#[derive(Debug)]
pub struct LocationMatcher {
    pub locations: Vec<Location>,
}

/// The matches for `query` among the first `upto` of the base coordinates
/// `locs`, in identity order.
pub open spec fn loc_matches_prefix(locs: Seq<Location>, query: Location, tol: int, upto: int) -> Seq<
    usize,
>
    decreases upto,
{
    if upto <= 0 {
        Seq::empty()
    } else {
        let rest = loc_matches_prefix(locs, query, tol, upto - 1);
        if in_window(query.latitude as int, tol, locs[upto - 1].latitude as int) && in_window(
            query.longitude as int,
            tol,
            locs[upto - 1].longitude as int,
        ) {
            rest.push((upto - 1) as usize)
        } else {
            rest
        }
    }
}

/// The full query result over the base coordinates `locs`: empty for the
/// zero-coordinate sentinel, else every record within the tolerance window in
/// both dimensions.
pub open spec fn loc_find_spec(locs: Seq<Location>, query: Location, tol: int) -> Seq<usize> {
    if query.latitude == 0 && query.longitude == 0 {
        Seq::empty()
    } else {
        loc_matches_prefix(locs, query, tol, locs.len() as int)
    }
}

proof fn lemma_loc_prefix_characterization(locs: Seq<Location>, query: Location, tol: int, upto: int)
requires
    0 <= upto <= locs.len(),
    locs.len() <= usize::MAX,
    ensures
        forall|id: usize|
            #[trigger] loc_matches_prefix(locs, query, tol, upto).contains(id) <==> (id < upto
                && in_window(
                query.latitude as int,
                tol,
                locs[id as int].latitude as int,
            ) && in_window(
                query.longitude as int,
                tol,
                locs[id as int].longitude as int,
            )),
        forall|p1: int, p2: int|
            0 <= p1 < p2 < loc_matches_prefix(locs, query, tol, upto).len()
                ==> loc_matches_prefix(locs, query, tol, upto)[p1] < loc_matches_prefix(
                locs,
                query,
                tol,
                upto,
            )[p2],
        forall|p: int|
            0 <= p < loc_matches_prefix(locs, query, tol, upto).len() ==> loc_matches_prefix(
                locs,
                query,
                tol,
                upto,
            )[p] < upto,
    decreases upto,
{
    if upto > 0 {
        lemma_loc_prefix_characterization(locs, query, tol, upto - 1);
        let rest = loc_matches_prefix(locs, query, tol, upto - 1);
        let cur = loc_matches_prefix(locs, query, tol, upto);
        let matched = in_window(
            query.latitude as int,
            tol,
            locs[upto - 1].latitude as int,
        ) && in_window(query.longitude as int, tol, locs[upto - 1].longitude as int);
        if matched {
            assert(cur == rest.push((upto - 1) as usize));
            assert forall|p1: int, p2: int| 0 <= p1 < p2 < cur.len() implies cur[p1]
                < cur[p2] by {
                if p2 == cur.len() - 1 {
                    assert(cur[p1] == rest[p1]);
                    assert(rest[p1] < upto - 1);
                    assert(cur[p2] == (upto - 1) as usize);
                } else {
                    assert(cur[p1] == rest[p1] && cur[p2] == rest[p2]);
                }
            }
        } else {
            assert(cur == rest);
        }
        assert forall|id: usize| #[trigger] cur.contains(id) implies (id < upto && in_window(
            query.latitude as int,
            tol,
            locs[id as int].latitude as int,
        ) && in_window(
            query.longitude as int,
            tol,
            locs[id as int].longitude as int,
        )) by {
            let p = choose|p: int| 0 <= p < cur.len() && cur[p] == id;
            if p < rest.len() {
                assert(rest[p] == id);
                assert(rest.contains(id));
            } else {
                assert(matched);
                assert(id == (upto - 1) as usize);
            }
        }
        assert forall|id: usize|
            (id < upto && in_window(
                query.latitude as int,
                tol,
                locs[id as int].latitude as int,
            ) && in_window(
                query.longitude as int,
                tol,
                locs[id as int].longitude as int,
            )) implies #[trigger] cur.contains(id) by {
            if id < upto - 1 {
                assert(rest.contains(id));
                let p = choose|p: int| 0 <= p < rest.len() && rest[p] == id;
                assert(cur[p] == id);
            } else {
                assert(cur[cur.len() - 1] == id);
            }
        }
    }
}

/// Membership in a query result over the base coordinates `locs`: exactly
/// the identities close to the query in both dimensions (none for the
/// sentinel), each at most once and in increasing identity order.
pub proof fn lemma_loc_find_characterization(locs: Seq<Location>, query: Location, tol: int)
    requires
        locs.len() <= usize::MAX,
    ensures
        forall|id: usize|
            #[trigger] loc_find_spec(locs, query, tol).contains(id) <==> (!(query.latitude == 0
                && query.longitude == 0) && id < locs.len() && in_window(
                query.latitude as int,
                tol,
                locs[id as int].latitude as int,
            ) && in_window(query.longitude as int, tol, locs[id as int].longitude as int)),
        forall|p1: int, p2: int|
            0 <= p1 < p2 < loc_find_spec(locs, query, tol).len() ==> loc_find_spec(
                locs,
                query,
                tol,
            )[p1] < loc_find_spec(locs, query, tol)[p2],
{
    if !(query.latitude == 0 && query.longitude == 0) {
        lemma_loc_prefix_characterization(locs, query, tol, locs.len() as int);
    }
}

impl LocationMatcher {
    /// The full query result against this matcher's base coordinates.
    pub open spec fn find_spec(self, query: Location, tol: int) -> Seq<usize> {
        loc_find_spec(self.locations@, query, tol)
    }

    /// Membership in the query result: exactly the identities close to the
    /// query in both dimensions (none for the sentinel), each at most once
    /// and in increasing identity order.
    pub proof fn lemma_find_characterization(self, query: Location, tol: int)
        ensures
            forall|id: usize|
                #[trigger] self.find_spec(query, tol).contains(id) <==> (!(query.latitude == 0
                    && query.longitude == 0) && id < self.locations@.len() && in_window(
                    query.latitude as int,
                    tol,
                    self.locations@[id as int].latitude as int,
                ) && in_window(
                    query.longitude as int,
                    tol,
                    self.locations@[id as int].longitude as int,
                )),
            forall|p1: int, p2: int|
                0 <= p1 < p2 < self.find_spec(query, tol).len() ==> self.find_spec(query, tol)[p1]
                    < self.find_spec(query, tol)[p2],
    {
        assert(vstd::std_specs::vec::spec_vec_len(&self.locations) == self.locations@.len());
        lemma_loc_find_characterization(self.locations@, query, tol);
    }

    /// Builds the matcher from the base records, retaining only their
    /// coordinates; record content is never copied.
    pub fn new(payloads: &Vec<Entry>) -> (r: LocationMatcher)
        ensures
            r.locations@.len() == payloads@.len(),
            forall|i: int|
                0 <= i < payloads@.len() ==> (#[trigger] r.locations@[i]) == payloads@[i].location,
    {
        let mut locations: Vec<Location> = Vec::new();
        let mut i: usize = 0;
        while i < payloads.len()
            invariant
                0 <= i <= payloads@.len(),
                locations@.len() == i,
                forall|j: int|
                    0 <= j < i ==> (#[trigger] locations@[j]) == payloads@[j].location,
            decreases payloads@.len() - i,
        {
            locations.push(payloads[i].location);
            i = i + 1;
        }
        LocationMatcher { locations }
    }

    /// Finds every base record within `acceptable_noise` of the query
    /// location in both dimensions independently. The zero coordinate is
    /// junk data and returns no matches at all.
    pub fn find_matches(&self, location: &Location, acceptable_noise: i64) -> (r: Vec<usize>)
        ensures
            r@ == self.find_spec(*location, acceptable_noise as int),
            location.latitude == 0 && location.longitude == 0 ==> r@ == Seq::<usize>::empty(),
            forall|id: usize|
                #[trigger] r@.contains(id) <==> (!(location.latitude == 0 && location.longitude
                    == 0) && id < self.locations@.len() && in_window(
                    location.latitude as int,
                    acceptable_noise as int,
                    self.locations@[id as int].latitude as int,
                ) && in_window(
                    location.longitude as int,
                    acceptable_noise as int,
                    self.locations@[id as int].longitude as int,
                )),
            forall|p1: int, p2: int| 0 <= p1 < p2 < r@.len() ==> r@[p1] < r@[p2],
    {
        proof {
            self.lemma_find_characterization(*location, acceptable_noise as int);
        }
        let mut r: Vec<usize> = Vec::new();
        if location.latitude == 0 && location.longitude == 0 {
            return r;
        }
        let mut i: usize = 0;
        while i < self.locations.len()
            invariant
                0 <= i <= self.locations@.len(),
                r@ == loc_matches_prefix(self.locations@, *location, acceptable_noise as int, i as int),
            decreases self.locations@.len() - i,
        {
            let lat_ok = within_window(
                location.latitude,
                acceptable_noise,
                self.locations[i].latitude,
            );
            let long_ok = within_window(
                location.longitude,
                acceptable_noise,
                self.locations[i].longitude,
            );
            if lat_ok && long_ok {
                r.push(i);
            }
            i = i + 1;
        }
        proof {
            assert(r@ == self.find_spec(*location, acceptable_noise as int));
        }
        r
    }
}

/// Location symmetry: if `b` lies within the tolerance window of `a` in both
/// dimensions, then `a` lies within the window of `b` in both dimensions.
/// The window is symmetric everywhere but at its exact lower edge, which the
/// half-open range keeps and the mirrored range drops; coordinates sitting
/// precisely at `centre - tolerance` are therefore excluded here.
pub proof fn lemma_window_symmetry(a: Location, b: Location, tol: int)
    requires
        in_window(a.latitude as int, tol, b.latitude as int),
        in_window(a.longitude as int, tol, b.longitude as int),
        b.latitude != a.latitude - tol || b.latitude == a.latitude,
        b.longitude != a.longitude - tol || b.longitude == a.longitude,
    ensures
        in_window(b.latitude as int, tol, a.latitude as int),
        in_window(b.longitude as int, tol, a.longitude as int),
{
}

} // verus!
