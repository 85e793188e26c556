//! What the drawing of gamma zones promises, stated on prices, frames and heights.
use vstd::prelude::*;
use crate::chart::kline::gex_zones;
use crate::chart::kline::gex_zones::{
    FrameSight, GexZone, GexZoneFrame, ZoneKeyParts, ZonePlace, ZoneStep,
};
use crate::chart::kline::proxy_rails::GexMarker;
use crate::units::{Bits32, Bits64};

verus! {

/// A zone reaches into a range of prices where it does not end below and not begin above it,
/// and holds a price between its ends. Prices are figures at least zero.
pub proof fn zones_lie_between_their_ends(zone: GexZone, low: Bits64, high: Bits64)
    requires
        zone.lower_price.bits <= 0x7ff0_0000_0000_0000,
        zone.upper_price.bits <= 0x7ff0_0000_0000_0000,
        low.bits <= 0x7ff0_0000_0000_0000,
        high.bits <= 0x7ff0_0000_0000_0000,
    ensures
        zone.reaches(low, high) <==> low.bits <= zone.upper_price.bits && zone.lower_price.bits
            <= high.bits,
        zone.holds(low) <==> zone.lower_price.bits <= low.bits <= zone.upper_price.bits,
{
}

proof fn lemma_visible(frame: int, zones: Seq<GexZone>, low: Bits64, high: Bits64)
    requires
        0 <= frame <= usize::MAX,
        zones.len() <= usize::MAX,
    ensures
        forall|place: ZonePlace| #[trigger]
            gex_zones::visible_zones(frame, zones, low, high).contains(place) <==> {
                &&& place.frame == frame
                &&& place.zone < zones.len()
                &&& zones[place.zone as int].reaches(low, high)
            },
        forall|a: int, b: int|
            0 <= a < b < gex_zones::visible_zones(frame, zones, low, high).len() ==> (
            #[trigger] gex_zones::visible_zones(frame, zones, low, high)[a]).zone < (
            #[trigger] gex_zones::visible_zones(frame, zones, low, high)[b]).zone,
    decreases zones.len(),
{
    let all = gex_zones::visible_zones(frame, zones, low, high);
    if zones.len() > 0 {
        let front = zones.drop_last();
        let last = zones.len() - 1;
        lemma_visible(frame, front, low, high);
        let head = gex_zones::visible_zones(frame, front, low, high);
        let fresh = ZonePlace { frame: frame as usize, zone: last as usize };
        assert(zones[last] == zones.last());
        assert(forall|i: int| 0 <= i < last ==> #[trigger] front[i] == zones[i]);
        assert forall|place: ZonePlace| #[trigger] all.contains(place) <==> {
            &&& place.frame == frame
            &&& place.zone < zones.len()
            &&& zones[place.zone as int].reaches(low, high)
        } by {
            if head.contains(place) {
                let k = choose|k: int| 0 <= k < head.len() && head[k] == place;
                assert(all[k] == place);
            }
            if zones.last().reaches(low, high) {
                assert(all[all.len() - 1] == fresh);
            }
            if all.contains(place) {
                let k = choose|k: int| 0 <= k < all.len() && all[k] == place;
                if k < head.len() {
                    assert(head[k] == place);
                }
            }
            if place.zone < last {
                assert(front[place.zone as int] == zones[place.zone as int]);
            }
        }
        assert forall|a: int, b: int| 0 <= a < b < all.len() implies (#[trigger] all[a]).zone < (
        #[trigger] all[b]).zone by {
            assert(all[a] == head[a]);
            if b < head.len() {
                assert(all[b] == head[b]);
            } else {
                assert(head.contains(head[a]));
            }
        }
    } else {
        assert(all.len() == 0);
    }
}

/// Exactly the zones are drawn that reach into the visible prices, of the frames that are
/// seen.
pub proof fn visible_zones_are_drawn(
    frames: Seq<GexZoneFrame>,
    sights: Seq<FrameSight>,
    low: Bits64,
    high: Bits64,
)
    requires
        sights.len() >= frames.len(),
        frames.len() <= usize::MAX,
        forall|i: int| 0 <= i < frames.len() ==> (#[trigger] frames[i]).zones@.len() <= usize::MAX,
    ensures
        forall|place: ZonePlace| #[trigger]
            gex_zones::drawn_zones(frames, sights, low, high).contains(place) <==> {
                &&& place.frame < frames.len()
                &&& sights[place.frame as int].seen
                &&& place.zone < frames[place.frame as int].zones@.len()
                &&& frames[place.frame as int].zones@[place.zone as int].reaches(low, high)
            },
    decreases frames.len(),
{
    let all = gex_zones::drawn_zones(frames, sights, low, high);
    if frames.len() > 0 {
        let front = frames.drop_last();
        let last = frames.len() - 1;
        assert(forall|i: int| 0 <= i < last ==> #[trigger] front[i] == frames[i]);
        assert forall|i: int| 0 <= i < front.len() implies (#[trigger] front[i]).zones@.len()
            <= usize::MAX by {
            assert(frames[i].zones@.len() <= usize::MAX);
        }
        visible_zones_are_drawn(front, sights, low, high);
        assert(frames[last].zones@.len() <= usize::MAX);
        lemma_visible(last, frames[last].zones@, low, high);
        let head = gex_zones::drawn_zones(front, sights, low, high);
        let tail = gex_zones::visible_zones(last, frames[last].zones@, low, high);
        assert forall|place: ZonePlace| #[trigger] all.contains(place) <==> {
            &&& place.frame < frames.len()
            &&& sights[place.frame as int].seen
            &&& place.zone < frames[place.frame as int].zones@.len()
            &&& frames[place.frame as int].zones@[place.zone as int].reaches(low, high)
        } by {
            if sights[last].seen {
                lemma_contains_add(head, tail, place);
            }
            assert(tail.contains(place) <==> {
                &&& place.frame == last
                &&& place.zone < frames[last].zones@.len()
                &&& frames[last].zones@[place.zone as int].reaches(low, high)
            });
            if place.frame < last {
                assert(front[place.frame as int] == frames[place.frame as int]);
            }
            assert(head.contains(place) <==> {
                &&& place.frame < front.len()
                &&& sights[place.frame as int].seen
                &&& place.zone < front[place.frame as int].zones@.len()
                &&& front[place.frame as int].zones@[place.zone as int].reaches(low, high)
            });
        }
    }
}

proof fn lemma_contains_add<T>(a: Seq<T>, b: Seq<T>, x: T)
    ensures
        (a + b).contains(x) <==> a.contains(x) || b.contains(x),
{
    let all = a + b;
    if a.contains(x) {
        let i = choose|i: int| 0 <= i < a.len() && a[i] == x;
        assert(all[i] == x);
    }
    if b.contains(x) {
        let i = choose|i: int| 0 <= i < b.len() && b[i] == x;
        assert(all[a.len() + i] == x);
    }
    if all.contains(x) {
        let i = choose|i: int| 0 <= i < all.len() && all[i] == x;
        if i < a.len() {
            assert(a[i] == x);
        } else {
            assert(b[i - a.len()] == x);
        }
    }
}

/// A zone is found by its id: the first one that has it.
pub proof fn zones_are_found_by_id(zones: Seq<GexZone>, id: u64)
    requires
        zones.len() <= usize::MAX,
    ensures
        match gex_zones::zone_with_id(zones, id) {
            Some(at) => at < zones.len() && zones[at as int].id == id && forall|i: int|
                0 <= i < at ==> (#[trigger] zones[i]).id != id,
            None => forall|i: int| 0 <= i < zones.len() ==> (#[trigger] zones[i]).id != id,
        },
    decreases zones.len(),
{
    if zones.len() > 0 {
        let front = zones.drop_last();
        zones_are_found_by_id(front, id);
        assert(zones[zones.len() - 1] == zones.last());
        assert forall|i: int| 0 <= i < front.len() && (gex_zones::zone_with_id(front, id) matches
            Some(at) ==> i < at) implies (#[trigger] zones[i]).id != id by {
            assert(front[i] == zones[i]);
        }
    }
}

/// Every zone whose id occurs in the next frame goes on there, and no other does.
pub proof fn zones_go_on_by_id(frame: int, before: Seq<GexZone>, after: Seq<GexZone>, step: ZoneStep)
    requires
        0 <= frame <= usize::MAX,
        before.len() <= usize::MAX,
        after.len() <= usize::MAX,
    ensures
        gex_zones::steps_between(frame, before, after).contains(step) <==> {
            &&& step.frame == frame
            &&& step.before < before.len()
            &&& step.after < after.len()
            &&& before[step.before as int].id == after[step.after as int].id
            &&& forall|i: int|
                0 <= i < step.after ==> (#[trigger] after[i]).id != before[step.before as int].id
        },
    decreases before.len(),
{
    let all = gex_zones::steps_between(frame, before, after);
    if before.len() > 0 {
        let front = before.drop_last();
        let last = before.len() - 1;
        zones_go_on_by_id(frame, front, after, step);
        zones_are_found_by_id(after, before.last().id);
        let head = gex_zones::steps_between(frame, front, after);
        assert(before[last] == before.last());
        if head.contains(step) {
            let k = choose|k: int| 0 <= k < head.len() && head[k] == step;
            assert(all[k] == step);
        }
        match gex_zones::zone_with_id(after, before.last().id) {
            Some(at) => {
                let fresh = ZoneStep {
                    frame: frame as usize,
                    before: last as usize,
                    after: at,
                };
                assert(all[all.len() - 1] == fresh);
                if step.before == last && step.frame == frame && step.after < after.len() {
                    if step.after < at {
                        assert(after[step.after as int].id != before.last().id);
                    }
                    if at < step.after {
                        assert(after[at as int].id == before.last().id);
                    }
                }
            },
            None => {},
        }
        if all.contains(step) {
            let k = choose|k: int| 0 <= k < all.len() && all[k] == step;
            if k < head.len() {
                assert(head[k] == step);
            }
        }
        if step.before < last {
            assert(front[step.before as int] == before[step.before as int]);
        }
    }
}

/// Steps are drawn between frames exactly one bucket apart, where the later one begins in the
/// plot: those of zones that go on.
pub proof fn steps_are_drawn_between_neighbours(
    frames: Seq<GexZoneFrame>,
    sights: Seq<FrameSight>,
    bucket_ms: u64,
    step: ZoneStep,
)
    requires
        sights.len() >= frames.len(),
        frames.len() <= usize::MAX,
        forall|i: int| 0 <= i < frames.len() ==> (#[trigger] frames[i]).zones@.len() <= usize::MAX,
        forall|i: int, j: int|
            0 <= i < j < frames.len() ==> (#[trigger] frames[i]).bucket_start.ms < (
            #[trigger] frames[j]).bucket_start.ms,
    ensures
        gex_zones::drawn_steps(frames, sights, bucket_ms).contains(step) <==> {
            &&& 1 <= step.frame < frames.len()
            &&& frames[step.frame as int].bucket_start.ms - frames[step.frame
                - 1].bucket_start.ms == bucket_ms
            &&& sights[step.frame as int].starts_inside
            &&& gex_zones::steps_between(
                step.frame as int,
                frames[step.frame - 1].zones@,
                frames[step.frame as int].zones@,
            ).contains(step)
        },
    decreases frames.len(),
{
    let all = gex_zones::drawn_steps(frames, sights, bucket_ms);
    if frames.len() >= 2 {
        let front = frames.drop_last();
        let last = frames.len() - 1;
        assert(forall|i: int| 0 <= i < last ==> #[trigger] front[i] == frames[i]);
        assert forall|i: int| 0 <= i < front.len() implies (#[trigger] front[i]).zones@.len()
            <= usize::MAX by {
            assert(frames[i].zones@.len() <= usize::MAX);
        }
        assert forall|i: int, j: int| 0 <= i < j < front.len() implies (
        #[trigger] front[i]).bucket_start.ms < (#[trigger] front[j]).bucket_start.ms by {
            assert(frames[i].bucket_start.ms < frames[j].bucket_start.ms);
        }
        steps_are_drawn_between_neighbours(front, sights, bucket_ms, step);
        let head = gex_zones::drawn_steps(front, sights, bucket_ms);
        let tail = gex_zones::steps_between(
            last,
            frames[last - 1].zones@,
            frames[last].zones@,
        );
        assert(frames[last - 1].bucket_start.ms < frames[last].bucket_start.ms);
        assert(frames[last].zones@.len() <= usize::MAX);
        assert(frames[last - 1].zones@.len() <= usize::MAX);
        zones_go_on_by_id(last, frames[last - 1].zones@, frames[last].zones@, step);
        lemma_contains_add(head, tail, step);
        if 1 <= step.frame < last {
            assert(front[step.frame as int] == frames[step.frame as int]);
            assert(front[step.frame - 1] == frames[step.frame - 1]);
        }
    } else {
        assert(all.len() == 0);
    }
}

proof fn lemma_cores(count: nat, sights: Seq<FrameSight>, all: bool, n: nat, at: usize)
    requires
        n <= count <= usize::MAX,
        count <= sights.len(),
    ensures
        gex_zones::core_frames(count, sights, all, n).contains(at) <==> at < n
            && sights[at as int].seen && (all || at == count - 1),
    decreases n,
{
    let frames = gex_zones::core_frames(count, sights, all, n);
    if n > 0 {
        let before = (n - 1) as nat;
        lemma_cores(count, sights, all, before, at);
        let head = gex_zones::core_frames(count, sights, all, before);
        if head.contains(at) {
            let k = choose|k: int| 0 <= k < head.len() && head[k] == at;
            assert(frames[k] == at);
        }
        if (all || n == count) && sights[before as int].seen {
            assert(frames[frames.len() - 1] == before as usize);
        }
        if frames.contains(at) {
            let k = choose|k: int| 0 <= k < frames.len() && frames[k] == at;
            if k < head.len() {
                assert(head[k] == at);
            }
        }
    }
}

/// Cores are drawn in the frames that are seen: in all of them, or in the last one only.
pub proof fn cores_are_drawn_where_they_are_seen(sights: Seq<FrameSight>, all: bool, at: usize)
    requires
        sights.len() <= usize::MAX,
    ensures
        gex_zones::core_frames(sights.len(), sights, all, sights.len()).contains(at) <==> at
            < sights.len() && sights[at as int].seen && (all || at == sights.len() - 1),
{
    lemma_cores(sights.len(), sights, all, sights.len(), at);
}

proof fn lemma_first_frame(frames: Seq<GexZoneFrame>, bucket: u64)
    requires
        frames.len() <= usize::MAX,
    ensures
        gex_zones::first_frame_from(frames, bucket) matches Some(at) ==> at < frames.len(),
    decreases frames.len(),
{
    if frames.len() > 0 {
        lemma_first_frame(frames.drop_last(), bucket);
    }
}

/// A bucket that has no frame has none that is found.
pub proof fn buckets_without_a_frame_have_none(frames: Seq<GexZoneFrame>, bucket: u64)
    requires
        frames.len() <= usize::MAX,
        forall|i: int|
            0 <= i < frames.len() ==> (#[trigger] frames[i]).bucket_start.ms != bucket,
    ensures
        gex_zones::frame_of_bucket(frames, bucket) is None,
{
    lemma_first_frame(frames, bucket);
}

/// The profile of a moment is that of the last snapshot that was observed by it.
pub proof fn the_last_snapshot_by_a_moment_counts(observed: Seq<u64>, moment: u64)
    requires
        observed.len() <= usize::MAX,
    ensures
        match gex_zones::last_observed_by(observed, moment) {
            Some(at) => at < observed.len() && observed[at as int] <= moment && forall|i: int|
                at < i < observed.len() ==> #[trigger] observed[i] > moment,
            None => forall|i: int| 0 <= i < observed.len() ==> #[trigger] observed[i] > moment,
        },
    decreases observed.len(),
{
    if observed.len() > 0 && observed.last() > moment {
        let front = observed.drop_last();
        the_last_snapshot_by_a_moment_counts(front, moment);
        assert forall|i: int| 0 <= i < observed.len() && (gex_zones::last_observed_by(
            front,
            moment,
        ) matches Some(at) ==> at < i) implies #[trigger] observed[i] > moment by {
            if i < front.len() {
                assert(front[i] == observed[i]);
            }
        }
    }
}

/// The zone under the pointer holds its price, and no zone that does is drawn more strongly.
/// Prices and strengths are figures at least zero.
pub proof fn the_strongest_zone_is_under_the_pointer(
    zones: Seq<GexZone>,
    price: Bits64,
    at: int,
    other: int,
)
    requires
        gex_zones::is_strongest(zones, price, at),
        0 <= other < zones.len(),
        price.bits <= 0x7ff0_0000_0000_0000,
        zones[at].lower_price.bits <= 0x7ff0_0000_0000_0000,
        zones[at].upper_price.bits <= 0x7ff0_0000_0000_0000,
        zones[other].lower_price.bits <= price.bits <= zones[other].upper_price.bits,
        zones[other].upper_price.bits <= 0x7ff0_0000_0000_0000,
        zones[at].alpha.bits <= 0x7f80_0000,
        zones[other].alpha.bits <= 0x7f80_0000,
    ensures
        zones[at].lower_price.bits <= price.bits <= zones[at].upper_price.bits,
        zones[other].alpha.bits <= zones[at].alpha.bits,
        zones[other].alpha.bits == zones[at].alpha.bits ==> other <= at,
{
    assert(zones[other].holds(price));
}

/// The strike next to the pointer is the nearest, of equally near ones the first. Distances
/// are figures at least zero.
pub proof fn the_nearest_strike_is_next(distances: Seq<Bits64>, at: int, other: int)
    requires
        gex_zones::is_nearest(distances, at),
        0 <= other < distances.len(),
        distances[at].bits <= 0x7ff0_0000_0000_0000,
        distances[other].bits <= 0x7ff0_0000_0000_0000,
    ensures
        distances[at].bits <= distances[other].bits,
        distances[at].bits == distances[other].bits ==> at <= other,
{
    assert(distances[at].rank() <= distances[other].rank());
}

/// The pointer reaches four pixels, whose pattern is `0x4080_0000`. The rail under it is in
/// reach, and of those in reach the nearest, of equally near ones the first. Distances are
/// figures at least zero.
pub proof fn the_nearest_rail_in_reach_is_hit(
    distances: Seq<Option<Bits32>>,
    at: int,
    other: int,
)
    requires
        gex_zones::is_hit(distances, at),
        0 <= other < distances.len(),
        distances[at] matches Some(bits) ==> bits.bits <= 0x7f80_0000,
        distances[other] is Some,
        (distances[other]->0).bits <= 0x4080_0000,
    ensures
        distances[at] is Some,
        (distances[at]->0).bits <= 0x4080_0000,
        (distances[at]->0).bits <= (distances[other]->0).bits,
        (distances[at]->0).bits == (distances[other]->0).bits ==> at <= other,
{
    assert(gex_zones::in_reach(distances[other]));
}

/// What is not visible, further than four pixels away or no number is out of reach.
pub proof fn far_rails_are_out_of_reach(distance: Option<Bits32>)
    ensures
        distance is None ==> !gex_zones::in_reach(distance),
        distance matches Some(bits) ==> 0x4080_0000 < bits.bits < 0x8000_0000
            ==> !gex_zones::in_reach(distance),
        distance matches Some(bits) ==> bits.bits <= 0x4080_0000 ==> gex_zones::in_reach(distance),
{
}

/// Exactly the markers are drawn that are shown, have a level and a visible height.
pub proof fn shown_markers_are_drawn(
    markers: Seq<GexMarker>,
    ys: Seq<Option<Bits32>>,
    n: nat,
    at: usize,
)
    requires
        n <= markers.len() <= usize::MAX,
        ys.len() == markers.len(),
    ensures
        gex_zones::drawn_markers(markers, ys, n).contains(at) <==> at < n
            && markers[at as int].shown && markers[at as int].level is Some && ys[at as int]
            is Some,
        forall|a: int, b: int|
            0 <= a < b < gex_zones::drawn_markers(markers, ys, n).len() ==> (
            #[trigger] gex_zones::drawn_markers(markers, ys, n)[a]) < (
            #[trigger] gex_zones::drawn_markers(markers, ys, n)[b]),
        forall|a: int|
            0 <= a < gex_zones::drawn_markers(markers, ys, n).len() ==> (
            #[trigger] gex_zones::drawn_markers(markers, ys, n)[a]) < n,
    decreases n,
{
    let all = gex_zones::drawn_markers(markers, ys, n);
    if n > 0 {
        let before = (n - 1) as nat;
        shown_markers_are_drawn(markers, ys, before, at);
        let head = gex_zones::drawn_markers(markers, ys, before);
        if head.contains(at) {
            let k = choose|k: int| 0 <= k < head.len() && head[k] == at;
            assert(all[k] == at);
        }
        if gex_zones::is_drawn(markers[before as int], ys[before as int]) {
            assert(all[all.len() - 1] == before as usize);
        }
        if all.contains(at) {
            let k = choose|k: int| 0 <= k < all.len() && all[k] == at;
            if k < head.len() {
                assert(head[k] == at);
            }
        }
    }
}

/// The keys of drawn markers grow with their height on the screen, which is at least zero.
pub proof fn markers_are_ordered_by_height(
    ys: Seq<Option<Bits32>>,
    places: Seq<usize>,
    a: int,
    b: int,
)
    requires
        0 <= a < places.len(),
        0 <= b < places.len(),
        ys[places[a] as int] is Some,
        ys[places[b] as int] is Some,
        (ys[places[a] as int]->0).bits <= 0x7f80_0000,
        (ys[places[b] as int]->0).bits <= 0x7f80_0000,
    ensures
        gex_zones::marker_keys(ys, places)[a].0 < gex_zones::marker_keys(ys, places)[b].0 <==> (
        ys[places[a] as int]->0).bits < (ys[places[b] as int]->0).bits,
        gex_zones::marker_keys(ys, places)[a].1 == gex_zones::marker_keys(ys, places)[b].1,
{
}

proof fn lemma_turned(a: u64, b: u64, by: u64)
    requires
        0 < by < 64,
        gex_zones::turned(a, by) == gex_zones::turned(b, by),
    ensures
        a == b,
{
    let back = (64 - by) as u64;
    assert(a == b) by (bit_vector)
        requires
            0 < by < 64,
            back == 64 - by,
            (a << by) | (a >> back) == (b << by) | (b >> back),
    ;
}

proof fn lemma_xor()
    ensures
        forall|a: u64, b: u64, c: u64| #[trigger] (a ^ c) == #[trigger] (b ^ c) ==> a == b,
        forall|a: u64, b: u64, c: u64| #[trigger] (c ^ a) == #[trigger] (c ^ b) ==> a == b,
{
    assert forall|a: u64, b: u64, c: u64| #[trigger] (a ^ c) == #[trigger] (b ^ c) implies a == b by {
        assert(a == b) by (bit_vector)
            requires
                a ^ c == b ^ c,
        ;
    }
    assert forall|a: u64, b: u64, c: u64| #[trigger] (c ^ a) == #[trigger] (c ^ b) implies a == b by {
        assert(a == b) by (bit_vector)
            requires
                c ^ a == c ^ b,
        ;
    }
}

/// Whatever part of what the zones are computed from changes alone, they are computed anew.
pub proof fn no_single_change_keeps_the_frames(
    parts: ZoneKeyParts,
    wide: u64,
    narrow: Bits32,
    figure: Bits64,
)
    ensures
        ({
            let key = gex_zones::zone_key(parts);
            &&& gex_zones::zone_key(ZoneKeyParts { last_observed: wide, ..parts }) == key ==> wide
                == parts.last_observed
            &&& gex_zones::zone_key(ZoneKeyParts { snapshots: wide, ..parts }) == key ==> wide
                == parts.snapshots
            &&& gex_zones::zone_key(ZoneKeyParts { bucket_ms: wide, ..parts }) == key ==> wide
                == parts.bucket_ms
            &&& gex_zones::zone_key(ZoneKeyParts { viewport_x: narrow, ..parts }) == key ==> narrow
                == parts.viewport_x
            &&& gex_zones::zone_key(ZoneKeyParts { viewport_y: narrow, ..parts }) == key ==> narrow
                == parts.viewport_y
            &&& gex_zones::zone_key(ZoneKeyParts { viewport_width: narrow, ..parts }) == key
                ==> narrow == parts.viewport_width
            &&& gex_zones::zone_key(ZoneKeyParts { viewport_height: narrow, ..parts }) == key
                ==> narrow == parts.viewport_height
            &&& gex_zones::zone_key(ZoneKeyParts { minimum_zone_strength: narrow, ..parts }) == key
                ==> narrow == parts.minimum_zone_strength
            &&& gex_zones::zone_key(ZoneKeyParts { max_positive_zones: wide, ..parts }) == key
                ==> wide == parts.max_positive_zones
            &&& gex_zones::zone_key(ZoneKeyParts { max_negative_zones: wide, ..parts }) == key
                ==> wide == parts.max_negative_zones
            &&& gex_zones::zone_key(ZoneKeyParts { fade_buckets: wide, ..parts }) == key ==> wide
                == parts.fade_buckets
            &&& gex_zones::zone_key(ZoneKeyParts { persistent_lookback_minutes: wide, ..parts })
                == key ==> wide == parts.persistent_lookback_minutes
            &&& gex_zones::zone_key(ZoneKeyParts { expiry_filter: wide, ..parts }) == key ==> wide
                == parts.expiry_filter
            &&& gex_zones::zone_key(ZoneKeyParts { gamma_source: wide, ..parts }) == key ==> wide
                == parts.gamma_source
            &&& gex_zones::zone_key(ZoneKeyParts { minimum_open_interest: figure, ..parts }) == key
                ==> figure == parts.minimum_open_interest
            &&& gex_zones::zone_key(ZoneKeyParts { minimum_absolute_gex: figure, ..parts }) == key
                ==> figure == parts.minimum_absolute_gex
        }),
{
    lemma_xor();
    lemma_turns(wide, parts.snapshots);
    lemma_turns(wide, parts.bucket_ms);
    lemma_turns(narrow.bits as u64, parts.viewport_x.bits as u64);
    lemma_turns(narrow.bits as u64, parts.viewport_y.bits as u64);
    lemma_turns(narrow.bits as u64, parts.viewport_width.bits as u64);
    lemma_turns(narrow.bits as u64, parts.viewport_height.bits as u64);
    lemma_turns(narrow.bits as u64, parts.minimum_zone_strength.bits as u64);
    lemma_turns(wide, parts.max_positive_zones);
    lemma_turns(wide, parts.max_negative_zones);
    lemma_turns(wide, parts.fade_buckets);
    lemma_turns(wide, parts.expiry_filter);
    lemma_turns(wide, parts.gamma_source);
    lemma_turns(figure.bits, parts.minimum_open_interest.bits);
    lemma_turns(figure.bits, parts.minimum_absolute_gex.bits);
}

proof fn lemma_turns(a: u64, b: u64)
    ensures
        forall|by: u64|
            0 < by < 64 && #[trigger] gex_zones::turned(a, by) == gex_zones::turned(b, by) ==> a
                == b,
{
    assert forall|by: u64| 0 < by < 64 && #[trigger] gex_zones::turned(a, by) == gex_zones::turned(
        b,
        by,
    ) implies a == b by {
        lemma_turned(a, b, by);
    }
}

} // verus!
