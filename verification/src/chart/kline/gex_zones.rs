//! Which gamma zones are drawn, how they are connected, and what lies under the pointer.
//!
//! Places on the screen are floating-point numbers that the caller computes; what depends
//! on them comes in as a flag or as a bit pattern.
use vstd::prelude::*;
use crate::chart::kline::proxy_rails::GexMarker;
use crate::connector::gex_proxy::GexFreshness;
use crate::order;
use crate::order::{stable_order, SortKey};
use crate::units;
use crate::units::{saturating_add_u64, saturating_sub_u64, Bits32, Bits64, UnixMs};

verus! {

#[derive(Clone, Copy, Debug, PartialEq, Eq, Structural)]
pub enum GexZoneSign {
    Positive,
    Negative,
}

/// A zone of gamma exposure in one bucket of time.
#[derive(Clone, Copy, Debug, PartialEq, Eq, Structural)]
pub struct GexZone {
    /// A zone keeps its id from bucket to bucket.
    pub id: u64,
    pub lower_price: Bits64,
    pub upper_price: Bits64,
    pub sign: GexZoneSign,
    /// How strongly it is drawn.
    pub alpha: Bits32,
    /// Whether it has not been measured in the bucket and is about to go.
    pub fading: bool,
}

#[derive(Debug)]
pub struct GexZoneFrame {
    pub bucket_start: UnixMs,
    pub zones: Vec<GexZone>,
}

/// Where a frame lies on the screen.
#[derive(Clone, Copy, Debug, PartialEq, Eq, Structural)]
pub struct FrameSight {
    /// Part of its bucket lies in the plot.
    pub seen: bool,
    /// Its start lies in the plot.
    pub starts_inside: bool,
}

/// A zone: its frame and its place there.
#[derive(Clone, Copy, Debug, PartialEq, Eq, Structural)]
pub struct ZonePlace {
    pub frame: usize,
    pub zone: usize,
}

/// A zone that goes on in the next frame: the place of that frame, and of the zone in the
/// frame before and there.
#[derive(Clone, Copy, Debug, PartialEq, Eq, Structural)]
pub struct ZoneStep {
    pub frame: usize,
    pub before: usize,
    pub after: usize,
}

/// What is drawn behind the candles.
#[derive(Debug)]
pub struct ZoneBackground {
    pub zones: Vec<ZonePlace>,
    pub steps: Vec<ZoneStep>,
    /// The frame whose zones reach into the future.
    pub projected: Option<usize>,
}

impl GexZone {
    /// The zone reaches into the prices from `low` to `high`.
    pub open spec fn reaches(self, low: Bits64, high: Bits64) -> bool {
        low.at_most(self.upper_price) && self.lower_price.at_most(high)
    }

    /// The zone holds the price.
    pub open spec fn holds(self, price: Bits64) -> bool {
        self.lower_price.at_most(price) && price.at_most(self.upper_price)
    }
}

/// The zones of a frame that reach into the visible prices, in order.
pub open spec fn visible_zones(
    frame: int,
    zones: Seq<GexZone>,
    low: Bits64,
    high: Bits64,
) -> Seq<ZonePlace>
    decreases zones.len(),
{
    if zones.len() == 0 {
        Seq::empty()
    } else {
        let head = visible_zones(frame, zones.drop_last(), low, high);
        if zones.last().reaches(low, high) {
            head.push(ZonePlace { frame: frame as usize, zone: (zones.len() - 1) as usize })
        } else {
            head
        }
    }
}

/// The visible zones of all frames that are seen, frame by frame.
pub open spec fn drawn_zones(
    frames: Seq<GexZoneFrame>,
    sights: Seq<FrameSight>,
    low: Bits64,
    high: Bits64,
) -> Seq<ZonePlace>
    decreases frames.len(),
{
    if frames.len() == 0 {
        Seq::empty()
    } else {
        let last = frames.len() - 1;
        let head = drawn_zones(frames.drop_last(), sights, low, high);
        if sights[last].seen {
            head + visible_zones(last, frames[last].zones@, low, high)
        } else {
            head
        }
    }
}

/// The place of the first zone with the id.
pub open spec fn zone_with_id(zones: Seq<GexZone>, id: u64) -> Option<usize>
    decreases zones.len(),
{
    if zones.len() == 0 {
        None
    } else {
        match zone_with_id(zones.drop_last(), id) {
            Some(at) => Some(at),
            None => if zones.last().id == id {
                Some((zones.len() - 1) as usize)
            } else {
                None
            },
        }
    }
}

/// How zones go on from one frame to the next.
pub open spec fn steps_between(frame: int, before: Seq<GexZone>, after: Seq<GexZone>) -> Seq<ZoneStep>
    decreases before.len(),
{
    if before.len() == 0 {
        Seq::empty()
    } else {
        let head = steps_between(frame, before.drop_last(), after);
        match zone_with_id(after, before.last().id) {
            Some(at) => head.push(
                ZoneStep { frame: frame as usize, before: (before.len() - 1) as usize, after: at },
            ),
            None => head,
        }
    }
}

/// The steps between frames that follow each other without a gap, where the later one
/// starts in the plot.
pub open spec fn drawn_steps(
    frames: Seq<GexZoneFrame>,
    sights: Seq<FrameSight>,
    bucket_ms: u64,
) -> Seq<ZoneStep>
    decreases frames.len(),
{
    if frames.len() < 2 {
        Seq::empty()
    } else {
        let last = frames.len() - 1;
        let head = drawn_steps(frames.drop_last(), sights, bucket_ms);
        if units::sat_sub(frames[last].bucket_start.ms, frames[last - 1].bucket_start.ms)
            == bucket_ms && sights[last].starts_inside {
            head + steps_between(last, frames[last - 1].zones@, frames[last].zones@)
        } else {
            head
        }
    }
}

fn push_visible_zones(
    places: &mut Vec<ZonePlace>,
    frame: usize,
    zones: &Vec<GexZone>,
    low: Bits64,
    high: Bits64,
)
    ensures
        final(places)@ == old(places)@ + visible_zones(frame as int, zones@, low, high),
{
    let ghost before = places@;
    let mut i: usize = 0;
    assert(zones@.take(0) =~= Seq::empty());
    assert(places@ =~= before + visible_zones(frame as int, zones@.take(0), low, high));
    while i < zones.len()
        invariant
            i <= zones@.len(),
            places@ == before + visible_zones(frame as int, zones@.take(i as int), low, high),
        decreases zones@.len() - i,
    {
        assert(zones@.take(i + 1).drop_last() =~= zones@.take(i as int));
        let zone: GexZone = zones[i];
        if low.is_at_most(zone.upper_price) && zone.lower_price.is_at_most(high) {
            places.push(ZonePlace { frame, zone: i });
        }
        assert(places@ =~= before + visible_zones(frame as int, zones@.take(i + 1), low, high));
        i = i + 1;
    }
    assert(zones@.take(zones@.len() as int) =~= zones@);
}

fn find_zone(zones: &Vec<GexZone>, id: u64) -> (r: Option<usize>)
    ensures
        r == zone_with_id(zones@, id),
{
    let mut i: usize = 0;
    assert(zones@.take(0) =~= Seq::empty());
    while i < zones.len()
        invariant
            i <= zones@.len(),
            zone_with_id(zones@.take(i as int), id) is None,
        decreases zones@.len() - i,
    {
        assert(zones@.take(i + 1).drop_last() =~= zones@.take(i as int));
        if zones[i].id == id {
            proof {
                lemma_zone_found(zones@, id, i as int);
            }
            return Some(i);
        }
        i = i + 1;
    }
    assert(zones@.take(zones@.len() as int) =~= zones@);
    None
}

/// The first zone with an id stays the first whatever follows.
proof fn lemma_zone_found(zones: Seq<GexZone>, id: u64, i: int)
    requires
        0 <= i < zones.len(),
        zone_with_id(zones.take(i), id) is None,
        zones[i].id == id,
    ensures
        zone_with_id(zones, id) == Some(i as usize),
    decreases zones.len(),
{
    if i == zones.len() - 1 {
        assert(zones.drop_last() =~= zones.take(i));
    } else {
        assert(zones.drop_last().take(i) =~= zones.take(i));
        lemma_zone_found(zones.drop_last(), id, i);
    }
}

fn push_steps(
    steps: &mut Vec<ZoneStep>,
    frame: usize,
    zones_before: &Vec<GexZone>,
    zones_after: &Vec<GexZone>,
)
    ensures
        final(steps)@ == old(steps)@ + steps_between(frame as int, zones_before@, zones_after@),
{
    let ghost held = steps@;
    let mut i: usize = 0;
    assert(zones_before@.take(0) =~= Seq::empty());
    assert(steps@ =~= held + steps_between(frame as int, zones_before@.take(0), zones_after@));
    while i < zones_before.len()
        invariant
            i <= zones_before@.len(),
            steps@ == held + steps_between(
                frame as int,
                zones_before@.take(i as int),
                zones_after@,
            ),
        decreases zones_before@.len() - i,
    {
        assert(zones_before@.take(i + 1).drop_last() =~= zones_before@.take(i as int));
        if let Some(after) = find_zone(zones_after, zones_before[i].id) {
            steps.push(ZoneStep { frame, before: i, after });
        }
        assert(steps@ =~= held + steps_between(
            frame as int,
            zones_before@.take(i + 1),
            zones_after@,
        ));
        i = i + 1;
    }
    assert(zones_before@.take(zones_before@.len() as int) =~= zones_before@);
}

/// What is drawn behind the candles: the zones of the past and the steps between them
/// where these are shown, and the zones of the last frame as a projection while the data
/// is fresh.
pub fn draw_gex_zone_background(
    frames: &Vec<GexZoneFrame>,
    sights: &Vec<FrameSight>,
    bucket_ms: u64,
    low: Bits64,
    high: Bits64,
    show_historical_zones: bool,
    show_active_projection: bool,
    freshness: GexFreshness,
) -> (r: ZoneBackground)
    requires
        sights@.len() == frames@.len(),
    ensures
        r.zones@ == if show_historical_zones {
            drawn_zones(frames@, sights@, low, high)
        } else {
            Seq::empty()
        },
        r.steps@ == if show_historical_zones {
            drawn_steps(frames@, sights@, bucket_ms)
        } else {
            Seq::empty()
        },
        r.projected == if show_active_projection && freshness == GexFreshness::Fresh
            && frames@.len() > 0 {
            Some((frames@.len() - 1) as usize)
        } else {
            None
        },
{
    let mut zones: Vec<ZonePlace> = Vec::new();
    let mut steps: Vec<ZoneStep> = Vec::new();
    if show_historical_zones {
        let mut i: usize = 0;
        assert(frames@.take(0) =~= Seq::empty());
        while i < frames.len()
            invariant
                i <= frames@.len() == sights@.len(),
                zones@ == drawn_zones(frames@.take(i as int), sights@, low, high),
                steps@ == drawn_steps(frames@.take(i as int), sights@, bucket_ms),
            decreases frames@.len() - i,
        {
            proof {
                let taken = frames@.take(i + 1);
                assert(taken.drop_last() =~= frames@.take(i as int));
                assert(taken[i as int] == frames@[i as int]);
                if i > 0 {
                    assert(taken[i - 1] == frames@[i - 1]);
                }
            }
            if sights[i].seen {
                push_visible_zones(&mut zones, i, &frames[i].zones, low, high);
            }
            if i > 0 && saturating_sub_u64(
                frames[i].bucket_start.ms,
                frames[i - 1].bucket_start.ms,
            ) == bucket_ms && sights[i].starts_inside {
                push_steps(&mut steps, i, &frames[i - 1].zones, &frames[i].zones);
            }
            i = i + 1;
        }
        assert(frames@.take(frames@.len() as int) =~= frames@);
    }
    let fresh: bool = freshness == GexFreshness::Fresh;
    let projected: Option<usize> = if show_active_projection && fresh && frames.len() > 0 {
        Some(frames.len() - 1)
    } else {
        None
    };
    ZoneBackground { zones, steps, projected }
}

/// The frames whose zones have a core: all that are seen, or the last one only.
pub open spec fn core_frames(count: nat, sights: Seq<FrameSight>, all: bool, n: nat) -> Seq<usize>
    decreases n,
{
    if n == 0 {
        Seq::empty()
    } else {
        let at = (n - 1) as nat;
        let head = core_frames(count, sights, all, at);
        if (all || n == count) && sights[at as int].seen {
            head.push(at as usize)
        } else {
            head
        }
    }
}

pub fn draw_gex_zone_cores(sights: &Vec<FrameSight>, show_historical_zones: bool) -> (r: Vec<usize>)
    ensures
        r@ == core_frames(sights@.len(), sights@, show_historical_zones, sights@.len()),
{
    let mut r: Vec<usize> = Vec::new();
    let mut i: usize = 0;
    while i < sights.len()
        invariant
            i <= sights@.len(),
            r@ == core_frames(sights@.len(), sights@, show_historical_zones, i as nat),
        decreases sights@.len() - i,
    {
        if (show_historical_zones || i + 1 == sights.len()) && sights[i].seen {
            r.push(i);
        }
        i = i + 1;
    }
    r
}

/// The place of the first frame that does not start before the bucket.
pub open spec fn first_frame_from(frames: Seq<GexZoneFrame>, bucket: u64) -> Option<usize>
    decreases frames.len(),
{
    if frames.len() == 0 {
        None
    } else {
        match first_frame_from(frames.drop_last(), bucket) {
            Some(at) => Some(at),
            None => if frames.last().bucket_start.ms >= bucket {
                Some((frames.len() - 1) as usize)
            } else {
                None
            },
        }
    }
}

proof fn lemma_first_frame(frames: Seq<GexZoneFrame>, bucket: u64, i: int)
    requires
        0 <= i < frames.len(),
        first_frame_from(frames.take(i), bucket) is None,
        frames[i].bucket_start.ms >= bucket,
    ensures
        first_frame_from(frames, bucket) == Some(i as usize),
    decreases frames.len(),
{
    if i == frames.len() - 1 {
        assert(frames.drop_last() =~= frames.take(i));
    } else {
        assert(frames.drop_last().take(i) =~= frames.take(i));
        lemma_first_frame(frames.drop_last(), bucket, i);
    }
}

/// The place of the frame of a bucket, in frames that ascend in time.
pub open spec fn frame_of_bucket(frames: Seq<GexZoneFrame>, bucket: u64) -> Option<usize> {
    match first_frame_from(frames, bucket) {
        Some(at) => if frames[at as int].bucket_start.ms == bucket {
            Some(at)
        } else {
            None
        },
        None => None,
    }
}

fn find_frame(frames: &Vec<GexZoneFrame>, bucket: u64) -> (r: Option<usize>)
    ensures
        r == frame_of_bucket(frames@, bucket),
        r is Some ==> r->0 < frames@.len(),
{
    let mut i: usize = 0;
    assert(frames@.take(0) =~= Seq::empty());
    while i < frames.len()
        invariant
            i <= frames@.len(),
            first_frame_from(frames@.take(i as int), bucket) is None,
        decreases frames@.len() - i,
    {
        assert(frames@.take(i + 1).drop_last() =~= frames@.take(i as int));
        if frames[i].bucket_start.ms >= bucket {
            proof {
                lemma_first_frame(frames@, bucket, i as int);
            }
            return if frames[i].bucket_start.ms == bucket {
                Some(i)
            } else {
                None
            };
        }
        i = i + 1;
    }
    assert(frames@.take(frames@.len() as int) =~= frames@);
    None
}

/// The place of the last snapshot that was observed by a moment.
pub open spec fn last_observed_by(observed: Seq<u64>, moment: u64) -> Option<usize>
    decreases observed.len(),
{
    if observed.len() == 0 {
        None
    } else if observed.last() <= moment {
        Some((observed.len() - 1) as usize)
    } else {
        last_observed_by(observed.drop_last(), moment)
    }
}

fn find_snapshot(observed: &Vec<u64>, moment: u64) -> (r: Option<usize>)
    ensures
        r == last_observed_by(observed@, moment),
{
    let mut i: usize = observed.len();
    assert(observed@.take(i as int) =~= observed@);
    while i > 0
        invariant
            i <= observed@.len(),
            last_observed_by(observed@, moment) == last_observed_by(
                observed@.take(i as int),
                moment,
            ),
        decreases i,
    {
        assert(observed@.take(i as int).drop_last() =~= observed@.take(i - 1));
        assert(observed@.take(i as int).last() == observed@[i - 1]);
        i = i - 1;
        if observed[i] <= moment {
            return Some(i);
        }
    }
    None
}

/// The zone at `at` holds the price, no zone that holds it is drawn more strongly, and none
/// of the later ones as strongly.
pub open spec fn is_strongest(zones: Seq<GexZone>, price: Bits64, at: int) -> bool {
    &&& 0 <= at < zones.len()
    &&& zones[at].holds(price)
    &&& forall|j: int|
        0 <= j < zones.len() && (#[trigger] zones[j]).holds(price) ==> zones[j].alpha.rank()
            <= zones[at].alpha.rank() && (j > at ==> zones[j].alpha.rank()
            < zones[at].alpha.rank())
}

/// The strongest of the zones that hold the price, of equals the last.
pub fn hovered_zone(zones: &Vec<GexZone>, price: Bits64) -> (r: Option<usize>)
    ensures
        match r {
            Some(at) => is_strongest(zones@, price, at as int),
            None => forall|j: int|
                0 <= j < zones@.len() ==> !(#[trigger] zones@[j]).holds(price),
        },
{
    let mut best: Option<usize> = None;
    let mut i: usize = 0;
    while i < zones.len()
        invariant
            i <= zones@.len(),
            match best {
                Some(at) => at < i && zones@[at as int].holds(price) && forall|j: int|
                    0 <= j < i && (#[trigger] zones@[j]).holds(price) ==> zones@[j].alpha.rank()
                        <= zones@[at as int].alpha.rank() && (j > at ==> zones@[j].alpha.rank()
                        < zones@[at as int].alpha.rank()),
                None => forall|j: int| 0 <= j < i ==> !(#[trigger] zones@[j]).holds(price),
            },
        decreases zones@.len() - i,
    {
        let zone: GexZone = zones[i];
        if zone.lower_price.is_at_most(price) && price.is_at_most(zone.upper_price) {
            best = match best {
                Some(at) => if zone.alpha.total_rank() >= zones[at].alpha.total_rank() {
                    Some(i)
                } else {
                    Some(at)
                },
                None => Some(i),
            };
        }
        i = i + 1;
    }
    best
}

/// What the pointer is over.
#[derive(Clone, Copy, Debug, PartialEq, Eq, Structural)]
pub enum ZoneHover {
    Nothing,
    /// The profile of a snapshot.
    Profile(usize),
    Zone(ZonePlace),
}

/// What the pointer is over in the bucket of time `bucket` and at `price`: over the profile
/// the last snapshot by the end of the bucket, else the strongest zone there.
pub fn draw_gex_zone_tooltip(
    frames: &Vec<GexZoneFrame>,
    observed: &Vec<u64>,
    bucket: u64,
    bucket_ms: u64,
    over_profile: bool,
    price: Bits64,
) -> (r: ZoneHover)
    ensures
        observed@.len() == 0 || frame_of_bucket(frames@, bucket) is None ==> r
            == ZoneHover::Nothing,
        observed@.len() > 0 ==> (frame_of_bucket(frames@, bucket) matches Some(at) ==> {
            let zones = frames@[at as int].zones@;
            if over_profile {
                r == match last_observed_by(observed@, units::sat_add(bucket, bucket_ms)) {
                    Some(snapshot) => ZoneHover::Profile(snapshot),
                    None => ZoneHover::Nothing,
                }
            } else {
                match r {
                    ZoneHover::Zone(place) => place.frame == at && is_strongest(
                        zones,
                        price,
                        place.zone as int,
                    ),
                    ZoneHover::Nothing => forall|j: int|
                        0 <= j < zones.len() ==> !(#[trigger] zones[j]).holds(price),
                    ZoneHover::Profile(_) => false,
                }
            }
        }),
{
    if observed.len() == 0 {
        return ZoneHover::Nothing;
    }
    let frame: usize = match find_frame(frames, bucket) {
        Some(at) => at,
        None => return ZoneHover::Nothing,
    };
    if over_profile {
        return match find_snapshot(observed, saturating_add_u64(bucket, bucket_ms)) {
            Some(snapshot) => ZoneHover::Profile(snapshot),
            None => ZoneHover::Nothing,
        };
    }
    match hovered_zone(&frames[frame].zones, price) {
        Some(zone) => ZoneHover::Zone(ZonePlace { frame, zone }),
        None => ZoneHover::Nothing,
    }
}

/// The first of the smallest distances, in the total order of figures.
pub open spec fn is_nearest(distances: Seq<Bits64>, at: int) -> bool {
    &&& 0 <= at < distances.len()
    &&& forall|j: int|
        0 <= j < distances.len() ==> distances[at].rank() <= (#[trigger] distances[j]).rank() && (j
            < at ==> distances[at].rank() < distances[j].rank())
}

/// The strike that is nearest to the pointer.
pub fn nearest_strike(distances: &Vec<Bits64>) -> (r: Option<usize>)
    ensures
        r is None <==> distances@.len() == 0,
        r is Some ==> is_nearest(distances@, r->0 as int),
{
    if distances.len() == 0 {
        return None;
    }
    let mut best: usize = 0;
    let mut i: usize = 1;
    while i < distances.len()
        invariant
            1 <= i <= distances@.len(),
            best < i,
            forall|j: int|
                0 <= j < i ==> distances@[best as int].rank() <= (#[trigger] distances@[j]).rank()
                    && (j < best ==> distances@[best as int].rank() < distances@[j].rank()),
        decreases distances@.len() - i,
    {
        if distances[i].total_rank() < distances[best].total_rank() {
            best = i;
        }
        i = i + 1;
    }
    Some(best)
}

pub open spec fn sign_title(sign: GexZoneSign) -> Seq<char> {
    match sign {
        GexZoneSign::Positive => "Positive Gamma Zone"@,
        GexZoneSign::Negative => "Negative Gamma Zone"@,
    }
}

/// The heading of the tooltip of a zone.
pub fn zone_title(sign: GexZoneSign) -> (r: &'static str)
    ensures
        r@ == sign_title(sign),
{
    match sign {
        GexZoneSign::Positive => "Positive Gamma Zone",
        GexZoneSign::Negative => "Negative Gamma Zone",
    }
}

/// The place of four pixels among all numbers, the reach of the pointer.
pub const HIT_RADIUS: i64 = 0x4080_0000;

/// A rail in reach of the pointer: its distance is a number of at most four pixels.
pub open spec fn in_reach(distance: Option<Bits32>) -> bool {
    distance matches Some(bits) && bits.is_number() && bits.place() <= HIT_RADIUS
}

/// The first of the nearest rails in reach.
pub open spec fn is_hit(distances: Seq<Option<Bits32>>, at: int) -> bool {
    &&& 0 <= at < distances.len()
    &&& in_reach(distances[at])
    &&& forall|j: int|
        0 <= j < distances.len() && in_reach(#[trigger] distances[j])
            ==> distances[at]->0.place() <= distances[j]->0.place() && (j < at
            ==> distances[at]->0.place() < distances[j]->0.place())
}

/// The rail under the pointer, where `distances` holds the distance in pixels to each rail
/// that is visible.
pub fn hit_test_gex_proxy_geometry(distances: &Vec<Option<Bits32>>) -> (r: Option<usize>)
    ensures
        match r {
            Some(at) => is_hit(distances@, at as int),
            None => forall|j: int|
                0 <= j < distances@.len() ==> !in_reach(#[trigger] distances@[j]),
        },
{
    let mut best: Option<(usize, i64)> = None;
    let mut i: usize = 0;
    while i < distances.len()
        invariant
            i <= distances@.len(),
            match best {
                Some((at, place)) => at < i && in_reach(distances@[at as int]) && place
                    == distances@[at as int]->0.place() && forall|j: int|
                    0 <= j < i && in_reach(#[trigger] distances@[j]) ==> place
                        <= distances@[j]->0.place() && (j < at ==> place
                        < distances@[j]->0.place()),
                None => forall|j: int| 0 <= j < i ==> !in_reach(#[trigger] distances@[j]),
            },
        decreases distances@.len() - i,
    {
        let here: Option<i64> = match distances[i] {
            Some(bits) => bits.number_place(),
            None => None,
        };
        if let Some(place) = here {
            if place <= HIT_RADIUS {
                best = match best {
                    Some((at, nearest)) => if place < nearest {
                        Some((i, place))
                    } else {
                        Some((at, nearest))
                    },
                    None => Some((i, place)),
                };
            }
        }
        i = i + 1;
    }
    match best {
        Some((at, _)) => Some(at),
        None => None,
    }
}

/// A marker is drawn when it is shown, has a level, and that level is visible.
pub open spec fn is_drawn(marker: GexMarker, y: Option<Bits32>) -> bool {
    marker.shown && marker.level is Some && y is Some
}

/// The places of the drawn markers among the first `n`.
pub open spec fn drawn_markers(
    markers: Seq<GexMarker>,
    ys: Seq<Option<Bits32>>,
    n: nat,
) -> Seq<usize>
    decreases n,
{
    if n == 0 {
        Seq::empty()
    } else {
        let at = (n - 1) as nat;
        let head = drawn_markers(markers, ys, at);
        if is_drawn(markers[at as int], ys[at as int]) {
            head.push(at as usize)
        } else {
            head
        }
    }
}

/// The keys by which drawn markers are ordered: from the top of the screen down.
pub open spec fn marker_keys(ys: Seq<Option<Bits32>>, places: Seq<usize>) -> Seq<SortKey> {
    places.map_values(|at: usize| (ys[at as int]->0.rank() as u64, 0u128))
}

/// The drawn markers from the top of the screen down, where `ys` holds the height of each
/// marker that is visible.
pub fn draw_gex_zone_markers(markers: &Vec<GexMarker>, ys: &Vec<Option<Bits32>>) -> (r: Vec<usize>)
    requires
        ys@.len() == markers@.len(),
    ensures
        ({
            let places = drawn_markers(markers@, ys@, markers@.len());
            exists|sorted: Seq<usize>| #[trigger]
                order::is_stable_order(
                    marker_keys(ys@, places),
                    0,
                    places.len() as int,
                    sorted,
                ) && r@ == sorted.map_values(|k: usize| places[k as int])
        }),
{
    let mut places: Vec<usize> = Vec::new();
    let mut keys: Vec<SortKey> = Vec::new();
    let mut i: usize = 0;
    assert(keys@ =~= marker_keys(ys@, places@));
    while i < markers.len()
        invariant
            i <= markers@.len() == ys@.len(),
            places@ == drawn_markers(markers@, ys@, i as nat),
            keys@ == marker_keys(ys@, places@),
        decreases markers@.len() - i,
    {
        let ghost held = places@;
        if markers[i].shown && markers[i].level.is_some() {
            if let Some(y) = ys[i] {
                places.push(i);
                keys.push((y.total_rank(), 0));
                assert(keys@ =~= marker_keys(ys@, places@));
            }
        }
        i = i + 1;
    }
    let sorted = stable_order(&keys);
    let mut r: Vec<usize> = Vec::new();
    let mut k: usize = 0;
    while k < sorted.len()
        invariant
            k <= sorted@.len(),
            sorted@.len() == places@.len(),
            forall|a: int| 0 <= a < sorted@.len() ==> (#[trigger] sorted@[a]) < places@.len(),
            r@ == sorted@.take(k as int).map_values(|k: usize| places@[k as int]),
        decreases sorted@.len() - k,
    {
        r.push(places[sorted[k]]);
        assert(r@ =~= sorted@.take(k + 1).map_values(|k: usize| places@[k as int]));
        k = k + 1;
    }
    assert(sorted@.take(sorted@.len() as int) =~= sorted@);
    r
}

/// What the zone frames are computed from, as far as the cache tells one computation from
/// another.
#[derive(Clone, Copy, Debug, PartialEq, Eq, Structural)]
pub struct ZoneKeyParts {
    pub last_observed: u64,
    pub snapshots: u64,
    pub bucket_ms: u64,
    pub viewport_x: Bits32,
    pub viewport_y: Bits32,
    pub viewport_width: Bits32,
    pub viewport_height: Bits32,
    pub minimum_zone_strength: Bits32,
    pub max_positive_zones: u64,
    pub max_negative_zones: u64,
    pub fade_buckets: u64,
    pub persistent_lookback_minutes: u64,
    pub expiry_filter: u64,
    pub gamma_source: u64,
    pub minimum_open_interest: Bits64,
    pub minimum_absolute_gex: Bits64,
}

/// The bits of `value` moved `by` places to the left, those that leave coming in on the
/// right.
pub open spec fn turned(value: u64, by: u64) -> u64 {
    (value << by) | (value >> (64 - by) as u64)
}

fn turn(value: u64, by: u64) -> (r: u64)
    requires
        0 < by < 64,
    ensures
        r == turned(value, by),
{
    (value << by) | (value >> (64 - by))
}

/// The key of a computation.
pub open spec fn zone_key(parts: ZoneKeyParts) -> u64 {
    parts.last_observed ^ turned(parts.snapshots, 7) ^ turned(parts.bucket_ms, 17) ^ turned(
        parts.viewport_x.bits as u64,
        23,
    ) ^ turned(parts.viewport_y.bits as u64, 29) ^ turned(parts.viewport_width.bits as u64, 37)
        ^ turned(parts.viewport_height.bits as u64, 43) ^ turned(
        parts.minimum_zone_strength.bits as u64,
        49,
    ) ^ turned(parts.max_positive_zones, 53) ^ turned(parts.max_negative_zones, 57) ^ turned(
        parts.fade_buckets,
        61,
    ) ^ parts.persistent_lookback_minutes ^ turned(parts.expiry_filter, 11) ^ turned(
        parts.gamma_source,
        31,
    ) ^ turned(parts.minimum_open_interest.bits, 41) ^ turned(
        parts.minimum_absolute_gex.bits,
        47,
    )
}

/// The key of the zone frames that are kept.
#[derive(Clone, Copy, Debug, PartialEq, Eq, Structural)]
pub struct GexRenderCache {
    pub key: Option<u64>,
}

impl GexRenderCache {
    /// Tells whether the zone frames are computed anew, and remembers the key.
    pub fn cached_gex_zone_frames(&mut self, parts: ZoneKeyParts) -> (rebuild: bool)
        ensures
            rebuild == (old(self).key != Some(zone_key(parts))),
            final(self).key == Some(zone_key(parts)),
    {
        let key: u64 = parts.last_observed ^ turn(parts.snapshots, 7) ^ turn(parts.bucket_ms, 17)
            ^ turn(parts.viewport_x.bits as u64, 23) ^ turn(parts.viewport_y.bits as u64, 29)
            ^ turn(parts.viewport_width.bits as u64, 37) ^ turn(
            parts.viewport_height.bits as u64,
            43,
        ) ^ turn(parts.minimum_zone_strength.bits as u64, 49) ^ turn(parts.max_positive_zones, 53)
            ^ turn(parts.max_negative_zones, 57) ^ turn(parts.fade_buckets, 61)
            ^ parts.persistent_lookback_minutes ^ turn(parts.expiry_filter, 11) ^ turn(
            parts.gamma_source,
            31,
        ) ^ turn(parts.minimum_open_interest.bits, 41) ^ turn(
            parts.minimum_absolute_gex.bits,
            47,
        );
        let same: bool = match self.key {
            Some(held) => held == key,
            None => false,
        };
        self.key = Some(key);
        !same
    }
}

proof fn lemma_zone_with_id(zones: Seq<GexZone>, id: u64)
    requires
        zones.len() <= usize::MAX,
    ensures
        zone_with_id(zones, id) matches Some(at) ==> at < zones.len() && zones[at as int].id == id,
    decreases zones.len(),
{
    if zones.len() > 0 {
        lemma_zone_with_id(zones.drop_last(), id);
    }
}

/// A step connects two zones with the same id in neighboring frames.
pub proof fn steps_keep_the_id(frame: int, before: Seq<GexZone>, after: Seq<GexZone>, k: int)
    requires
        before.len() <= usize::MAX,
        after.len() <= usize::MAX,
        0 <= k < steps_between(frame, before, after).len(),
    ensures
        ({
            let step = steps_between(frame, before, after)[k];
            &&& step.before < before.len()
            &&& step.after < after.len()
            &&& before[step.before as int].id == after[step.after as int].id
        }),
    decreases before.len(),
{
    let head = steps_between(frame, before.drop_last(), after);
    let all = steps_between(frame, before, after);
    if k < head.len() {
        steps_keep_the_id(frame, before.drop_last(), after, k);
        assert(all[k] == head[k]);
    } else {
        lemma_zone_with_id(after, before.last().id);
    }
}

/// Frames that ascend in time hold a bucket once: the frame that is found is the only one.
pub proof fn a_bucket_has_one_frame(frames: Seq<GexZoneFrame>, bucket: u64, at: int)
    requires
        frames.len() <= usize::MAX,
        forall|i: int, j: int|
            0 <= i < j < frames.len() ==> (#[trigger] frames[i]).bucket_start.ms < (
            #[trigger] frames[j]).bucket_start.ms,
        0 <= at < frames.len(),
        frames[at].bucket_start.ms == bucket,
    ensures
        frame_of_bucket(frames, bucket) == Some(at as usize),
{
    assert(first_frame_from(frames.take(at), bucket) is None) by {
        lemma_all_before(frames, bucket, at);
    }
    lemma_first_frame(frames, bucket, at);
}

proof fn lemma_all_before(frames: Seq<GexZoneFrame>, bucket: u64, n: int)
    requires
        0 <= n <= frames.len(),
        forall|i: int| 0 <= i < n ==> (#[trigger] frames[i]).bucket_start.ms < bucket,
    ensures
        first_frame_from(frames.take(n), bucket) is None,
    decreases n,
{
    if n > 0 {
        lemma_all_before(frames, bucket, n - 1);
        assert(frames.take(n).drop_last() =~= frames.take(n - 1));
        assert(frames.take(n).last() == frames[n - 1]);
    }
}

} // verus!
