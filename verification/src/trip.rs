//! What is settled about a recorded trip before it is cut into segments:
//! that its tracks hold points, and when each point was taken where the
//! recording does not say.

use vstd::prelude::*;

verus! {

/// How long a trip without recorded times is taken to last: six hours.
pub const TRIP_DURATION_SECONDS: u64 = 21600;

/// What a recording lacks.
#[derive(Clone, Copy, Debug, PartialEq, Eq, Structural)]
pub enum TrackError {
    /// There is no track.
    NoTracks,
    /// The track with this number, counted from 1, has no segment.
    EmptyTrack { track: usize },
    /// In the track with this number, the segment with this number, both
    /// counted from 1, has no point.
    EmptySegment { track: usize, segment: usize },
}

/// Whether the segment at `segment` of the track at `track` is the first
/// empty one of that track.
pub open spec fn first_empty_segment(counts: Seq<Seq<usize>>, track: int, segment: int) -> bool {
    &&& 0 <= segment < counts[track].len()
    &&& counts[track][segment] == 0
    &&& forall|j: int| 0 <= j < segment ==> #[trigger] counts[track][j] > 0
}

/// Whether a track has a segment and no empty one.
pub open spec fn track_complete(track: Seq<usize>) -> bool {
    &&& track.len() > 0
    &&& forall|j: int| 0 <= j < track.len() ==> #[trigger] track[j] > 0
}

/// Whether a recording has a track, every track a segment and every segment
/// a point.
pub open spec fn tracks_complete(counts: Seq<Seq<usize>>) -> bool {
    &&& counts.len() > 0
    &&& forall|i: int| 0 <= i < counts.len() ==> track_complete(#[trigger] counts[i])
}

/// What a vector of tracks holds: for each track, the number of points of
/// each of its segments.
pub open spec fn count_views(counts: Seq<Vec<usize>>) -> Seq<Seq<usize>> {
    counts.map_values(|t: Vec<usize>| t@)
}

/// Checks a recording, given the number of points of each segment of each
/// track, and names the first thing that is missing, in document order.
pub fn check_tracks(counts: &Vec<Vec<usize>>) -> (r: Result<(), TrackError>)
    ensures
        r is Ok <==> tracks_complete(count_views(counts@)),
        r == Err::<(), TrackError>(TrackError::NoTracks) <==> counts@.len() == 0,
        r matches Err(TrackError::EmptyTrack { track }) ==> {
            &&& 1 <= track <= counts@.len()
            &&& counts@[track - 1]@.len() == 0
            &&& forall|i: int| 0 <= i < track - 1 ==> track_complete(#[trigger] counts@[i]@)
        },
        r matches Err(TrackError::EmptySegment { track, segment }) ==> {
            &&& 1 <= track <= counts@.len()
            &&& first_empty_segment(count_views(counts@), track - 1, segment - 1)
            &&& forall|i: int| 0 <= i < track - 1 ==> track_complete(#[trigger] counts@[i]@)
        },
{
    let ghost views = count_views(counts@);
    if counts.len() == 0 {
        return Err(TrackError::NoTracks);
    }
    let mut i: usize = 0;
    while i < counts.len()
        invariant
            i <= counts@.len(),
            counts@.len() > 0,
            counts@.len() <= usize::MAX,
            views == count_views(counts@),
            forall|k: int| 0 <= k < i ==> track_complete(#[trigger] counts@[k]@),
        decreases counts@.len() - i,
    {
        let track = &counts[i];
        assert(views[i as int] == track@);
        if track.len() == 0 {
            assert(!track_complete(views[i as int]));
            return Err(TrackError::EmptyTrack { track: i + 1 });
        }
        let mut j: usize = 0;
        while j < track.len()
            invariant
                j <= track@.len(),
                track@.len() <= usize::MAX,
                i < counts@.len(),
                counts@.len() <= usize::MAX,
                views == count_views(counts@),
                views[i as int] == track@,
                forall|k: int| 0 <= k < i ==> track_complete(#[trigger] counts@[k]@),
                forall|k: int| 0 <= k < j ==> #[trigger] track@[k] > 0,
            decreases track@.len() - j,
        {
            if track[j] == 0 {
                assert(!track_complete(views[i as int]));
                return Err(TrackError::EmptySegment { track: i + 1, segment: j + 1 });
            }
            j = j + 1;
        }
        i = i + 1;
    }
    assert forall|k: int| 0 <= k < views.len() implies track_complete(#[trigger] views[k]) by {
        assert(track_complete(counts@[k]@));
    }
    Ok(())
}

/// The times of `count` points spread over `duration` seconds from `start`:
/// point `i` is taken `i` whole intervals after the start, an interval being
/// the duration divided by the number of points, rounded down.
pub open spec fn spec_distribute(start: i64, duration: u64, count: nat) -> Seq<i64> {
    Seq::new(count, |i: int| (start + i * (duration as int / count as int)) as i64)
}

/// Spreads the points of a trip evenly over its duration. There is nothing to
/// return for a trip without points, or for one that would end after the
/// last second that an `i64` can hold.
pub fn distribute_timestamps(start: i64, duration: u64, count: usize) -> (r: Option<Vec<i64>>)
    ensures
        r is Some <==> count >= 1 && start + duration <= i64::MAX,
        r matches Some(times) ==> times@ == spec_distribute(start, duration, count as nat),
{
    if count == 0 || start as i128 + duration as i128 > i64::MAX as i128 {
        return None;
    }
    let interval: u64 = duration / (count as u64);
    let mut times: Vec<i64> = Vec::new();
    let mut offset: u64 = 0;
    let mut i: usize = 0;
    while i < count
        invariant
            i <= count,
            count >= 1,
            interval == duration as int / count as int,
            offset == i * interval,
            offset <= duration,
            start + duration <= i64::MAX,
            times@ == spec_distribute(start, duration, count as nat).take(i as int),
        decreases count - i,
    {
        proof {
            assert((i + 1) * interval == i * interval + interval) by (nonlinear_arith);
            assert(count * interval <= duration) by (nonlinear_arith)
                requires
                    interval == duration as int / count as int,
                    count >= 1,
                    duration >= 0,
            ;
            assert((i + 1) * interval <= count * interval) by (nonlinear_arith)
                requires
                    i + 1 <= count,
                    interval >= 0,
            ;
        }
        let moment: i128 = start as i128 + offset as i128;
        times.push(moment as i64);
        i = i + 1;
        offset = offset + interval;
        assert(times@ =~= spec_distribute(start, duration, count as nat).take(i as int));
    }
    assert(times@ =~= spec_distribute(start, duration, count as nat));
    Some(times)
}

} // verus!
