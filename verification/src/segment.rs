//! Waypoints in fixed-point form, and the segmenter that bounds the size of a trace.

use crate::fixed::{parse_fixed, spec_parse_fixed};
use crate::xml::{
    attribute_views, event_views, next_event, open_document, pending_events, xml_events,
    AttributeView, EventView, RawAttribute, XmlEvent,
};
use vstd::prelude::*;

verus! {

/// Degrees are held as integers in units of `1 / SCALE` of a degree.
pub const SCALE: u64 = 10_000_000;

/// The longest segment that is proved as one trace.
pub const DEFAULT_SEGMENT_LENGTH: usize = 1024;

/// One reading of a receiver: latitude and longitude in units of `1 / SCALE`
/// of a degree, and the time in seconds since the Unix epoch (0 when the
/// source gave none).
#[derive(Clone, Copy, Debug, PartialEq, Eq, Structural)]
pub struct GpsPoint {
    pub lat: i64,
    pub lon: i64,
    pub _time: u64,
}

impl GpsPoint {
    /// The point of a reading whose timestamp is signed: a time before the
    /// epoch counts as none, which is 0.
    pub fn from_reading(lat: i64, lon: i64, timestamp: i64) -> (point: GpsPoint)
        ensures
            point.lat == lat,
            point.lon == lon,
            point._time == (if timestamp < 0 {
                0
            } else {
                timestamp
            }),
    {
        GpsPoint {
            lat,
            lon,
            _time: if timestamp < 0 {
                0
            } else {
                timestamp as u64
            },
        }
    }
}

/// The chunks of a trip: every chunk but the last holds `max_len` points, the
/// last one holds what is left, and no chunk is empty.
pub open spec fn spec_segment(points: Seq<GpsPoint>, max_len: nat) -> Seq<Seq<GpsPoint>>
    decreases points.len(),
{
    if points.len() == 0 || max_len == 0 {
        Seq::empty()
    } else if points.len() <= max_len {
        seq![points]
    } else {
        seq![points.take(max_len as int)] + spec_segment(points.skip(max_len as int), max_len)
    }
}

/// The chunks held by a vector of vectors.
pub open spec fn chunk_views(chunks: Seq<Vec<GpsPoint>>) -> Seq<Seq<GpsPoint>> {
    chunks.map_values(|c: Vec<GpsPoint>| c@)
}

/// The segments of a trip, put end to end, are the trip; none is empty and
/// none is longer than `max_len`.
pub proof fn lemma_segments_cover(points: Seq<GpsPoint>, max_len: nat)
    requires
        max_len >= 1,
    ensures
        spec_segment(points, max_len).flatten() == points,
        forall|k: int|
            0 <= k < spec_segment(points, max_len).len() ==> 1 <= (#[trigger] spec_segment(
                points,
                max_len,
            )[k]).len() <= max_len,
    decreases points.len(),
{
    let segments = spec_segment(points, max_len);
    if points.len() == 0 {
        assert(segments.flatten() =~= points);
    } else if points.len() <= max_len {
        segments.lemma_flatten_singleton();
    } else {
        let head = points.take(max_len as int);
        let rest = points.skip(max_len as int);
        let tail = spec_segment(rest, max_len);
        lemma_segments_cover(rest, max_len);
        assert(segments.first() == head);
        assert(segments.drop_first() =~= tail);
        assert(segments.flatten() == head + tail.flatten());
        assert(head + rest =~= points);
        assert forall|k: int| 0 <= k < segments.len() implies 1 <= (#[trigger] segments[k]).len()
            <= max_len by {
            if k > 0 {
                assert(segments[k] == tail[k - 1]);
            }
        }
    }
}

/// Splits a trip into contiguous chunks of at most `max_len` points.
pub fn segment(points: &Vec<GpsPoint>, max_len: usize) -> (chunks: Vec<Vec<GpsPoint>>)
    requires
        max_len >= 1,
    ensures
        chunk_views(chunks@) == spec_segment(points@, max_len as nat),
        chunk_views(chunks@).flatten() == points@,
        forall|k: int| 0 <= k < chunks@.len() ==> 1 <= (#[trigger] chunks@[k]).len() <= max_len,
{
    let total = points.len();
    let mut chunks: Vec<Vec<GpsPoint>> = Vec::new();
    let mut offset: usize = 0;
    assert(points@.skip(0) =~= points@);
    assert(chunk_views(chunks@) =~= Seq::<Seq<GpsPoint>>::empty());
    while offset < total
        invariant
            max_len >= 1,
            total == points@.len(),
            offset <= total,
            spec_segment(points@, max_len as nat) == chunk_views(chunks@) + spec_segment(
                points@.skip(offset as int),
                max_len as nat,
            ),
        decreases total - offset,
    {
        let remaining = total - offset;
        let size = if remaining <= max_len {
            remaining
        } else {
            max_len
        };
        let mut chunk: Vec<GpsPoint> = Vec::new();
        let mut taken: usize = 0;
        while taken < size
            invariant
                total == points@.len(),
                offset + size <= total,
                taken <= size,
                chunk@ == points@.subrange(offset as int, offset + taken),
            decreases size - taken,
        {
            chunk.push(points[offset + taken]);
            taken = taken + 1;
            assert(chunk@ =~= points@.subrange(offset as int, offset + taken));
        }
        proof {
            let rest = points@.skip(offset as int);
            let old_views = chunk_views(chunks@);
            assert(chunk@ =~= rest.take(size as int));
            if remaining <= max_len {
                assert(rest.take(size as int) =~= rest);
                assert(points@.skip(offset + size) =~= Seq::<GpsPoint>::empty());
                assert(spec_segment(points@.skip(offset + size), max_len as nat)
                    =~= Seq::<Seq<GpsPoint>>::empty());
            } else {
                assert(rest.skip(max_len as int) =~= points@.skip(offset + size));
            }
            assert(chunk_views(chunks@.push(chunk)) =~= old_views.push(chunk@));
            assert(old_views.push(chunk@) + spec_segment(
                points@.skip(offset + size),
                max_len as nat,
            ) =~= old_views + spec_segment(rest, max_len as nat));
        }
        chunks.push(chunk);
        offset = offset + size;
    }
    proof {
        assert(spec_segment(points@.skip(offset as int), max_len as nat)
            =~= Seq::<Seq<GpsPoint>>::empty());
        assert(chunk_views(chunks@) =~= spec_segment(points@, max_len as nat));
        lemma_segments_cover(points@, max_len as nat);
        assert forall|k: int| 0 <= k < chunks@.len() implies 1 <= (#[trigger] chunks@[k]).len()
            <= max_len by {
            assert(chunk_views(chunks@)[k] == chunks@[k]@);
        }
    }
    chunks
}

/// The name of a track point element: `trkpt`.
pub open spec fn track_point_name() -> Seq<u8> {
    seq![116u8, 114u8, 107u8, 112u8, 116u8]
}

/// The key of the latitude attribute: `lat`.
pub open spec fn latitude_key() -> Seq<u8> {
    seq![108u8, 97u8, 116u8]
}

/// The key of the longitude attribute: `lon`.
pub open spec fn longitude_key() -> Seq<u8> {
    seq![108u8, 111u8, 110u8]
}

/// The value of the first attribute with the given key.
pub open spec fn find_attribute(attributes: Seq<AttributeView>, key: Seq<u8>) -> Option<Seq<u8>>
    decreases attributes.len(),
{
    if attributes.len() == 0 {
        None
    } else if attributes[0].key == key {
        Some(attributes[0].value)
    } else {
        find_attribute(attributes.drop_first(), key)
    }
}

/// The coordinate that the first attribute with the given key writes, where
/// there is one and it is decimal text.
pub open spec fn spec_coordinate(attributes: Seq<AttributeView>, key: Seq<u8>) -> Option<i64> {
    match find_attribute(attributes, key) {
        Some(value) => spec_parse_fixed(value),
        None => None,
    }
}

/// What the scanner remembers between events: the coordinates of the track
/// point that was opened last, where they could be read, and the points
/// found so far.
pub struct ScanState {
    pub lat: Option<i64>,
    pub lon: Option<i64>,
    pub points: Seq<GpsPoint>,
}

/// The state before the first event.
pub open spec fn initial_state() -> ScanState {
    ScanState { lat: None, lon: None, points: Seq::empty() }
}

/// The state after one more event. The start of a track point sets both
/// coordinates anew; its end adds a point, with time 0, where both could be
/// read; nothing else changes anything.
pub open spec fn spec_step(state: ScanState, event: EventView) -> ScanState {
    match event {
        EventView::Start { name, attributes } => if name == track_point_name() {
            ScanState {
                lat: spec_coordinate(attributes, latitude_key()),
                lon: spec_coordinate(attributes, longitude_key()),
                points: state.points,
            }
        } else {
            state
        },
        EventView::End { name } => if name == track_point_name() && state.lat is Some
            && state.lon is Some {
            ScanState {
                lat: state.lat,
                lon: state.lon,
                points: state.points.push(
                    GpsPoint { lat: state.lat->Some_0, lon: state.lon->Some_0, _time: 0 },
                ),
            }
        } else {
            state
        },
        EventView::Other => state,
    }
}

/// The state after a sequence of events.
pub open spec fn spec_scan(events: Seq<EventView>) -> ScanState
    decreases events.len(),
{
    if events.len() == 0 {
        initial_state()
    } else {
        spec_step(spec_scan(events.drop_last()), events.last())
    }
}

/// The track points of a sequence of events.
pub open spec fn spec_track_points(events: Seq<EventView>) -> Seq<GpsPoint> {
    spec_scan(events).points
}

/// Reads the track points out of the events of a document, one at a time.
pub struct TrackScanner {
    lat: Option<i64>,
    lon: Option<i64>,
    points: Vec<GpsPoint>,
}

impl View for TrackScanner {
    type V = ScanState;

    closed spec fn view(&self) -> ScanState {
        ScanState { lat: self.lat, lon: self.lon, points: self.points@ }
    }
}

impl TrackScanner {
    /// A scanner that has seen no event.
    pub fn new() -> (scanner: TrackScanner)
        ensures
            scanner@ == initial_state(),
    {
        TrackScanner { lat: None, lon: None, points: Vec::new() }
    }

    /// Takes one event in.
    pub fn step(&mut self, event: &XmlEvent)
        ensures
            final(self)@ == spec_step(old(self)@, event@),
    {
        match event {
            XmlEvent::Start { name, attributes } => {
                if is_track_point(name) {
                    self.lat = coordinate(attributes, Coordinate::Latitude);
                    self.lon = coordinate(attributes, Coordinate::Longitude);
                }
            },
            XmlEvent::End { name } => {
                if is_track_point(name) {
                    match (self.lat, self.lon) {
                        (Some(lat), Some(lon)) => {
                            self.points.push(GpsPoint { lat, lon, _time: 0 });
                        },
                        _ => {},
                    }
                }
            },
            XmlEvent::Other => {},
        }
    }

    /// The points found.
    pub fn finish(self) -> (points: Vec<GpsPoint>)
        ensures
            points@ == self@.points,
    {
        self.points
    }
}

/// Which coordinate of a track point.
#[derive(Clone, Copy, Debug, PartialEq, Eq, Structural)]
pub enum Coordinate {
    Latitude,
    Longitude,
}

impl Coordinate {
    /// The key of the attribute that holds the coordinate.
    pub open spec fn key(self) -> Seq<u8> {
        match self {
            Coordinate::Latitude => latitude_key(),
            Coordinate::Longitude => longitude_key(),
        }
    }
}

/// Whether a tag name is `trkpt`.
fn is_track_point(name: &Vec<u8>) -> (yes: bool)
    ensures
        yes == (name@ == track_point_name()),
{
    let yes = name.len() == 5 && name[0] == 116 && name[1] == 114 && name[2] == 107 && name[3]
        == 112 && name[4] == 116;
    proof {
        if yes {
            assert(name@ =~= track_point_name());
        }
    }
    yes
}

/// Whether an attribute key is the one of the given coordinate.
fn is_key(key: &Vec<u8>, which: Coordinate) -> (yes: bool)
    ensures
        yes == (key@ == which.key()),
{
    let third: u8 = match which {
        Coordinate::Latitude => 116,
        Coordinate::Longitude => 110,
    };
    let second: u8 = match which {
        Coordinate::Latitude => 97,
        Coordinate::Longitude => 111,
    };
    let yes = key.len() == 3 && key[0] == 108 && key[1] == second && key[2] == third;
    proof {
        if yes {
            assert(key@ =~= which.key());
        }
    }
    yes
}

/// Reads one coordinate out of the attributes of a track point.
pub fn coordinate(attributes: &Vec<RawAttribute>, which: Coordinate) -> (r: Option<i64>)
    ensures
        r == spec_coordinate(attribute_views(attributes@), which.key()),
{
    let ghost views = attribute_views(attributes@);
    let mut i: usize = 0;
    assert(views.skip(0) =~= views);
    while i < attributes.len()
        invariant
            i <= attributes@.len(),
            views == attribute_views(attributes@),
            find_attribute(views, which.key()) == find_attribute(views.skip(i as int), which.key()),
        decreases attributes@.len() - i,
    {
        let ghost rest = views.skip(i as int);
        assert(rest[0] == attributes@[i as int]@);
        if is_key(&attributes[i].key, which) {
            return parse_fixed(attributes[i].value.as_slice());
        }
        assert(rest.drop_first() =~= views.skip(i + 1));
        i = i + 1;
    }
    None
}

/// Reads the track points out of a sequence of events.
pub fn collect_track_points(events: &Vec<XmlEvent>) -> (points: Vec<GpsPoint>)
    ensures
        points@ == spec_track_points(event_views(events@)),
{
    let ghost views = event_views(events@);
    let mut scanner = TrackScanner::new();
    let mut i: usize = 0;
    assert(views.take(0) =~= Seq::<EventView>::empty());
    while i < events.len()
        invariant
            i <= events@.len(),
            views == event_views(events@),
            scanner@ == spec_scan(views.take(i as int)),
        decreases events@.len() - i,
    {
        scanner.step(&events[i]);
        proof {
            let seen = views.take(i + 1);
            assert(seen.drop_last() =~= views.take(i as int));
            assert(seen.last() == events@[i as int]@);
        }
        i = i + 1;
    }
    assert(views.take(i as int) =~= views);
    scanner.finish()
}

/// Reads the track points of a GPX document: one point for every `trkpt`
/// element whose `lat` and `lon` attributes are decimal text, in document
/// order, each with time 0. Reading stops at the first thing that is not
/// well-formed XML; the points found before it are returned.
pub fn parse_gpx(gpx_data: &str) -> (points: Vec<GpsPoint>)
    ensures
        points@ == spec_track_points(xml_events(gpx_data@)),
{
    let ghost all = xml_events(gpx_data@);
    let mut reader = open_document(gpx_data);
    let mut scanner = TrackScanner::new();
    let ghost mut seen: Seq<EventView> = Seq::empty();
    assert(seen + pending_events(reader) =~= all);
    loop
        invariant_except_break
            all == seen + pending_events(reader),
            scanner@ == spec_scan(seen),
        ensures
            scanner@ == spec_scan(all),
        decreases pending_events(reader).len(),
    {
        let ghost before = pending_events(reader);
        match next_event(&mut reader) {
            Some(event) => {
                scanner.step(&event);
                proof {
                    let longer = seen.push(event@);
                    assert(longer.drop_last() =~= seen);
                    assert(longer + before.skip(1) =~= seen + before);
                    seen = longer;
                }
            },
            None => {
                assert(seen + before =~= seen);
                break ;
            },
        }
    }
    scanner.finish()
}

} // verus!
