//! The execution trace: a rectangular table of field elements, one row per
//! step of a trip, held column by column.

use crate::field::{canon, field_sub, is_canonical, reduce, MODULUS};
use crate::gps::PublicInputs;
use crate::normalize::{
    fits_trace, is_power_of_two, lemma_next_power_of_two, lemma_pow2_positive, next_power_of_two,
    normalize, spec_normalize, NormalizedStep, TripError, MAX_TRACE_LENGTH,
};
use crate::segment::GpsPoint;
use vstd::arithmetic::power2::is_pow2;
use vstd::prelude::*;

verus! {

/// Column of the latitude.
pub const LAT_COLUMN: usize = 0;

/// Column of the longitude.
pub const LON_COLUMN: usize = 1;

/// Column of the time.
pub const TIME_COLUMN: usize = 2;

/// Column of the time elapsed since the row before.
pub const TIME_DELTA_COLUMN: usize = 3;

/// Number of columns of a trace built from waypoints.
pub const TRACE_WIDTH: usize = 4;

/// The widest trace there is.
pub const MAX_TRACE_WIDTH: usize = 255;

/// Why a set of columns is not a trace.
#[derive(Clone, Copy, Debug, PartialEq, Eq, Structural)]
pub enum ShapeError {
    /// There is no column.
    NoColumns,
    /// There are more than `MAX_TRACE_WIDTH` columns.
    TooWide,
    /// The number of rows is not a power of two, or is above `MAX_TRACE_LENGTH`.
    BadLength,
    /// A column differs in length from the first one.
    RaggedColumns,
    /// A cell is not a canonical field element.
    NonCanonicalCell,
}

/// Number of columns of a table.
pub open spec fn width(table: Seq<Seq<u128>>) -> nat {
    table.len()
}

/// Number of rows of a table with at least one column.
pub open spec fn length(table: Seq<Seq<u128>>) -> nat {
    table[0].len()
}

/// One row of a table.
pub open spec fn row(table: Seq<Seq<u128>>, step: int) -> Seq<u128> {
    Seq::new(table.len(), |c: int| table[c][step])
}

/// All columns have the length of the first one.
pub open spec fn rectangular(table: Seq<Seq<u128>>) -> bool {
    forall|c: int| 0 <= c < table.len() ==> (#[trigger] table[c]).len() == table[0].len()
}

/// All cells of the first `columns` columns are canonical field elements.
pub open spec fn canonical_cells(table: Seq<Seq<u128>>, columns: int) -> bool {
    forall|c: int, r: int|
        0 <= c < columns && 0 <= r < table[c].len() ==> is_canonical(#[trigger] table[c][r])
}

/// What makes a table a trace: between 1 and `MAX_TRACE_WIDTH` columns of one
/// length, which is a power of two within `MAX_TRACE_LENGTH`, and canonical
/// cells.
pub open spec fn well_formed(table: Seq<Seq<u128>>) -> bool {
    &&& 1 <= table.len() <= MAX_TRACE_WIDTH
    &&& is_pow2(table[0].len() as int)
    &&& fits_trace(table[0].len())
    &&& rectangular(table)
    &&& canonical_cells(table, table.len() as int)
}

/// The trace of a sequence of steps: latitude, longitude and time of step `i`
/// in row `i`, and beside them the time elapsed since row `i - 1` (0 in row 0).
pub open spec fn spec_build(steps: Seq<NormalizedStep>) -> Seq<Seq<u128>> {
    seq![
        Seq::new(steps.len(), |i: int| canon(steps[i].lat_fixed as int) as u128),
        Seq::new(steps.len(), |i: int| canon(steps[i].lon_fixed as int) as u128),
        Seq::new(steps.len(), |i: int| canon(steps[i].time as int) as u128),
        Seq::new(
            steps.len(),
            |i: int|
                if i == 0 {
                    0u128
                } else {
                    canon(steps[i].time - steps[i - 1].time) as u128
                },
        ),
    ]
}

/// The endpoints of a table with at least two columns: its first and last
/// rows, read in the latitude, longitude and (where there is one) time column.
pub open spec fn spec_extract(table: Seq<Seq<u128>>) -> PublicInputs {
    let last = length(table) - 1;
    PublicInputs {
        lat: table[LAT_COLUMN as int][0],
        lon: table[LON_COLUMN as int][0],
        next_lat: table[LAT_COLUMN as int][last],
        next_lon: table[LON_COLUMN as int][last],
        time: if table.len() > TIME_COLUMN {
            table[TIME_COLUMN as int][0]
        } else {
            0
        },
        next_time: if table.len() > TIME_COLUMN {
            table[TIME_COLUMN as int][last]
        } else {
            0
        },
    }
}

/// A four-column table continued to `rows` rows: each added row repeats the
/// last row's latitude, longitude and time, with no time elapsed.
pub open spec fn spec_extend(table: Seq<Seq<u128>>, rows: nat) -> Seq<Seq<u128>> {
    let n = length(table);
    Seq::new(
        table.len(),
        |c: int|
            Seq::new(
                if rows > n {
                    rows
                } else {
                    n
                },
                |r: int|
                    if r < n {
                        table[c][r]
                    } else if c == TIME_DELTA_COLUMN {
                        0u128
                    } else {
                        table[c][n - 1]
                    },
            ),
    )
}

/// Width and length of a trace: what the constraint system is told of it.
#[derive(Clone, Copy, Debug, PartialEq, Eq, Structural)]
pub struct TraceInfo {
    width: usize,
    length: usize,
}

impl TraceInfo {
    /// Number of columns.
    pub closed spec fn spec_width(self) -> nat {
        self.width as nat
    }

    /// Number of rows.
    pub closed spec fn spec_length(self) -> nat {
        self.length as nat
    }

    /// The shape is one that a trace can have.
    pub open spec fn wf(self) -> bool {
        shape_ok(self.spec_width(), self.spec_length())
    }

    /// Every shape that exists is one that a trace can have.
    #[verifier::type_invariant]
    pub open spec fn inv(self) -> bool {
        self.wf()
    }

    /// The shape of `width` columns and `length` rows; `None` unless a trace
    /// can have it.
    pub fn new(width: usize, length: usize) -> (r: Option<TraceInfo>)
        ensures
            r is Some <==> shape_ok(width as nat, length as nat),
            r matches Some(info) ==> info.spec_width() == width && info.spec_length() == length,
    {
        if width == 0 || width > MAX_TRACE_WIDTH || !is_power_of_two(length) || length as u64
            > MAX_TRACE_LENGTH {
            return None;
        }
        Some(TraceInfo { width, length })
    }

    /// Number of columns.
    pub fn width(&self) -> (w: usize)
        ensures
            w == self.spec_width(),
            1 <= w <= MAX_TRACE_WIDTH,
    {
        proof {
            use_type_invariant(self);
        }
        self.width
    }

    /// Number of rows: a power of two.
    pub fn length(&self) -> (n: usize)
        ensures
            n == self.spec_length(),
            n >= 1,
            is_pow2(n as int),
            fits_trace(n as nat),
    {
        proof {
            use_type_invariant(self);
            lemma_pow2_positive(self.length as int);
        }
        self.length
    }
}

/// Whether a trace can have `width` columns and `length` rows.
pub open spec fn shape_ok(width: nat, length: nat) -> bool {
    &&& 1 <= width <= MAX_TRACE_WIDTH
    &&& is_pow2(length as int)
    &&& fits_trace(length)
}

/// The table that a vector of columns holds.
pub open spec fn table_of(columns: Seq<Vec<u128>>) -> Seq<Seq<u128>> {
    Seq::new(columns.len(), |c: int| columns[c]@)
}

/// An execution trace. Its view is the table, column by column.
pub struct Trace {
    columns: Vec<Vec<u128>>,
}

impl View for Trace {
    type V = Seq<Seq<u128>>;

    closed spec fn view(&self) -> Seq<Seq<u128>> {
        table_of(self.columns@)
    }
}

impl Trace {
    /// Every trace is well formed.
    #[verifier::type_invariant]
    pub open spec fn inv(self) -> bool {
        well_formed(self@)
    }

    /// Makes a trace of the given columns, or says what is wrong with them.
    pub fn init(columns: Vec<Vec<u128>>) -> (r: Result<Trace, ShapeError>)
        ensures
            r is Ok <==> well_formed(table_of(columns@)),
            r matches Ok(trace) ==> trace@ == table_of(columns@),
            r matches Err(e) ==> e == first_defect(table_of(columns@)),
    {
        let ghost table = table_of(columns@);
        if columns.len() == 0 {
            return Err(ShapeError::NoColumns);
        }
        if columns.len() > MAX_TRACE_WIDTH {
            return Err(ShapeError::TooWide);
        }
        let rows = columns[0].len();
        assert(table[0] == columns@[0]@);
        if !is_power_of_two(rows) || rows as u64 > MAX_TRACE_LENGTH {
            return Err(ShapeError::BadLength);
        }
        let mut c: usize = 0;
        while c < columns.len()
            invariant
                c <= columns@.len(),
                1 <= columns@.len() <= MAX_TRACE_WIDTH,
                table == table_of(columns@),
                rows == table[0].len(),
                is_pow2(rows as int),
                fits_trace(rows as nat),
                forall|k: int| 0 <= k < c ==> (#[trigger] table[k]).len() == rows,
            decreases columns@.len() - c,
        {
            if columns[c].len() != rows {
                assert(table[c as int].len() != table[0].len());
                return Err(ShapeError::RaggedColumns);
            }
            c = c + 1;
        }
        assert(rectangular(table));
        let mut c: usize = 0;
        while c < columns.len()
            invariant
                c <= columns@.len(),
                1 <= columns@.len() <= MAX_TRACE_WIDTH,
                table == table_of(columns@),
                rows == table[0].len(),
                is_pow2(rows as int),
                fits_trace(rows as nat),
                rectangular(table),
                canonical_cells(table, c as int),
            decreases columns@.len() - c,
        {
            let mut r: usize = 0;
            assert(table[c as int].len() == rows);
            while r < rows
                invariant
                    c < columns@.len(),
                    r <= rows,
                    1 <= columns@.len() <= MAX_TRACE_WIDTH,
                    table == table_of(columns@),
                    rows == table[0].len(),
                    rows == table[c as int].len(),
                    is_pow2(rows as int),
                    fits_trace(rows as nat),
                    rectangular(table),
                    forall|k: int| 0 <= k < r ==> is_canonical(#[trigger] table[c as int][k]),
                decreases rows - r,
            {
                if columns[c][r] >= MODULUS {
                    assert(!is_canonical(table[c as int][r as int]));
                    return Err(ShapeError::NonCanonicalCell);
                }
                r = r + 1;
            }
            c = c + 1;
        }
        let trace = Trace { columns };
        Ok(trace)
    }

    /// Number of columns.
    pub fn width(&self) -> (w: usize)
        ensures
            w == width(self@),
            1 <= w <= MAX_TRACE_WIDTH,
    {
        proof {
            use_type_invariant(self);
        }
        self.columns.len()
    }

    /// Number of rows: a power of two.
    pub fn length(&self) -> (n: usize)
        ensures
            n == length(self@),
            n >= 1,
            is_pow2(n as int),
    {
        proof {
            use_type_invariant(self);
            reveal(is_pow2);
        }
        self.columns[0].len()
    }

    /// The cell in the given column and row.
    pub fn get(&self, column: usize, step: usize) -> (value: u128)
        requires
            column < width(self@),
            step < length(self@),
        ensures
            value == self@[column as int][step as int],
            is_canonical(value),
    {
        proof {
            use_type_invariant(self);
            assert(self@[column as int].len() == self@[0].len());
        }
        self.columns[column][step]
    }

    /// Continues a four-column trace to at least `rows` rows, each added row
    /// repeating the last one with no time elapsed. `None` unless the trace has
    /// `TRACE_WIDTH` columns and `rows` is a power of two within
    /// `MAX_TRACE_LENGTH`.
    pub fn extended(&self, rows: usize) -> (r: Option<Trace>)
        ensures
            r is Some <==> width(self@) == TRACE_WIDTH && is_pow2(rows as int) && fits_trace(
                rows as nat,
            ),
            r matches Some(trace) ==> trace@ == spec_extend(self@, rows as nat) && well_formed(
                trace@,
            ),
    {
        proof {
            use_type_invariant(self);
        }
        if self.columns.len() != TRACE_WIDTH || !is_power_of_two(rows) || rows as u64
            > MAX_TRACE_LENGTH {
            return None;
        }
        let n = self.columns[0].len();
        proof {
            lemma_pow2_positive(n as int);
        }
        let target = if rows > n {
            rows
        } else {
            n
        };
        let ghost model = spec_extend(self@, rows as nat);
        let mut columns: Vec<Vec<u128>> = Vec::new();
        let mut c: usize = 0;
        while c < TRACE_WIDTH
            invariant
                c <= TRACE_WIDTH,
                well_formed(self@),
                self@ == table_of(self.columns@),
                self@.len() == TRACE_WIDTH,
                n == self@[0].len(),
                n >= 1,
                target >= n,
                target == model[0].len(),
                model == spec_extend(self@, rows as nat),
                columns@.len() == c,
                forall|k: int| 0 <= k < c ==> (#[trigger] columns@[k])@ == model[k],
            decreases TRACE_WIDTH - c,
        {
            let source = &self.columns[c];
            assert(source@ == self@[c as int]);
            assert(self@[c as int].len() == n);
            let fill = if c == TIME_DELTA_COLUMN {
                0
            } else {
                source[n - 1]
            };
            let mut column: Vec<u128> = Vec::new();
            let mut r: usize = 0;
            while r < target
                invariant
                    r <= target,
                    c < TRACE_WIDTH,
                    self@.len() == TRACE_WIDTH,
                    source@ == self@[c as int],
                    source@.len() == n,
                    n >= 1,
                    target == model[c as int].len(),
                    model == spec_extend(self@, rows as nat),
                    n == self@[0].len(),
                    fill == (if c == TIME_DELTA_COLUMN {
                        0u128
                    } else {
                        source@[n - 1]
                    }),
                    column@ == model[c as int].take(r as int),
                decreases target - r,
            {
                let value = if r < n {
                    source[r]
                } else {
                    fill
                };
                column.push(value);
                r = r + 1;
                assert(column@ =~= model[c as int].take(r as int));
            }
            assert(column@ =~= model[c as int]);
            columns.push(column);
            c = c + 1;
        }
        proof {
            let table = table_of(columns@);
            assert(table =~= model);
            lemma_extend_well_formed(self@, rows as nat);
        }
        Some(Trace { columns })
    }

    /// Width and length of the trace.
    pub fn info(&self) -> (info: TraceInfo)
        ensures
            info.spec_width() == width(self@),
            info.spec_length() == length(self@),
    {
        proof {
            use_type_invariant(self);
        }
        TraceInfo { width: self.columns.len(), length: self.columns[0].len() }
    }

    /// One row of the trace.
    pub fn read_row(&self, step: usize) -> (cells: Vec<u128>)
        requires
            step < length(self@),
        ensures
            cells@ == row(self@, step as int),
    {
        proof {
            use_type_invariant(self);
        }
        let mut cells: Vec<u128> = Vec::new();
        let mut c: usize = 0;
        while c < self.columns.len()
            invariant
                c <= self.columns@.len(),
                well_formed(self@),
                self@ == table_of(self.columns@),
                step < length(self@),
                cells@ == row(self@, step as int).take(c as int),
            decreases self.columns@.len() - c,
        {
            assert(self@[c as int].len() == self@[0].len());
            cells.push(self.columns[c][step]);
            c = c + 1;
            assert(cells@ =~= row(self@, step as int).take(c as int));
        }
        assert(cells@ =~= row(self@, step as int));
        cells
    }

    /// The table, column by column.
    pub fn columns(&self) -> (columns: &Vec<Vec<u128>>)
        ensures
            table_of(columns@) == self@,
    {
        &self.columns
    }
}

/// Lays the steps of a trip out as a trace of `TRACE_WIDTH` columns.
pub fn build(steps: &Vec<NormalizedStep>) -> (trace: Trace)
    requires
        is_pow2(steps@.len() as int),
        fits_trace(steps@.len()),
    ensures
        trace@ == spec_build(steps@),
        well_formed(trace@),
{
    let n = steps.len();
    let mut lat: Vec<u128> = Vec::new();
    let mut lon: Vec<u128> = Vec::new();
    let mut time: Vec<u128> = Vec::new();
    let mut delta: Vec<u128> = Vec::new();
    let ghost model = spec_build(steps@);
    let mut i: usize = 0;
    while i < n
        invariant
            n == steps@.len(),
            i <= n,
            model == spec_build(steps@),
            lat@ == model[0].take(i as int),
            lon@ == model[1].take(i as int),
            time@ == model[2].take(i as int),
            delta@ == model[3].take(i as int),
            forall|k: int| 0 <= k < i ==> is_canonical(#[trigger] lat@[k]),
            forall|k: int| 0 <= k < i ==> is_canonical(#[trigger] lon@[k]),
            forall|k: int| 0 <= k < i ==> is_canonical(#[trigger] time@[k]),
            forall|k: int| 0 <= k < i ==> is_canonical(#[trigger] delta@[k]),
        decreases n - i,
    {
        let step = steps[i];
        let elapsed = if i == 0 {
            0
        } else {
            field_sub(step.time, steps[i - 1].time)
        };
        lat.push(reduce(step.lat_fixed));
        lon.push(reduce(step.lon_fixed));
        time.push(reduce(step.time));
        delta.push(elapsed);
        i = i + 1;
        proof {
            assert(lat@ =~= model[0].take(i as int));
            assert(lon@ =~= model[1].take(i as int));
            assert(time@ =~= model[2].take(i as int));
            assert(delta@ =~= model[3].take(i as int));
        }
    }
    proof {
        assert(lat@ =~= model[0]);
        assert(lon@ =~= model[1]);
        assert(time@ =~= model[2]);
        assert(delta@ =~= model[3]);
    }
    let mut columns: Vec<Vec<u128>> = Vec::new();
    columns.push(lat);
    columns.push(lon);
    columns.push(time);
    columns.push(delta);
    proof {
        let table = table_of(columns@);
        assert(table =~= model);
        assert(canonical_cells(table, 4)) by {
            assert forall|c: int, r: int|
                0 <= c < 4 && 0 <= r < table[c].len() implies is_canonical(
                #[trigger] table[c][r],
            ) by {
                if c == 0 {
                    assert(is_canonical(lat@[r]));
                } else if c == 1 {
                    assert(is_canonical(lon@[r]));
                } else if c == 2 {
                    assert(is_canonical(time@[r]));
                } else {
                    assert(is_canonical(delta@[r]));
                }
            }
        }
    }
    Trace { columns }
}

/// Normalizes a trip and builds its trace: `next_power_of_two(L)` rows for
/// `L` waypoints, the rows after the last waypoint repeating it with no time
/// elapsed.
pub fn build_gps_trace_from_gpx(points: &Vec<GpsPoint>) -> (r: Result<Trace, TripError>)
    ensures
        match r {
            Ok(trace) => {
                &&& points@.len() >= 1
                &&& fits_trace(next_power_of_two(points@.len()))
                &&& trace@ == spec_build(spec_normalize(points@))
                &&& well_formed(trace@)
            },
            Err(TripError::EmptyTrip) => points@.len() == 0,
            Err(TripError::TooLong) => points@.len() >= 1 && !fits_trace(
                next_power_of_two(points@.len()),
            ),
        },
{
    match normalize(points) {
        Ok(steps) => {
            proof {
                lemma_next_power_of_two(points@.len());
            }
            Ok(build(&steps))
        },
        Err(e) => Err(e),
    }
}

/// Reads the endpoints of a trace: its first and last rows.
pub fn extract(trace: &Trace) -> (inputs: PublicInputs)
    requires
        width(trace@) >= 2,
    ensures
        inputs == spec_extract(trace@),
        inputs.wf(),
{
    let last = trace.length() - 1;
    let timed = trace.width() > TIME_COLUMN;
    PublicInputs {
        lat: trace.get(LAT_COLUMN, 0),
        lon: trace.get(LON_COLUMN, 0),
        next_lat: trace.get(LAT_COLUMN, last),
        next_lon: trace.get(LON_COLUMN, last),
        time: if timed {
            trace.get(TIME_COLUMN, 0)
        } else {
            0
        },
        next_time: if timed {
            trace.get(TIME_COLUMN, last)
        } else {
            0
        },
    }
}

/// Continuing a four-column trace gives a trace.
pub proof fn lemma_extend_well_formed(table: Seq<Seq<u128>>, rows: nat)
    requires
        well_formed(table),
        table.len() == TRACE_WIDTH,
        is_pow2(rows as int),
        fits_trace(rows),
    ensures
        well_formed(spec_extend(table, rows)),
{
    let extended = spec_extend(table, rows);
    let n = length(table);
    lemma_pow2_positive(n as int);
    assert forall|c: int, r: int|
        0 <= c < extended.len() && 0 <= r < extended[c].len() implies is_canonical(
        #[trigger] extended[c][r],
    ) by {
        assert(table[c].len() == n);
        if r < n {
            assert(is_canonical(table[c][r]));
        } else if c != TIME_DELTA_COLUMN {
            assert(is_canonical(table[c][n - 1]));
        }
    }
}

/// The first thing that is wrong with a table, in the order in which `init`
/// looks: no column, too many, a bad length, a ragged column, a cell out of
/// the field.
pub open spec fn first_defect(table: Seq<Seq<u128>>) -> ShapeError {
    if table.len() == 0 {
        ShapeError::NoColumns
    } else if table.len() > MAX_TRACE_WIDTH {
        ShapeError::TooWide
    } else if !is_pow2(table[0].len() as int) || !fits_trace(table[0].len()) {
        ShapeError::BadLength
    } else if !rectangular(table) {
        ShapeError::RaggedColumns
    } else {
        ShapeError::NonCanonicalCell
    }
}

/// What is told of one row of a trace: its number, counted from 1, its
/// latitude, longitude and time, and the time that passes until the next
/// row, where there is one.
#[derive(Clone, Copy, Debug, PartialEq, Eq, Structural)]
pub struct StepRecord {
    pub step: usize,
    pub lat: u128,
    pub lon: u128,
    pub time: u128,
    pub time_to_next: Option<u128>,
}

/// The record of row `i` of a table with at least three columns.
pub open spec fn spec_record(table: Seq<Seq<u128>>, i: int) -> StepRecord {
    StepRecord {
        step: (i + 1) as usize,
        lat: table[LAT_COLUMN as int][i],
        lon: table[LON_COLUMN as int][i],
        time: table[TIME_COLUMN as int][i],
        time_to_next: if i + 1 < length(table) {
            Some(canon(table[TIME_COLUMN as int][i + 1] - table[TIME_COLUMN as int][i]) as u128)
        } else {
            None
        },
    }
}

/// The records of all rows of a table, in order.
pub open spec fn spec_records(table: Seq<Seq<u128>>) -> Seq<StepRecord> {
    Seq::new(length(table), |i: int| spec_record(table, i))
}

/// Describes a trace row by row, for whoever prints it.
pub fn trace_steps(trace: &Trace) -> (records: Vec<StepRecord>)
    requires
        width(trace@) > TIME_COLUMN,
    ensures
        records@ == spec_records(trace@),
{
    let n = trace.length();
    let mut records: Vec<StepRecord> = Vec::new();
    let mut i: usize = 0;
    while i < n
        invariant
            i <= n,
            n == length(trace@),
            width(trace@) > TIME_COLUMN,
            records@ == spec_records(trace@).take(i as int),
        decreases n - i,
    {
        let time = trace.get(TIME_COLUMN, i);
        let time_to_next = if i + 1 < n {
            Some(field_sub(trace.get(TIME_COLUMN, i + 1), time))
        } else {
            None
        };
        records.push(
            StepRecord {
                step: i + 1,
                lat: trace.get(LAT_COLUMN, i),
                lon: trace.get(LON_COLUMN, i),
                time,
                time_to_next,
            },
        );
        i = i + 1;
        assert(records@ =~= spec_records(trace@).take(i as int));
    }
    assert(records@ =~= spec_records(trace@));
    records
}

} // verus!
