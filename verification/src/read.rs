//! Fetching the points of a time window: the request and its
//! normalization, the choice of the archive that answers it, and the filter
//! applied to that archive's points.
//!
//! Instants are whole seconds since the Unix epoch.

use crate::errors::{outcome, outcome_view, ErrorKind, MementoError, MementoResult};
use crate::io::SliceReader;
use crate::parser::{
    memento_parse_archive, memento_parse_database, parse_archive_infos, parse_metadata,
    spec_parse_archive, spec_parse_archive_infos, spec_parse_database, spec_parse_header,
    spec_parse_metadata, spec_points_at,
};
use crate::types::{
    Archive, ArchiveInfo, DatabaseView, Header, HeaderView, MementoDatabase, Metadata, Point,
};
use vstd::prelude::*;
use vstd::std_specs::convert::FromSpecImpl;

verus! {

pub const SECONDS_PER_DAY: i64 = 86_400;

/// The window `[from, until]` to fetch, and the instant `now` against which
/// retention is measured.
#[derive(Debug, Clone, Copy, Hash, PartialEq, Eq, Structural)]
pub struct FetchRequest {
    pub from: i64,
    pub until: i64,
    pub now: i64,
}

/// The instant one day before `now`, or the earliest instant there is where
/// that day would lie before it.
pub open spec fn spec_day_before(now: i64) -> i64 {
    if now - SECONDS_PER_DAY >= i64::MIN {
        (now - SECONDS_PER_DAY) as i64
    } else {
        i64::MIN
    }
}

/// What is said of each kind of failure when a header is read from bytes in
/// memory and a request answered from them. A read that fails for want of
/// bytes always ends too far out, and of a header of the right length only
/// the aggregation can be refused.
pub open spec fn spec_failure_description(kind: ErrorKind) -> &'static str {
    match kind {
        ErrorKind::IoError => "read range end too large",
        ErrorKind::ParseError => "aggregation",
        ErrorKind::InvalidTimeRange => "invalid time range",
        ErrorKind::InvalidTimeStart => "invalid from time",
        ErrorKind::InvalidTimeEnd => "invalid until time",
        ErrorKind::NoArchiveAvailable => "no archive available",
        ErrorKind::CorruptDatabase => "I/O error reading archive",
    }
}

/// The system clock in seconds since the Unix epoch, read through
/// `chrono::Utc::now` and `DateTime::timestamp`. Nothing is claimed of the
/// value. `Utc::now` gives up where the clock reads an instant before the
/// epoch.
#[verifier::external_body]
fn utc_now_seconds() -> (now: i64) {
    chrono::Utc::now().timestamp()
}

impl FetchRequest {
    pub fn new(from: i64, until: i64, now: i64) -> (req: FetchRequest)
        ensures
            req == (FetchRequest { from, until, now }),
    {
        FetchRequest { from, until, now }
    }

    /// The request for the day that ends at `now`.
    pub fn last_day(now: i64) -> (req: FetchRequest)
        ensures
            req == (FetchRequest { from: spec_day_before(now), until: now, now }),
    {
        let from = if now >= i64::MIN + SECONDS_PER_DAY {
            now - SECONDS_PER_DAY
        } else {
            i64::MIN
        };
        FetchRequest { from, until: now, now }
    }

    /// This request with `val` as the start of its window.
    pub fn with_from(self, val: i64) -> (req: FetchRequest)
        ensures
            req == (FetchRequest { from: val, until: self.until, now: self.now }),
    {
        FetchRequest { from: val, until: self.until, now: self.now }
    }

    /// This request with `val` as the end of its window.
    pub fn with_until(self, val: i64) -> (req: FetchRequest)
        ensures
            req == (FetchRequest { from: self.from, until: val, now: self.now }),
    {
        FetchRequest { from: self.from, until: val, now: self.now }
    }

    /// This request measured against `val` in place of the current time.
    pub fn with_now(self, val: i64) -> (req: FetchRequest)
        ensures
            req == (FetchRequest { from: self.from, until: self.until, now: val }),
    {
        FetchRequest { from: self.from, until: self.until, now: val }
    }

    /// What normalizing against a file that retains `max_retention` seconds
    /// gives: the request itself, the request with its start moved up to the
    /// oldest retained instant, or the reason it cannot be answered.
    pub open spec fn spec_normalize(self, max_retention: u32) -> Result<FetchRequest, ErrorKind> {
        let oldest = self.now - max_retention;
        if self.until <= self.from {
            Err(ErrorKind::InvalidTimeRange)
        } else if self.from > self.now {
            Err(ErrorKind::InvalidTimeStart)
        } else if self.until < oldest {
            Err(ErrorKind::InvalidTimeEnd)
        } else if self.from < oldest {
            Ok(FetchRequest { from: oldest as i64, until: self.until, now: self.now })
        } else {
            Ok(self)
        }
    }

    /// Checks the request against the retention of a file and moves a start
    /// that is too old up to the oldest instant the file can hold.
    pub fn normalize(&self, header: &Header) -> (r: MementoResult<FetchRequest>)
        ensures
            outcome(r) == self.spec_normalize(header@.metadata.max_retention),
            r matches Err(e) ==> e.description == spec_failure_description(e.kind),
    {
        let oldest: i128 = self.now as i128 - header.metadata.max_retention as i128;

        // The window is empty or runs backwards.
        if self.until <= self.from {
            return Err(MementoError::new(ErrorKind::InvalidTimeRange, "invalid time range"));
        }
        // The window starts in the future.

        if self.from > self.now {
            return Err(MementoError::new(ErrorKind::InvalidTimeStart, "invalid from time"));
        }
        // The window ends before the oldest value there can be.

        if (self.until as i128) < oldest {
            return Err(MementoError::new(ErrorKind::InvalidTimeEnd, "invalid until time"));
        }
        // The window starts before the oldest value there can be: move it up.

        let from = if (self.from as i128) < oldest {
            oldest as i64
        } else {
            self.from
        };

        Ok(FetchRequest::new(from, self.until, self.now))
    }

    /// Seconds a file must retain to answer this request.
    pub open spec fn spec_retention(self) -> int {
        self.now - self.from
    }

    pub fn retention(&self) -> (n: i128)
        ensures
            n == self.spec_retention(),
    {
        self.now as i128 - self.from as i128
    }
}

impl Default for FetchRequest {
    /// The request for the last day, by the system clock.
    fn default() -> (req: FetchRequest)
        ensures
            req.until == req.now,
            req.from == spec_day_before(req.now),
    {
        FetchRequest::last_day(utc_now_seconds())
    }
}

/// An empty or reversed window is an invalid range, whatever the retention
/// and the current time.
pub proof fn lemma_normalize_empty_window(req: FetchRequest, max_retention: u32)
    requires
        req.until <= req.from,
    ensures
        req.spec_normalize(max_retention) == Err::<FetchRequest, ErrorKind>(
            ErrorKind::InvalidTimeRange,
        ),
{
}

/// A proper window that starts after the current time has an invalid start.
pub proof fn lemma_normalize_future_start(req: FetchRequest, max_retention: u32)
    requires
        req.from < req.until,
        req.from > req.now,
    ensures
        req.spec_normalize(max_retention) == Err::<FetchRequest, ErrorKind>(
            ErrorKind::InvalidTimeStart,
        ),
{
}

/// A proper window that ends before the oldest retained instant has an
/// invalid end.
pub proof fn lemma_normalize_end_too_old(req: FetchRequest, max_retention: u32)
    requires
        req.from < req.until,
        req.until < req.now - max_retention,
    ensures
        req.spec_normalize(max_retention) == Err::<FetchRequest, ErrorKind>(
            ErrorKind::InvalidTimeEnd,
        ),
{
}

/// A window that starts before the oldest retained instant and ends at or
/// after it is answered from the oldest retained instant on.
pub proof fn lemma_normalize_clamps_start(req: FetchRequest, max_retention: u32)
    requires
        req.from < req.now - max_retention,
        req.now - max_retention <= req.until,
    ensures
        req.spec_normalize(max_retention) == Ok::<FetchRequest, ErrorKind>(
            FetchRequest {
                from: (req.now - max_retention) as i64,
                until: req.until,
                now: req.now,
            },
        ),
        req.spec_normalize(max_retention)->Ok_0.from == req.now - max_retention,
{
}

/// A proper window that starts within the retained span, and not in the
/// future, is left as it is.
pub proof fn lemma_normalize_keeps_valid(req: FetchRequest, max_retention: u32)
    requires
        req.from < req.until,
        req.now - max_retention <= req.from <= req.now,
    ensures
        req.spec_normalize(max_retention) == Ok::<FetchRequest, ErrorKind>(req),
{
}

/// A normalized request keeps the end and the current time of the request it
/// came from, starts no earlier than that request and within the retained
/// span, does not end before it starts, and asks for no more retention than
/// the file has.
pub proof fn lemma_normalized_is_valid(req: FetchRequest, max_retention: u32)
    requires
        req.spec_normalize(max_retention) is Ok,
    ensures
        ({
            let n = req.spec_normalize(max_retention)->Ok_0;
            &&& n.from <= n.until
            &&& req.now - max_retention <= n.from <= req.now
            &&& n.until == req.until
            &&& n.now == req.now
            &&& n.from >= req.from
            &&& 0 <= n.spec_retention() <= max_retention
        }),
{
}

/// The archive chosen for a request and the points of it that fall in the
/// requested window.
#[derive(Debug, Clone, PartialEq, Eq)]
pub struct FetchResponse {
    pub archive: ArchiveInfo,
    pub points: Vec<Point>,
}

/// What a `FetchResponse` holds, as mathematical values.
pub struct ResponseView {
    pub archive: ArchiveInfo,
    pub points: Seq<Point>,
}

impl View for FetchResponse {
    type V = ResponseView;

    open spec fn view(&self) -> ResponseView {
        ResponseView { archive: self.archive, points: self.points@ }
    }
}

impl FetchResponse {
    pub fn new(archive: ArchiveInfo, points: Vec<Point>) -> (resp: FetchResponse)
        ensures
            resp@ == (ResponseView { archive, points: points@ }),
    {
        FetchResponse { archive, points }
    }

    pub fn archive(&self) -> (a: &ArchiveInfo)
        ensures
            *a == self@.archive,
    {
        &self.archive
    }

    pub fn points(&self) -> (p: &[Point])
        ensures
            p@ == self@.points,
    {
        self.points.as_slice()
    }
}

impl Default for FetchResponse {
    fn default() -> (resp: FetchResponse)
        ensures
            resp@ == (ResponseView {
                archive: ArchiveInfo { offset: 0, seconds_per_point: 0, num_points: 0 },
                points: Seq::<Point>::empty(),
            }),
    {
        FetchResponse { archive: ArchiveInfo::default(), points: Vec::new() }
    }
}

impl FromSpecImpl<FetchResponse> for (ArchiveInfo, Vec<Point>) {
    open spec fn obeys_from_spec() -> bool {
        true
    }

    open spec fn from_spec(resp: FetchResponse) -> (ArchiveInfo, Vec<Point>) {
        (resp.archive, resp.points)
    }
}

impl From<FetchResponse> for (ArchiveInfo, Vec<Point>) {
    fn from(resp: FetchResponse) -> (pair: (ArchiveInfo, Vec<Point>)) {
        (resp.archive, resp.points)
    }
}

impl FromSpecImpl<FetchResponse> for Vec<Point> {
    open spec fn obeys_from_spec() -> bool {
        true
    }

    open spec fn from_spec(resp: FetchResponse) -> Vec<Point> {
        resp.points
    }
}

impl From<FetchResponse> for Vec<Point> {
    fn from(resp: FetchResponse) -> (points: Vec<Point>) {
        resp.points
    }
}

/// `info` retains at least `required` seconds.
pub open spec fn spec_retains(info: ArchiveInfo, required: int) -> bool {
    info.spec_retention() >= required
}

/// `i` is the position of the first archive of `infos` that retains at least
/// `required` seconds.
pub open spec fn is_first_fit(infos: Seq<ArchiveInfo>, required: int, i: int) -> bool {
    &&& 0 <= i < infos.len()
    &&& spec_retains(infos[i], required)
    &&& forall|j: int| 0 <= j < i ==> !spec_retains(#[trigger] infos[j], required)
}

/// The first archive of `infos`, in their order, that retains at least
/// `required` seconds.
pub open spec fn spec_find_archive(infos: Seq<ArchiveInfo>, required: int) -> Option<ArchiveInfo> {
    if exists|i: int| is_first_fit(infos, required, i) {
        Some(infos[choose|i: int| is_first_fit(infos, required, i)])
    } else {
        None
    }
}

/// There is at most one first fit.
pub proof fn lemma_first_fit_unique(infos: Seq<ArchiveInfo>, required: int, i: int, j: int)
    requires
        is_first_fit(infos, required, i),
        is_first_fit(infos, required, j),
    ensures
        i == j,
{
    if i < j {
        assert(!spec_retains(infos[i], required));
    } else if j < i {
        assert(!spec_retains(infos[j], required));
    }
}

/// An archive is found exactly when some archive retains enough, and then it
/// is the first such archive.
pub proof fn lemma_find_archive(infos: Seq<ArchiveInfo>, required: int)
    ensures
        spec_find_archive(infos, required) is None <==> forall|i: int|
            0 <= i < infos.len() ==> !spec_retains(#[trigger] infos[i], required),
        forall|i: int|
            is_first_fit(infos, required, i) ==> spec_find_archive(infos, required) == Some(
                infos[i],
            ),
{
    assert forall|i: int| is_first_fit(infos, required, i) implies spec_find_archive(
        infos,
        required,
    ) == Some(infos[i]) by {
        let c = choose|k: int| is_first_fit(infos, required, k);
        lemma_first_fit_unique(infos, required, i, c);
    }
    if !(forall|i: int| 0 <= i < infos.len() ==> !spec_retains(#[trigger] infos[i], required)) {
        let k = choose|k: int| 0 <= k < infos.len() && spec_retains(#[trigger] infos[k], required);
        lemma_first_fit_exists(infos, required, k);
    }
}

/// Below any archive that retains enough lies a first one that does.
proof fn lemma_first_fit_exists(infos: Seq<ArchiveInfo>, required: int, k: int)
    requires
        0 <= k < infos.len(),
        spec_retains(infos[k], required),
    ensures
        exists|i: int| is_first_fit(infos, required, i),
    decreases k,
{
    if forall|j: int| 0 <= j < k ==> !spec_retains(#[trigger] infos[j], required) {
        assert(is_first_fit(infos, required, k));
    } else {
        let j = choose|j: int| 0 <= j < k && spec_retains(#[trigger] infos[j], required);
        lemma_first_fit_exists(infos, required, j);
    }
}

/// `p` was taken within `[from, until]`, both ends included.
pub open spec fn spec_in_window(p: Point, from: i64, until: i64) -> bool {
    from <= p.timestamp <= until
}

/// The test that keeps the points taken within `[from, until]`.
pub open spec fn window_filter(from: i64, until: i64) -> spec_fn(Point) -> bool {
    |p: Point| spec_in_window(p, from, until)
}

/// The points of `points` taken within `[from, until]`, in their order.
pub open spec fn spec_points_in_window(points: Seq<Point>, from: i64, until: i64) -> Seq<Point> {
    points.filter(window_filter(from, until))
}

/// Every point kept lies in the window, every point of the archive that lies
/// in the window is kept, and none is added.
pub proof fn lemma_points_in_window(points: Seq<Point>, from: i64, until: i64)
    ensures
        forall|i: int|
            0 <= i < spec_points_in_window(points, from, until).len() ==> spec_in_window(
                #[trigger] spec_points_in_window(points, from, until)[i],
                from,
                until,
            ),
        forall|i: int|
            0 <= i < points.len() && spec_in_window(points[i], from, until)
                ==> spec_points_in_window(points, from, until).contains(#[trigger] points[i]),
        spec_points_in_window(points, from, until).len() <= points.len(),
{
    let pred = window_filter(from, until);
    #[allow(deprecated)]
    points.filter_lemma(pred);
    assert forall|i: int| 0 <= i < points.filter(pred).len() implies spec_in_window(
        #[trigger] points.filter(pred)[i],
        from,
        until,
    ) by {
        assert(pred(points.filter(pred)[i]));
    }
    assert forall|i: int|
        0 <= i < points.len() && spec_in_window(points[i], from, until) implies points.filter(
        pred,
    ).contains(#[trigger] points[i]) by {
        assert(pred(points[i]));
    }
}

/// The points kept stand in the order in which the archive holds them: they
/// are the points at the positions returned, and those positions rise.
pub proof fn lemma_points_in_window_keep_order(
    points: Seq<Point>,
    from: i64,
    until: i64,
) -> (positions: Seq<int>)
    ensures
        positions.len() == spec_points_in_window(points, from, until).len(),
        forall|i: int|
            0 <= i < positions.len() ==> 0 <= #[trigger] positions[i] < points.len()
                && spec_points_in_window(points, from, until)[i] == points[positions[i]],
        forall|i: int, j: int|
            0 <= i < j < positions.len() ==> #[trigger] positions[i] < #[trigger] positions[j],
    decreases points.len(),
{
    reveal(Seq::filter);
    if points.len() == 0 {
        Seq::empty()
    } else {
        let init = lemma_points_in_window_keep_order(points.drop_last(), from, until);
        if window_filter(from, until)(points.last()) {
            init.push(points.len() - 1)
        } else {
            init
        }
    }
}

/// Chooses the archive that answers a request and picks the requested points
/// out of it.
#[derive(Debug)]
pub struct DateRangeSearch;

impl DateRangeSearch {
    pub fn new() -> Self {
        DateRangeSearch
    }

    /// Finds the first archive of the file, in header order, that retains
    /// enough to answer the request.
    pub fn find_archive<'b, 'c>(req: &'b FetchRequest, header: &'c Header) -> (r: MementoResult<
        &'c ArchiveInfo,
    >)
        ensures
            match r {
                Ok(info) => spec_find_archive(header@.archive_info, req.spec_retention()) == Some(
                    *info,
                ),
                Err(e) => {
                    &&& spec_find_archive(header@.archive_info, req.spec_retention()) is None
                    &&& e.kind == ErrorKind::NoArchiveAvailable
                    &&& e.description == spec_failure_description(e.kind)
                },
            },
    {
        let required_retention = req.retention();
        let mut i: usize = 0;
        while i < header.archive_info.len()
            invariant
                i <= header.archive_info.len(),
                required_retention == req.spec_retention(),
                forall|j: int|
                    0 <= j < i ==> !spec_retains(
                        #[trigger] header@.archive_info[j],
                        req.spec_retention(),
                    ),
            decreases header.archive_info.len() - i,
        {
            let archive = &header.archive_info[i];
            if archive.retention() as i128 >= required_retention {
                proof {
                    assert(is_first_fit(header@.archive_info, req.spec_retention(), i as int));
                    lemma_find_archive(header@.archive_info, req.spec_retention());
                }
                return Ok(archive);
            }
            i = i + 1;
        }
        proof {
            lemma_find_archive(header@.archive_info, req.spec_retention());
        }
        Err(MementoError::new(ErrorKind::NoArchiveAvailable, "no archive available"))
    }

    /// The points of the archive that the request asks for.
    pub fn points_for_request(archive: &Archive, request: &FetchRequest) -> (points: Vec<Point>)
        ensures
            points@ == spec_points_in_window(archive@, request.from, request.until),
    {
        let ghost pred = window_filter(request.from, request.until);
        let mut points: Vec<Point> = Vec::new();
        let mut i: usize = 0;
        proof {
            reveal(Seq::filter);
            assert(archive@.take(0).filter(pred) =~= Seq::<Point>::empty());
        }
        while i < archive.points.len()
            invariant
                i <= archive.points.len(),
                pred == window_filter(request.from, request.until),
                points@ == archive@.take(i as int).filter(pred),
            decreases archive.points.len() - i,
        {
            let p = archive.points[i];
            proof {
                reveal(Seq::filter);
                assert(archive@.take(i + 1).drop_last() =~= archive@.take(i as int));
                assert(archive@.take(i + 1).last() == p);
            }
            if p.timestamp as i64 >= request.from && p.timestamp as i64 <= request.until {
                points.push(p);
            }
            i = i + 1;
        }
        proof {
            assert(archive@.take(i as int) =~= archive@);
        }
        points
    }
}

/// A decoder's result without the bytes it left over.
pub fn to_full_result<T>(r: MementoResult<(&[u8], T)>) -> (full: MementoResult<T>)
    ensures
        match r {
            Ok((_, value)) => full == Ok::<T, MementoError>(value),
            Err(e) => full == Err::<T, MementoError>(e),
        },
{
    match r {
        Ok((_, value)) => Ok(value),
        Err(e) => Err(e),
    }
}

/// The error to report when reading the body of an archive failed with
/// `error`: the header promised bytes that the file does not hold, so an I/O
/// error there means a corrupt database. Any other error stays as it is.
pub fn archive_read_error(error: MementoError) -> (reported: MementoError)
    ensures
        error.kind == ErrorKind::IoError ==> reported == (MementoError {
            kind: ErrorKind::CorruptDatabase,
            description: "I/O error reading archive",
        }),
        error.kind != ErrorKind::IoError ==> reported == error,
{
    match error.kind() {
        ErrorKind::IoError => MementoError::new(
            ErrorKind::CorruptDatabase,
            "I/O error reading archive",
        ),
        _ => error,
    }
}

/// The normalized request and the archive chosen for it, or the reason the
/// request cannot be answered from a file with this header.
pub open spec fn spec_plan(header: HeaderView, req: FetchRequest) -> Result<
    (FetchRequest, ArchiveInfo),
    ErrorKind,
> {
    match req.spec_normalize(header.metadata.max_retention) {
        Err(kind) => Err(kind),
        Ok(normalized) => match spec_find_archive(
            header.archive_info,
            normalized.spec_retention(),
        ) {
            None => Err(ErrorKind::NoArchiveAvailable),
            Some(info) => Ok((normalized, info)),
        },
    }
}

/// What a search in a file holding the bytes `file`, whose header is
/// `header`, gives: the chosen archive and those of its points that lie in
/// the normalized window, or `CorruptDatabase` where the archive does not lie
/// within the file.
pub open spec fn spec_search(file: Seq<u8>, header: HeaderView, req: FetchRequest) -> Result<
    ResponseView,
    ErrorKind,
> {
    match spec_plan(header, req) {
        Err(kind) => Err(kind),
        Ok((normalized, info)) => if info.offset + info.spec_archive_size() > file.len() {
            Err(ErrorKind::CorruptDatabase)
        } else {
            Ok(
                ResponseView {
                    archive: info,
                    points: spec_points_in_window(
                        spec_points_at(file, info.offset as int, info.num_points as nat),
                        normalized.from,
                        normalized.until,
                    ),
                },
            )
        },
    }
}

/// What holds of a search whatever the reader gave: a request that cannot
/// be planned fails for its own reason; otherwise the answer names the chosen
/// archive and holds the points in the window of some archive of the announced
/// length, or the archive could not be obtained and the file is corrupt.
pub open spec fn spec_search_outcome(
    header: HeaderView,
    req: FetchRequest,
    r: MementoResult<FetchResponse>,
) -> bool {
    match spec_plan(header, req) {
        Err(kind) => r matches Err(e) && e.kind == kind,
        Ok((normalized, info)) => match r {
            Ok(resp) => {
                &&& resp@.archive == info
                &&& exists|points: Seq<Point>|
                    {
                        &&& points.len() == info.num_points
                        &&& resp@.points == #[trigger] spec_points_in_window(
                            points,
                            normalized.from,
                            normalized.until,
                        )
                    }
            },
            Err(e) => e.kind == ErrorKind::CorruptDatabase,
        },
    }
}

/// A search fails for what is wrong with the request, for want of an
/// archive, or because the file is corrupt: never with an I/O error or a
/// parse error.
pub proof fn lemma_search_failures(
    header: HeaderView,
    req: FetchRequest,
    r: MementoResult<FetchResponse>,
)
    requires
        spec_search_outcome(header, req, r),
        r is Err,
    ensures
        r->Err_0.kind != ErrorKind::IoError,
        r->Err_0.kind != ErrorKind::ParseError,
        r->Err_0.kind == ErrorKind::CorruptDatabase <==> spec_plan(header, req) is Ok,
{
}

/// Every point of an answer lies in the normalized window of the request,
/// and the answer holds no more points than the chosen archive.
pub proof fn lemma_search_answers_in_window(
    header: HeaderView,
    req: FetchRequest,
    r: MementoResult<FetchResponse>,
)
    requires
        spec_search_outcome(header, req, r),
        r is Ok,
    ensures
        spec_plan(header, req) is Ok,
        ({
            let (normalized, info) = spec_plan(header, req)->Ok_0;
            let resp = r->Ok_0@;
            &&& resp.archive == info
            &&& resp.points.len() <= info.num_points
            &&& forall|i: int|
                0 <= i < resp.points.len() ==> normalized.from <= (
                #[trigger] resp.points[i]).timestamp <= normalized.until
            &&& forall|i: int|
                0 <= i < resp.points.len() ==> req.from <= (
                #[trigger] resp.points[i]).timestamp <= req.until
        }),
{
    let (normalized, info) = spec_plan(header, req)->Ok_0;
    let resp = r->Ok_0@;
    let points = choose|points: Seq<Point>|
        {
            &&& points.len() == info.num_points
            &&& resp.points == #[trigger] spec_points_in_window(
                points,
                normalized.from,
                normalized.until,
            )
        };
    lemma_points_in_window(points, normalized.from, normalized.until);
    lemma_normalized_is_valid(req, header.metadata.max_retention);
}

impl DateRangeSearch {
    /// Answers a request from the file behind `reader`, whose header is
    /// `header`.
    pub fn search<T: SliceReader>(&self, reader: &mut T, header: &Header, req: &FetchRequest) -> (r:
        MementoResult<FetchResponse>)
        ensures
            final(reader).backing() == old(reader).backing(),
            spec_search_outcome(header@, *req, r),
            r matches Err(e) ==> e.description == spec_failure_description(e.kind),
            old(reader).backing() matches Some(file) ==> outcome_view(r) == spec_search(
                file,
                header@,
                *req,
            ),
    {
        // Check that the requested window is one this file can answer, and
        // move its start up where that alone stands in the way.
        let req = match req.normalize(header) {
            Ok(normalized) => normalized,
            Err(e) => {
                return Err(e);
            },
        };
        let archive_info = match Self::find_archive(&req, header) {
            Ok(info) => info,
            Err(e) => {
                return Err(e);
            },
        };
        // The part of the file to look at is the archive that can answer
        // the window.
        let archive_offset = archive_info.offset() as u64;
        let archive_len = archive_info.archive_size();
        let consumer = |v: &[u8]| -> (parsed: MementoResult<Archive>)
            ensures
                match parsed {
                    Ok(archive) => spec_parse_archive(v@, archive_info.num_points as nat)
                        matches Ok((points, _)) && points == archive@,
                    Err(e) => spec_parse_archive(v@, archive_info.num_points as nat) is Err
                        && e.kind == ErrorKind::ParseError,
                },
            { to_full_result(memento_parse_archive(v, archive_info)) };
        let archive = match reader.consume(archive_offset, archive_len, consumer) {
            Ok(archive) => archive,
            Err(e) => {
                return Err(archive_read_error(e));
            },
        };
        let points = Self::points_for_request(&archive, &req);
        // The record of the archive goes along with the points, so that the
        // resolution of the data can be told without looking at the points.
        let resp = FetchResponse::new(*archive_info, points);
        proof {
            assert(archive@.len() == archive_info.num_points);
            assert(spec_points_in_window(archive@, req.from, req.until) == resp@.points);
            if let Some(file) = old(reader).backing() {
                assert(archive@ =~= spec_points_at(
                    file,
                    archive_info.offset as int,
                    archive_info.num_points as nat,
                ));
            }
        }
        Ok(resp)
    }
}

/// What reading the header of a file holding the bytes `file` gives: the
/// metadata from the first sixteen bytes, then the archive records it
/// announces from the bytes that follow. A file too short for either fails
/// with `IoError`.
pub open spec fn spec_read_header(file: Seq<u8>) -> Result<HeaderView, ErrorKind> {
    if file.len() < 16 {
        Err(ErrorKind::IoError)
    } else {
        match spec_parse_metadata(file.subrange(0, 16)) {
            Err(_) => Err(ErrorKind::ParseError),
            Ok((metadata, _)) => if 16 + 12 * metadata.archive_count > file.len() {
                Err(ErrorKind::IoError)
            } else {
                match spec_parse_archive_infos(
                    file.subrange(16, 16 + 12 * metadata.archive_count),
                    metadata.archive_count as nat,
                ) {
                    Err(_) => Err(ErrorKind::ParseError),
                    Ok((archive_info, _)) => Ok(HeaderView { metadata, archive_info }),
                }
            },
        }
    }
}

/// What reading a whole file holding the bytes `file` gives.
pub open spec fn spec_read_database(file: Seq<u8>) -> Result<DatabaseView, ErrorKind> {
    match spec_parse_database(file) {
        Err(_) => Err(ErrorKind::ParseError),
        Ok((database, _)) => Ok(database),
    }
}

/// What answering a request from a file holding the bytes `file` gives.
pub open spec fn spec_read_range(file: Seq<u8>, req: FetchRequest) -> Result<
    ResponseView,
    ErrorKind,
> {
    match spec_read_header(file) {
        Err(kind) => Err(kind),
        Ok(header) => spec_search(file, header, req),
    }
}

/// Bounds are enforced: where the archive chosen for a request does not lie
/// within the file, as in a file cut off after its header, the read fails
/// with `CorruptDatabase`.
pub proof fn lemma_archive_beyond_end_is_corrupt(file: Seq<u8>, req: FetchRequest)
    requires
        spec_read_header(file) is Ok,
        spec_plan(spec_read_header(file)->Ok_0, req) is Ok,
        ({
            let info = spec_plan(spec_read_header(file)->Ok_0, req)->Ok_0.1;
            info.offset + info.spec_archive_size() > file.len()
        }),
    ensures
        spec_read_range(file, req) == Err::<ResponseView, ErrorKind>(ErrorKind::CorruptDatabase),
{
}

/// Reading the header of a file gives what parsing its bytes as a header
/// gives, wherever the file holds the whole header.
pub proof fn lemma_read_header_is_parse_header(file: Seq<u8>)
    ensures
        spec_parse_header(file) matches Ok((header, _)) ==> spec_read_header(file) == Ok::<
            HeaderView,
            ErrorKind,
        >(header),
        spec_read_header(file) matches Ok(header) ==> spec_parse_header(file) is Ok
            && spec_parse_header(file)->Ok_0.0 == header,
{
    if file.len() >= 16 {
        let head = file.subrange(0, 16);
        assert(spec_parse_metadata(head) is Ok <==> spec_parse_metadata(file) is Ok);
        if spec_parse_metadata(file) is Ok {
            let meta = spec_parse_metadata(file)->Ok_0.0;
            assert(spec_parse_metadata(head)->Ok_0.0 == meta);
            let count = meta.archive_count as nat;
            if 16 + 12 * count <= file.len() {
                let records = file.subrange(16, 16 + 12 * count as int);
                assert(spec_parse_archive_infos(records, count)->Ok_0.0
                    =~= spec_parse_archive_infos(file.skip(16), count)->Ok_0.0);
            }
        }
    }
}

/// Reads Whisper structures through a `SliceReader`.
pub struct MementoParser<'a, T: SliceReader> {
    reader: &'a mut T,
}

impl<'a, T: SliceReader> MementoParser<'a, T> {
    /// A parser that reads through `reader`.
    pub fn new(reader: &'a mut T) -> (parser: Self)
        ensures
            parser.reader() == *old(reader),
            parser.backing() == old(reader).backing(),
    {
        MementoParser { reader }
    }

    /// The reader that this parser reads through, as it now stands.
    pub closed spec fn reader(&self) -> T {
        *self.reader
    }

    /// The bytes of the file behind the reader, where they are fixed.
    pub closed spec fn backing(&self) -> Option<Seq<u8>> {
        self.reader.backing()
    }

    /// Reads the header: the metadata first, then as many bytes as the
    /// archive records it announces take.
    pub fn read_header(&mut self) -> (r: MementoResult<Header>)
        ensures
            final(self).backing() == old(self).backing(),
            r matches Ok(header) ==> header@.is_consistent(),
            r matches Err(e) ==> e.kind == ErrorKind::IoError || e.kind == ErrorKind::ParseError,
            r matches Err(e) ==> (e.kind == ErrorKind::ParseError || old(self).backing() is Some)
                ==> e.description == spec_failure_description(e.kind),
            old(self).backing() matches Some(file) ==> outcome_view(r) == spec_read_header(file),
    {
        let metadata_sz = Metadata::storage() as u64;
        let metadata_consumer = |v: &[u8]| -> (parsed: MementoResult<Metadata>)
            ensures
                match parsed {
                    Ok(metadata) => spec_parse_metadata(v@) matches Ok((m, _)) && m == metadata,
                    Err(e) => spec_parse_metadata(v@) == Err::<(Metadata, Seq<u8>), &'static str>(
                        e.description,
                    ) && e.kind == ErrorKind::ParseError,
                },
            { to_full_result(parse_metadata(v)) };
        let metadata = match self.reader.consume(0, metadata_sz, metadata_consumer) {
            Ok(metadata) => metadata,
            Err(e) => {
                return Err(e);
            },
        };

        let infos_sz = metadata.archive_info_size();
        let infos_consumer = |v: &[u8]| -> (parsed: MementoResult<Vec<ArchiveInfo>>)
            ensures
                match parsed {
                    Ok(infos) => spec_parse_archive_infos(v@, metadata.archive_count as nat)
                        matches Ok((i, _)) && i == infos@,
                    Err(e) => spec_parse_archive_infos(v@, metadata.archive_count as nat) is Err
                        && e.kind == ErrorKind::ParseError,
                },
            { to_full_result(parse_archive_infos(v, &metadata)) };
        let infos = match self.reader.consume(metadata_sz, infos_sz, infos_consumer) {
            Ok(infos) => infos,
            Err(e) => {
                return Err(e);
            },
        };

        Ok(Header::new(metadata, infos))
    }

    /// Reads the whole file.
    pub fn read_database(&mut self) -> (r: MementoResult<MementoDatabase>)
        ensures
            final(self).backing() == old(self).backing(),
            r matches Ok(database) ==> database@.is_consistent(),
            r matches Err(e) ==> e.kind == ErrorKind::IoError || e.kind == ErrorKind::ParseError,
            old(self).backing() matches Some(file) ==> outcome_view(r) == spec_read_database(file),
            old(self).backing() matches Some(file) ==> (r matches Err(e) ==> spec_parse_database(
                file,
            ) == Err::<(DatabaseView, Seq<u8>), &'static str>(e.description)),
    {
        let consumer = |v: &[u8]| -> (parsed: MementoResult<MementoDatabase>)
            ensures
                match parsed {
                    Ok(database) => spec_parse_database(v@) matches Ok((d, _)) && d == database@,
                    Err(e) => spec_parse_database(v@) == Err::<
                        (DatabaseView, Seq<u8>),
                        &'static str,
                    >(e.description) && e.kind == ErrorKind::ParseError,
                },
                parsed matches Ok(database) ==> database@.is_consistent(),
            { to_full_result(memento_parse_database(v)) };
        let r = self.reader.consume_all(consumer);
        proof {
            if let Some(file) = old(self).backing() {
                assert(file.subrange(0, file.len() as int) =~= file);
            }
        }
        r
    }

    /// Answers a request: reads the header, then searches the archive that
    /// the request calls for.
    pub fn read_range(&mut self, req: &FetchRequest) -> (r: MementoResult<FetchResponse>)
        ensures
            final(self).backing() == old(self).backing(),
            r is Ok ==> exists|header: HeaderView|
                #[trigger] header.is_consistent() && spec_search_outcome(header, *req, r),
            r matches Err(e) ==> (e.kind != ErrorKind::IoError || old(self).backing() is Some)
                ==> e.description == spec_failure_description(e.kind),
            old(self).backing() matches Some(file) ==> outcome_view(r) == spec_read_range(
                file,
                *req,
            ),
    {
        let header = match self.read_header() {
            Ok(header) => header,
            Err(e) => {
                return Err(e);
            },
        };
        let range = DateRangeSearch::new();
        let r = range.search(self.reader, &header, req);
        proof {
            assert(header@.is_consistent() && spec_search_outcome(header@, *req, r));
        }
        r
    }
}

} // verus!
