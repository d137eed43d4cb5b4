use chrono::{DateTime, Utc};
use memento::codes::MementoErrorCode;
use memento::encoder::{memento_encode_archive, memento_encode_database, memento_encode_header};
use memento::errors::{ErrorKind, MementoError, MementoResult};
use memento::types::{
    AggregationType, Archive, ArchiveInfo, Data, Header, MementoDatabase, Metadata, Point,
};
use memento::read::archive_read_error;
use memento::{
    DateRangeSearch, FetchRequest, FetchResponse, MementoParser, SeekRead, SliceReaderDirect,
    SliceReaderMapped,
};
use std::io::{Cursor, Read, Seek, SeekFrom};

const DAY: i64 = 86_400;

/// A cursor over bytes in memory, as a source to seek and read.
struct Source(Cursor<Vec<u8>>);

impl SeekRead for Source {
    fn seek_to(&mut self, offset: u64) -> MementoResult<u64> {
        self.0
            .seek(SeekFrom::Start(offset))
            .map_err(|_| MementoError::new(ErrorKind::IoError, "seek failed"))
    }

    fn read_into(&mut self, limit: Option<u64>, buf: &mut Vec<u8>) -> MementoResult<()> {
        let read = match limit {
            Some(n) => (&mut self.0).take(n).read_to_end(buf),
            None => self.0.read_to_end(buf),
        };
        match read {
            Ok(_) => Ok(()),
            Err(_) => Err(MementoError::new(ErrorKind::IoError, "read failed")),
        }
    }
}

fn get_file_header() -> Header {
    let metadata = Metadata::new(
        AggregationType::Average,
        3600 * 24 * 30,    // max retention
        0.3f32.to_bits(),  // x files factor
        2,                 // two archives
    );
    let info1 = ArchiveInfo::new(
        (Metadata::storage() + ArchiveInfo::storage() * 2) as u32, // offset
        60,                                                        // seconds per point
        60 * 24 * 1, // number of 1 minute points = 60 per hour * 24 hours * 1 days
    );
    let info2 = ArchiveInfo::new(
        info1.offset() + info1.archive_size() as u32, // offset
        300,                                          // seconds per point
        12 * 24 * 7, // number of 5 minute points = 12 per hour * 24 hours * 7 days
    );

    Header::new(metadata, vec![info1, info2])
}

fn get_archive(info: &ArchiveInfo, now: DateTime<Utc>) -> Archive {
    let start_secs = now.timestamp() as u32 - info.retention() as u32;

    let vals = (0..info.num_points())
        .map(|i| start_secs + (i * info.seconds_per_point()))
        .map(|t| Point::new(t, 7.0f64.to_bits()))
        .collect();

    Archive::new(vals)
}

fn parse_utc(val: &str) -> DateTime<Utc> {
    DateTime::parse_from_str(val, "%Y-%m-%dT%H:%M:%S%z")
        .map(|dt| dt.with_timezone(&Utc))
        .unwrap()
}

fn get_file(header: &Header, start: DateTime<Utc>) -> Vec<u8> {
    let archive1 = get_archive(&header.archive_info()[0], start);
    let archive2 = get_archive(&header.archive_info()[1], start);

    let mut buf = vec![];
    memento_encode_header(&mut buf, header).unwrap();
    memento_encode_archive(&mut buf, &archive1).unwrap();
    memento_encode_archive(&mut buf, &archive2).unwrap();
    buf.shrink_to_fit();
    buf
}

#[test]
fn test_read_no_archives_for_request() {
    let now = parse_utc("1997-08-27T02:14:00+0000");
    let from = parse_utc("1997-08-04T12:00:00+0000");
    let until = parse_utc("1997-08-07T12:00:00+0000");

    let header = get_file_header();

    let req = FetchRequest::default()
        .with_now(now.timestamp())
        .with_from(from.timestamp())
        .with_until(until.timestamp());

    let mut buf = vec![];
    memento_encode_header(&mut buf, &header).unwrap();
    buf.shrink_to_fit();

    let mut reader = SliceReaderMapped::new(&buf);
    let range = DateRangeSearch::new();
    let res = range.search(&mut reader, &header, &req);

    assert!(res.is_err());
    assert_eq!(ErrorKind::NoArchiveAvailable, res.unwrap_err().kind());
}

#[test]
fn test_read_invalid_archive_offset() {
    let now = parse_utc("1997-08-27T02:14:00+0000");
    let from = parse_utc("1997-08-26T12:00:00+0000");
    let until = parse_utc("1997-08-26T18:00:00+0000");

    let header = get_file_header();

    let req = FetchRequest::default()
        .with_now(now.timestamp())
        .with_from(from.timestamp())
        .with_until(until.timestamp());

    let mut buf = vec![];
    memento_encode_header(&mut buf, &header).unwrap();
    buf.shrink_to_fit();

    // The buffer holds the header alone, so the first archive lies past
    // its end.
    let mut reader = SliceReaderMapped::new(&buf);
    let range = DateRangeSearch::new();
    let res = range.search(&mut reader, &header, &req);

    assert!(res.is_err());
    assert_eq!(ErrorKind::CorruptDatabase, res.unwrap_err().kind());
}

#[test]
fn test_read_invalid_archive_size() {
    let now = parse_utc("1997-08-27T02:14:00+0000");
    let from = parse_utc("1997-08-26T12:00:00+0000");
    let until = parse_utc("1997-08-26T18:00:00+0000");

    let header = get_file_header();
    let buf = get_file(&header, now);

    let req = FetchRequest::default()
        .with_now(now.timestamp())
        .with_from(from.timestamp())
        .with_until(until.timestamp());

    // The reader gets little more than the header: the archive starts
    // within the bytes it has and ends far beyond them.
    let mut reader = SliceReaderMapped::new(&buf[0..80]);
    let range = DateRangeSearch::new();
    let res = range.search(&mut reader, &header, &req);

    assert!(res.is_err());
    assert_eq!(ErrorKind::CorruptDatabase, res.unwrap_err().kind());
}

#[test]
fn test_read_all_points_before_from() {
    let now = parse_utc("1997-08-27T02:14:00+0000");
    let from = parse_utc("1997-08-26T12:00:00+0000");
    let until = parse_utc("1997-08-26T18:00:00+0000");

    let header = get_file_header();
    // Every point of the finer archive is older than the start of the
    // window.
    let start = parse_utc("1997-08-20T12:00:00+0000");
    let buf = get_file(&header, start);

    let req = FetchRequest::default()
        .with_now(now.timestamp())
        .with_from(from.timestamp())
        .with_until(until.timestamp());

    let mut reader = SliceReaderMapped::new(&buf);
    let range = DateRangeSearch::new();
    let res = range.search(&mut reader, &header, &req);

    assert!(res.is_ok());
    assert!(res.unwrap().points().is_empty());
}

#[test]
fn test_read_all_points_after_until() {
    let now = parse_utc("1997-08-27T02:14:00+0000");
    let from = parse_utc("1997-08-26T12:00:00+0000");
    let until = parse_utc("1997-08-26T18:00:00+0000");

    let header = get_file_header();
    // Every point of the finer archive is newer than the end of the window.
    let start = parse_utc("1997-08-27T18:05:00+0000");
    let buf = get_file(&header, start);

    let req = FetchRequest::default()
        .with_now(now.timestamp())
        .with_from(from.timestamp())
        .with_until(until.timestamp());

    let mut reader = SliceReaderMapped::new(&buf);
    let range = DateRangeSearch::new();
    let res = range.search(&mut reader, &header, &req);

    assert!(res.is_ok());
    assert!(res.unwrap().points().is_empty());
}

#[test]
fn test_read_success_high_resolution() {
    let now = parse_utc("1997-08-27T02:14:00+0000");
    let from = parse_utc("1997-08-26T12:00:00+0000");
    let until = parse_utc("1997-08-26T18:01:00+0000");

    let header = get_file_header();
    // Two points of the finer archive overlap the tail of the window.
    let start = parse_utc("1997-08-27T18:00:00+0000");
    let buf = get_file(&header, start);

    let req = FetchRequest::default()
        .with_now(now.timestamp())
        .with_from(from.timestamp())
        .with_until(until.timestamp());

    let mut reader = SliceReaderMapped::new(&buf);
    let range = DateRangeSearch::new();
    let res = range.search(&mut reader, &header, &req);

    assert!(res.is_ok());

    let response = res.unwrap();
    assert_eq!(2, response.points().len());
    assert_eq!(
        &vec![
            Point::new(until.timestamp() as u32 - 60, 7.0f64.to_bits()),
            Point::new(until.timestamp() as u32, 7.0f64.to_bits()),
        ] as &[Point],
        response.points()
    );
    assert_eq!(60, response.archive().seconds_per_point());
}

#[test]
fn test_read_success_low_resolution() {
    let now = parse_utc("1997-08-27T02:14:00+0000");
    let from = parse_utc("1997-08-20T12:00:00+0000");
    let until = parse_utc("1997-08-20T18:05:00+0000");

    let header = get_file_header();
    // Two points of the coarser archive overlap the tail of the window.
    let start = parse_utc("1997-08-27T18:00:00+0000");
    let buf = get_file(&header, start);

    let req = FetchRequest::default()
        .with_now(now.timestamp())
        .with_from(from.timestamp())
        .with_until(until.timestamp());

    let mut reader = SliceReaderMapped::new(&buf);
    let range = DateRangeSearch::new();
    let res = range.search(&mut reader, &header, &req);

    assert!(res.is_ok());

    let response = res.unwrap();
    assert_eq!(2, response.points().len());
    assert_eq!(
        &vec![
            Point::new(until.timestamp() as u32 - 300, 7.0f64.to_bits()),
            Point::new(until.timestamp() as u32, 7.0f64.to_bits()),
        ] as &[Point],
        response.points()
    );
    assert_eq!(300, response.archive().seconds_per_point());
    assert_eq!(&header.archive_info()[1], response.archive());
}

#[test]
fn test_fetch_request_normalize_nonsense_request() {
    let header = get_file_header();
    let now = parse_utc("1997-08-27T02:14:00+0000").timestamp();

    let req = FetchRequest::new(now - 100, now - 100, now);
    let err = req.normalize(&header).unwrap_err();
    assert_eq!(ErrorKind::InvalidTimeRange, err.kind());
    assert_eq!("invalid time range", err.description());

    let req = FetchRequest::new(now - 100, now - 200, now);
    assert_eq!(ErrorKind::InvalidTimeRange, req.normalize(&header).unwrap_err().kind());

    // An empty window is turned down first, wherever it lies.
    let req = FetchRequest::new(now + 1, now + 1, now);
    assert_eq!(ErrorKind::InvalidTimeRange, req.normalize(&header).unwrap_err().kind());
}

#[test]
fn test_fetch_request_normalize_future_start_time() {
    let header = get_file_header();
    let now = parse_utc("1997-08-27T02:14:00+0000").timestamp();

    let req = FetchRequest::new(now + 1, now + 60, now);
    let err = req.normalize(&header).unwrap_err();
    assert_eq!(ErrorKind::InvalidTimeStart, err.kind());
    assert_eq!("invalid from time", err.description());

    let req = FetchRequest::new(now, now + 60, now);
    assert_eq!(Ok(req), req.normalize(&header).map_err(|e| e.kind()));
}

#[test]
fn test_fetch_request_normalize_end_exceeds_retention() {
    let header = get_file_header();
    let now = parse_utc("1997-08-27T02:14:00+0000").timestamp();
    let oldest = now - 30 * DAY;

    let req = FetchRequest::new(oldest - 100, oldest - 1, now);
    let err = req.normalize(&header).unwrap_err();
    assert_eq!(ErrorKind::InvalidTimeEnd, err.kind());
    assert_eq!("invalid until time", err.description());

    let req = FetchRequest::new(oldest - 100, oldest, now);
    let normalized = req.normalize(&header).unwrap();
    assert_eq!(FetchRequest::new(oldest, oldest, now), normalized);
}

#[test]
fn test_fetch_request_normalize_from_older_than_oldest() {
    let header = get_file_header();
    let now = parse_utc("1997-08-27T02:14:00+0000").timestamp();
    let oldest = now - 30 * DAY;

    let req = FetchRequest::new(oldest - 100, now, now);
    let normalized = req.normalize(&header).unwrap();
    assert_eq!(oldest, normalized.from);
    assert_eq!(now, normalized.until);
    assert_eq!(now, normalized.now);
    assert_eq!((30 * DAY) as i128, normalized.retention());
}

#[test]
fn test_fetch_request_normalize_from_not_older_than_oldest() {
    let header = get_file_header();
    let now = parse_utc("1997-08-27T02:14:00+0000").timestamp();
    let oldest = now - 30 * DAY;

    let req = FetchRequest::new(oldest + 100, now, now);
    assert_eq!(req, req.normalize(&header).unwrap());

    let req = FetchRequest::new(oldest, oldest + 1, now);
    assert_eq!(req, req.normalize(&header).unwrap());
}

#[test]
fn test_fetch_request_normalize_at_the_ends_of_time() {
    let header = get_file_header();

    let req = FetchRequest::new(i64::MIN, i64::MAX, i64::MAX);
    let normalized = req.normalize(&header).unwrap();
    assert_eq!(i64::MAX - 30 * DAY, normalized.from);

    let req = FetchRequest::new(i64::MIN, i64::MIN + 1, i64::MIN);
    assert_eq!(ErrorKind::InvalidTimeStart, FetchRequest::new(i64::MIN + 1, i64::MIN + 2, i64::MIN)
        .normalize(&header)
        .unwrap_err()
        .kind());
    assert_eq!(req, req.normalize(&header).unwrap());
    assert_eq!(i64::MAX as i128 - i64::MIN as i128, FetchRequest::new(i64::MIN, 0, i64::MAX).retention());
}

#[test]
fn test_fetch_request_builders() {
    let req = FetchRequest::new(1, 2, 3);
    assert_eq!(1, req.from);
    assert_eq!(2, req.until);
    assert_eq!(3, req.now);
    assert_eq!(FetchRequest::new(9, 2, 3), req.with_from(9));
    assert_eq!(FetchRequest::new(1, 9, 3), req.with_until(9));
    assert_eq!(FetchRequest::new(1, 2, 9), req.with_now(9));
    assert_eq!(2, req.retention());
}

#[test]
fn test_fetch_request_last_day() {
    let now = parse_utc("1997-08-27T02:14:00+0000").timestamp();
    assert_eq!(FetchRequest::new(now - DAY, now, now), FetchRequest::last_day(now));
    assert_eq!(FetchRequest::new(i64::MIN, i64::MIN + 5, i64::MIN + 5), FetchRequest::last_day(i64::MIN + 5));
    assert_eq!(FetchRequest::new(i64::MIN, i64::MIN + DAY, i64::MIN + DAY), FetchRequest::last_day(i64::MIN + DAY));
}

#[test]
fn test_fetch_request_default_is_the_last_day() {
    let before = Utc::now().timestamp();
    let req = FetchRequest::default();
    let after = Utc::now().timestamp();

    assert_eq!(req.now, req.until);
    assert_eq!(req.now - DAY, req.from);
    assert!(before <= req.now && req.now <= after);
}

fn three_tier_header() -> Header {
    let metadata = Metadata::new(AggregationType::Average, 365 * DAY as u32, 0, 3);
    Header::new(
        metadata,
        vec![
            ArchiveInfo::new(52, 60, 1440),
            ArchiveInfo::new(17332, 300, 2016),
            ArchiveInfo::new(41524, 3600, 720),
        ],
    )
}

#[test]
fn test_find_archive_first_that_fits() {
    let header = three_tier_header();
    let now = 1_000_000_000;

    let six_days = FetchRequest::new(now - 6 * DAY, now, now);
    let info = DateRangeSearch::find_archive(&six_days, &header).unwrap();
    assert_eq!(7 * DAY as u64, info.retention());
    assert_eq!(&header.archive_info()[1], info);

    let one_day = FetchRequest::new(now - DAY, now, now);
    assert_eq!(&header.archive_info()[0], DateRangeSearch::find_archive(&one_day, &header).unwrap());

    let just_over = FetchRequest::new(now - DAY - 1, now, now);
    assert_eq!(&header.archive_info()[1], DateRangeSearch::find_archive(&just_over, &header).unwrap());

    let thirty_days = FetchRequest::new(now - 30 * DAY, now, now);
    assert_eq!(&header.archive_info()[2], DateRangeSearch::find_archive(&thirty_days, &header).unwrap());

    let thirty_one_days = FetchRequest::new(now - 31 * DAY, now, now);
    let err = DateRangeSearch::find_archive(&thirty_one_days, &header).unwrap_err();
    assert_eq!(ErrorKind::NoArchiveAvailable, err.kind());
    assert_eq!("no archive available", err.description());
}

#[test]
fn test_find_archive_goes_by_retention_not_position() {
    let metadata = Metadata::new(AggregationType::Average, 30 * DAY as u32, 0, 3);
    let header = Header::new(
        metadata,
        vec![
            ArchiveInfo::new(52, 3600, 720),
            ArchiveInfo::new(8692, 60, 1440),
            ArchiveInfo::new(25972, 300, 2016),
        ],
    );
    let now = 1_000_000_000;
    let req = FetchRequest::new(now - 3600, now, now);
    assert_eq!(&header.archive_info()[0], DateRangeSearch::find_archive(&req, &header).unwrap());
}

#[test]
fn test_find_archive_without_archives() {
    let header = Header::new(Metadata::new(AggregationType::Average, 60, 0, 0), vec![]);
    let req = FetchRequest::new(0, 10, 10);
    let err = DateRangeSearch::find_archive(&req, &header).unwrap_err();
    assert_eq!(ErrorKind::NoArchiveAvailable, err.kind());
}

#[test]
fn test_points_for_request_keeps_the_window_in_order() {
    let archive = Archive::new(vec![
        Point::new(50, 1),
        Point::new(10, 2),
        Point::new(0, 3),
        Point::new(20, 4),
        Point::new(9, 5),
        Point::new(21, 6),
        Point::new(10, 7),
        Point::new(u32::MAX, 8),
    ]);
    let req = FetchRequest::new(10, 20, 100);
    let points = DateRangeSearch::points_for_request(&archive, &req);
    assert_eq!(vec![Point::new(10, 2), Point::new(20, 4), Point::new(10, 7)], points);

    let all = DateRangeSearch::points_for_request(&archive, &FetchRequest::new(i64::MIN, i64::MAX, 0));
    assert_eq!(archive.points(), &all[..]);

    let none = DateRangeSearch::points_for_request(&archive, &FetchRequest::new(-5, -1, 0));
    assert!(none.is_empty());
    let none = DateRangeSearch::points_for_request(&archive, &FetchRequest::new(1 << 32, 1 << 33, 0));
    assert!(none.is_empty());
}

#[test]
fn test_search_empty_archive_at_the_end_of_the_file() {
    let metadata = Metadata::new(AggregationType::Average, 600, 0, 1);
    let header = Header::new(metadata, vec![ArchiveInfo::new(28, 600, 0)]);
    let mut buf = vec![];
    memento_encode_header(&mut buf, &header).unwrap();
    assert_eq!(28, buf.len());

    let mut reader = SliceReaderMapped::new(&buf);
    // A request for no retention at all is the only one an empty archive
    // can answer.
    let req = FetchRequest::new(100, 200, 100);
    let response = DateRangeSearch::new().search(&mut reader, &header, &req).unwrap();
    assert!(response.points().is_empty());

    let header = Header::new(metadata, vec![ArchiveInfo::new(29, 600, 0)]);
    let err = DateRangeSearch::new().search(&mut reader, &header, &req).unwrap_err();
    assert_eq!(ErrorKind::CorruptDatabase, err.kind());
}

#[test]
fn test_parser_read_header() {
    let header = get_file_header();
    let buf = get_file(&header, parse_utc("1997-08-27T18:00:00+0000"));

    let mut reader = SliceReaderMapped::new(&buf);
    let mut parser = MementoParser::new(&mut reader);
    assert_eq!(header, parser.read_header().unwrap());

    let mut reader = SliceReaderMapped::new(&buf[..40]);
    assert_eq!(header, MementoParser::new(&mut reader).read_header().unwrap());

    // Too short for the metadata, then too short for the records.
    let mut reader = SliceReaderMapped::new(&buf[..15]);
    assert_eq!(ErrorKind::IoError, MementoParser::new(&mut reader).read_header().unwrap_err().kind());
    let mut reader = SliceReaderMapped::new(&buf[..39]);
    assert_eq!(ErrorKind::IoError, MementoParser::new(&mut reader).read_header().unwrap_err().kind());

    let mut bad = buf.clone();
    bad[3] = 9;
    let mut reader = SliceReaderMapped::new(&bad);
    assert_eq!(ErrorKind::ParseError, MementoParser::new(&mut reader).read_header().unwrap_err().kind());
}

#[test]
fn test_parser_read_database() {
    let metadata = Metadata::new(AggregationType::Max, 120, 0, 2);
    let header = Header::new(metadata, vec![ArchiveInfo::new(40, 1, 2), ArchiveInfo::new(64, 60, 1)]);
    let data = Data::new(vec![
        Archive::new(vec![Point::new(5, 50), Point::new(6, 60)]),
        Archive::new(vec![Point::new(60, 7)]),
    ]);
    let file = MementoDatabase::new(header, data);
    let mut buf = vec![];
    memento_encode_database(&mut buf, &file).unwrap();

    let mut reader = SliceReaderMapped::new(&buf);
    let database = MementoParser::new(&mut reader).read_database().unwrap();
    assert_eq!(file, database);
    assert_eq!(AggregationType::Max, database.header().metadata().aggregation());
    assert_eq!(2, database.data().archives().len());

    let mut reader = SliceReaderMapped::new(&buf[..buf.len() - 1]);
    let err = MementoParser::new(&mut reader).read_database().unwrap_err();
    assert_eq!(ErrorKind::ParseError, err.kind());

    let empty: Vec<u8> = vec![];
    let mut reader = SliceReaderMapped::new(&empty);
    let err = MementoParser::new(&mut reader).read_database().unwrap_err();
    assert_eq!(ErrorKind::ParseError, err.kind());
}

#[test]
fn test_parser_read_range() {
    let now = parse_utc("1997-08-27T02:14:00+0000");
    let from = parse_utc("1997-08-20T12:00:00+0000");
    let until = parse_utc("1997-08-20T18:05:00+0000");
    let header = get_file_header();
    let buf = get_file(&header, parse_utc("1997-08-27T18:00:00+0000"));
    let req = FetchRequest::new(from.timestamp(), until.timestamp(), now.timestamp());

    let mut reader = SliceReaderMapped::new(&buf);
    let response = MementoParser::new(&mut reader).read_range(&req).unwrap();
    assert_eq!(300, response.archive().seconds_per_point());
    assert_eq!(
        vec![
            Point::new(until.timestamp() as u32 - 300, 7.0f64.to_bits()),
            Point::new(until.timestamp() as u32, 7.0f64.to_bits()),
        ],
        response.points()
    );

    // Cut off after the header: the records point past the end.
    let mut reader = SliceReaderMapped::new(&buf[..40]);
    let err = MementoParser::new(&mut reader).read_range(&req).unwrap_err();
    assert_eq!(ErrorKind::CorruptDatabase, err.kind());
    assert_eq!("I/O error reading archive", err.description());

    // Cut off one byte before the end of the chosen archive.
    let end = (header.archive_info()[1].offset() as u64 + header.archive_info()[1].archive_size()) as usize;
    assert_eq!(buf.len(), end);
    let mut reader = SliceReaderMapped::new(&buf[..end - 1]);
    let err = MementoParser::new(&mut reader).read_range(&req).unwrap_err();
    assert_eq!(ErrorKind::CorruptDatabase, err.kind());

    // The request is judged before the archive is looked at.
    let mut reader = SliceReaderMapped::new(&buf[..40]);
    let bad = FetchRequest::new(until.timestamp(), until.timestamp(), now.timestamp());
    let err = MementoParser::new(&mut reader).read_range(&bad).unwrap_err();
    assert_eq!(ErrorKind::InvalidTimeRange, err.kind());
}

#[test]
fn test_read_range_clamps_the_start() {
    let now = parse_utc("1997-08-27T02:14:00+0000").timestamp();
    let metadata = Metadata::new(AggregationType::Average, 600, 0, 1);
    let header = Header::new(metadata, vec![ArchiveInfo::new(28, 60, 10)]);
    let points: Vec<Point> =
        (0..10).map(|i| Point::new((now - 840 + 60 * i) as u32, i as u64)).collect();
    let mut buf = vec![];
    memento_encode_header(&mut buf, &header).unwrap();
    memento_encode_archive(&mut buf, &Archive::new(points.clone())).unwrap();

    // The window reaches further back than the file retains.
    let req = FetchRequest::new(now - 100_000, now, now);
    let mut reader = SliceReaderMapped::new(&buf);
    let response = MementoParser::new(&mut reader).read_range(&req).unwrap();
    assert_eq!(&points[4..], response.points());
}

#[test]
fn test_fetch_response_parts() {
    let info = ArchiveInfo::new(28, 10, 2);
    let points = vec![Point::new(1, 2), Point::new(3, 4)];
    let response = FetchResponse::new(info, points.clone());
    assert_eq!(&info, response.archive());
    assert_eq!(&points[..], response.points());

    let parts: (ArchiveInfo, Vec<Point>) = response.clone().into();
    assert_eq!((info, points.clone()), parts);
    let only_points: Vec<Point> = response.into();
    assert_eq!(points, only_points);

    let empty = FetchResponse::default();
    assert_eq!(&ArchiveInfo::new(0, 0, 0), empty.archive());
    assert!(empty.points().is_empty());
}

#[test]
fn test_error_values() {
    let err = MementoError::new(ErrorKind::CorruptDatabase, "broken");
    assert_eq!(ErrorKind::CorruptDatabase, err.kind());
    assert_eq!("broken", err.description());
    let err = MementoError::from((ErrorKind::InvalidTimeEnd, "too old"));
    assert_eq!(ErrorKind::InvalidTimeEnd, err.kind());
    assert_eq!("too old", err.description());
}

#[test]
fn test_error_codes() {
    let kinds = [
        (ErrorKind::IoError, MementoErrorCode::IoError, 1001, "io error"),
        (ErrorKind::ParseError, MementoErrorCode::ParseError, 1002, "parse error"),
        (ErrorKind::InvalidTimeRange, MementoErrorCode::InvalidTimeRange, 1003, "invalid time range"),
        (ErrorKind::InvalidTimeStart, MementoErrorCode::InvalidTimeStart, 1004, "invalid time start"),
        (ErrorKind::InvalidTimeEnd, MementoErrorCode::InvalidTimeEnd, 1005, "invalid time end"),
        (ErrorKind::NoArchiveAvailable, MementoErrorCode::NoArchiveAvailable, 1006, "no archive available"),
        (ErrorKind::CorruptDatabase, MementoErrorCode::CorruptDatabase, 1007, "corrupt database"),
    ];
    for (kind, code, number, message) in kinds.iter() {
        assert_eq!(*code, MementoErrorCode::from(*kind));
        assert_eq!(*number, code.code());
        assert_eq!(*message, code.message());
        assert!(code.is_error());
    }
    assert_eq!(MementoErrorCode::NoError, MementoErrorCode::default());
    assert!(!MementoErrorCode::NoError.is_error());
    assert_eq!(0, MementoErrorCode::NoError.code());
    assert_eq!("no error", MementoErrorCode::NoError.message());
    assert!(MementoErrorCode::InvalidString.is_error());
    assert_eq!(101, MementoErrorCode::InvalidString.code());
    assert_eq!("invalid string", MementoErrorCode::InvalidString.message());
}

#[test]
fn test_archive_read_error() {
    let reported = archive_read_error(MementoError::new(ErrorKind::IoError, "short read"));
    assert_eq!(ErrorKind::CorruptDatabase, reported.kind());
    assert_eq!("I/O error reading archive", reported.description());

    let reported = archive_read_error(MementoError::new(ErrorKind::ParseError, "value"));
    assert_eq!(ErrorKind::ParseError, reported.kind());
    assert_eq!("value", reported.description());
}

#[test]
fn test_parser_over_a_direct_reader() {
    let now = parse_utc("1997-08-27T02:14:00+0000");
    let from = parse_utc("1997-08-26T12:00:00+0000");
    let until = parse_utc("1997-08-26T18:01:00+0000");
    let header = get_file_header();
    let buf = get_file(&header, parse_utc("1997-08-27T18:00:00+0000"));
    let req = FetchRequest::new(from.timestamp(), until.timestamp(), now.timestamp());

    let mut mapped = SliceReaderMapped::new(&buf);
    let expected = MementoParser::new(&mut mapped).read_range(&req).unwrap();
    assert_eq!(2, expected.points().len());

    let mut direct = SliceReaderDirect::new(Source(Cursor::new(buf.clone())));
    let mut parser = MementoParser::new(&mut direct);
    assert_eq!(header, parser.read_header().unwrap());
    assert_eq!(expected, parser.read_range(&req).unwrap());
    assert_eq!(2, parser.read_database().unwrap().data().archives().len());

    // The first archive is cut short: the header promises more than there is.
    let mut direct = SliceReaderDirect::new(Source(Cursor::new(buf[..1000].to_vec())));
    let err = MementoParser::new(&mut direct).read_range(&req).unwrap_err();
    assert_eq!(ErrorKind::CorruptDatabase, err.kind());

    // Nothing but the header: the archive starts where the file ends.
    let mut direct = SliceReaderDirect::new(Source(Cursor::new(buf[..40].to_vec())));
    let err = MementoParser::new(&mut direct).read_range(&req).unwrap_err();
    assert_eq!(ErrorKind::CorruptDatabase, err.kind());

    // Not even a header.
    let mut direct = SliceReaderDirect::new(Source(Cursor::new(buf[..10].to_vec())));
    let err = MementoParser::new(&mut direct).read_header().unwrap_err();
    assert_eq!(ErrorKind::IoError, err.kind());
}
