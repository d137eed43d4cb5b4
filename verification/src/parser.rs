//! Decoding the Whisper format from bytes.
//!
//! Each decoder takes the bytes to read and returns the value together with
//! the bytes that follow it, or a `ParseError` that names the field at which
//! decoding stopped: the first field that is cut short, or the aggregation
//! where its number names no aggregation type.

use crate::bytes::{read_u32_be, read_u64_be, spec_u32_at, spec_u64_at};
use crate::errors::{ErrorKind, MementoError, MementoResult};
use crate::types::{
    spec_archives_size, spec_data_matches, AggregationType, Archive, ArchiveInfo, Data,
    DatabaseView, Header, HeaderView, MementoDatabase, Metadata, Point,
};
use vstd::prelude::*;

verus! {

/// What a decoder gave: the value and the bytes left over, or the name of the
/// field at which it stopped.
pub open spec fn parsed<T>(r: MementoResult<(&[u8], T)>) -> Result<(T, Seq<u8>), &'static str> {
    match r {
        Ok((rest, value)) => Ok((value, rest@)),
        Err(e) => Err(e.description),
    }
}

/// As `parsed`, with the value taken by its view.
pub open spec fn parsed_view<T: View>(r: MementoResult<(&[u8], T)>) -> Result<
    (T::V, Seq<u8>),
    &'static str,
> {
    match r {
        Ok((rest, value)) => Ok((value@, rest@)),
        Err(e) => Err(e.description),
    }
}

/// `r` is a success or an error of kind `ParseError`.
pub open spec fn fails_as_parse_error<T>(r: MementoResult<T>) -> bool {
    r matches Err(e) ==> e.kind == ErrorKind::ParseError
}

/// The field of a metadata record that `avail` bytes, fewer than a whole
/// record, cut short.
pub open spec fn spec_metadata_field(avail: nat) -> &'static str {
    if avail < 4 {
        "aggregation"
    } else if avail < 8 {
        "max_retention"
    } else if avail < 12 {
        "x_files_factor"
    } else {
        "archive_count"
    }
}

/// The field of an archive record that `avail` bytes, fewer than a whole
/// record, cut short.
pub open spec fn spec_archive_info_field(avail: nat) -> &'static str {
    if avail < 4 {
        "offset"
    } else if avail < 8 {
        "seconds_per_point"
    } else {
        "num_points"
    }
}

/// The field of a point that `avail` bytes, fewer than a whole point, cut
/// short.
pub open spec fn spec_point_field(avail: nat) -> &'static str {
    if avail < 4 {
        "timestamp"
    } else {
        "value"
    }
}

/// The archive record in the twelve bytes of `s` from `at`.
pub open spec fn spec_archive_info_at(s: Seq<u8>, at: int) -> ArchiveInfo {
    ArchiveInfo {
        offset: spec_u32_at(s, at),
        seconds_per_point: spec_u32_at(s, at + 4),
        num_points: spec_u32_at(s, at + 8),
    }
}

/// The point in the twelve bytes of `s` from `at`.
pub open spec fn spec_point_at(s: Seq<u8>, at: int) -> Point {
    Point { timestamp: spec_u32_at(s, at), value: spec_u64_at(s, at + 4) }
}

/// The `count` points that lie one after another in `s` from `at`.
pub open spec fn spec_points_at(s: Seq<u8>, at: int, count: nat) -> Seq<Point> {
    Seq::new(count, |i: int| spec_point_at(s, at + 12 * i))
}

pub open spec fn spec_parse_aggregation_type(s: Seq<u8>) -> Result<
    (AggregationType, Seq<u8>),
    &'static str,
> {
    if s.len() < 4 {
        Err("aggregation")
    } else {
        match AggregationType::spec_from_tag(spec_u32_at(s, 0)) {
            Some(aggregation) => Ok((aggregation, s.skip(4))),
            None => Err("aggregation"),
        }
    }
}

pub open spec fn spec_parse_metadata(s: Seq<u8>) -> Result<(Metadata, Seq<u8>), &'static str> {
    match spec_parse_aggregation_type(s) {
        Err(field) => Err(field),
        Ok((aggregation, _)) => if s.len() < 16 {
            Err(spec_metadata_field(s.len()))
        } else {
            Ok(
                (
                    Metadata {
                        aggregation,
                        max_retention: spec_u32_at(s, 4),
                        x_files_factor: spec_u32_at(s, 8),
                        archive_count: spec_u32_at(s, 12),
                    },
                    s.skip(16),
                ),
            )
        },
    }
}

pub open spec fn spec_parse_archive_info(s: Seq<u8>) -> Result<
    (ArchiveInfo, Seq<u8>),
    &'static str,
> {
    if s.len() < 12 {
        Err(spec_archive_info_field(s.len()))
    } else {
        Ok((spec_archive_info_at(s, 0), s.skip(12)))
    }
}

/// Exactly `count` archive records, one after another.
pub open spec fn spec_parse_archive_infos(s: Seq<u8>, count: nat) -> Result<
    (Seq<ArchiveInfo>, Seq<u8>),
    &'static str,
> {
    if s.len() < 12 * count {
        Err(spec_archive_info_field(s.len() % 12))
    } else {
        Ok((Seq::new(count, |i: int| spec_archive_info_at(s, 12 * i)), s.skip(12 * count as int)))
    }
}

pub open spec fn spec_parse_point(s: Seq<u8>) -> Result<(Point, Seq<u8>), &'static str> {
    if s.len() < 12 {
        Err(spec_point_field(s.len()))
    } else {
        Ok((spec_point_at(s, 0), s.skip(12)))
    }
}

/// Exactly `count` points, one after another.
pub open spec fn spec_parse_archive(s: Seq<u8>, count: nat) -> Result<
    (Seq<Point>, Seq<u8>),
    &'static str,
> {
    if s.len() < 12 * count {
        Err(spec_point_field(s.len() % 12))
    } else {
        Ok((spec_points_at(s, 0, count), s.skip(12 * count as int)))
    }
}

/// One archive for each record of `infos`, in their order and of the length
/// each record gives, one after another from the start of `s`.
pub open spec fn spec_parse_data(s: Seq<u8>, infos: Seq<ArchiveInfo>) -> Result<
    (Seq<Seq<Point>>, Seq<u8>),
    &'static str,
> {
    if s.len() < spec_archives_size(infos) {
        Err(spec_point_field(s.len() % 12))
    } else {
        Ok(
            (
                Seq::new(
                    infos.len(),
                    |i: int|
                        spec_points_at(
                            s,
                            spec_archives_size(infos.take(i)) as int,
                            infos[i].num_points as nat,
                        ),
                ),
                s.skip(spec_archives_size(infos) as int),
            ),
        )
    }
}

/// The metadata, then exactly as many archive records as it announces.
pub open spec fn spec_parse_header(s: Seq<u8>) -> Result<(HeaderView, Seq<u8>), &'static str> {
    match spec_parse_metadata(s) {
        Err(field) => Err(field),
        Ok((metadata, rest)) => match spec_parse_archive_infos(
            rest,
            metadata.archive_count as nat,
        ) {
            Err(field) => Err(field),
            Ok((archive_info, rest)) => Ok((HeaderView { metadata, archive_info }, rest)),
        },
    }
}

/// The header, then the archives its records describe, in header order.
pub open spec fn spec_parse_database(s: Seq<u8>) -> Result<(DatabaseView, Seq<u8>), &'static str> {
    match spec_parse_header(s) {
        Err(field) => Err(field),
        Ok((header, rest)) => match spec_parse_data(rest, header.archive_info) {
            Err(field) => Err(field),
            Ok((data, rest)) => Ok((DatabaseView { header, data }, rest)),
        },
    }
}

/// The sizes of the archives add up record by record, each a multiple of the
/// size of a point, and a shorter run of records never takes more.
pub proof fn lemma_archives_size_step(infos: Seq<ArchiveInfo>, i: int)
    requires
        0 <= i < infos.len(),
    ensures
        spec_archives_size(infos.take(i + 1)) == spec_archives_size(infos.take(i)) + 12
            * infos[i].num_points,
        spec_archives_size(infos.take(i)) % 12 == 0,
        spec_archives_size(infos.take(i + 1)) <= spec_archives_size(infos),
        spec_archives_size(infos.take(0)) == 0,
    decreases infos.len() - i,
{
    assert(infos.take(i + 1).drop_last() =~= infos.take(i));
    assert(infos.take(i + 1).last() == infos[i]);
    lemma_archives_size_multiple(infos.take(i));
    if i + 1 < infos.len() {
        lemma_archives_size_step(infos, i + 1);
    } else {
        assert(infos.take(i + 1) =~= infos);
    }
    assert(infos.take(0).len() == 0);
}

/// The archives together take a whole number of points.
pub proof fn lemma_archives_size_multiple(infos: Seq<ArchiveInfo>)
    ensures
        spec_archives_size(infos) % 12 == 0,
    decreases infos.len(),
{
    if infos.len() > 0 {
        lemma_archives_size_multiple(infos.drop_last());
    }
}

fn parse_error<T>(field: &'static str) -> (r: MementoResult<T>)
    ensures
        r matches Err(e) && e.kind == ErrorKind::ParseError && e.description == field,
{
    Err(MementoError::new(ErrorKind::ParseError, field))
}

/// The field of an archive record at which `avail` bytes end.
fn archive_info_field(avail: usize) -> (field: &'static str)
    ensures
        field == spec_archive_info_field(avail as nat),
{
    if avail < 4 {
        "offset"
    } else if avail < 8 {
        "seconds_per_point"
    } else {
        "num_points"
    }
}

/// The field of a point at which `avail` bytes end.
fn point_field(avail: usize) -> (field: &'static str)
    ensures
        field == spec_point_field(avail as nat),
{
    if avail < 4 {
        "timestamp"
    } else {
        "value"
    }
}

/// Decodes an aggregation type: a number from 1 to 8.
pub fn parse_aggregation_type(input: &[u8]) -> (r: MementoResult<(&[u8], AggregationType)>)
    ensures
        parsed(r) == spec_parse_aggregation_type(input@),
        fails_as_parse_error(r),
{
    if input.len() < 4 {
        return parse_error("aggregation");
    }
    match AggregationType::from_tag(read_u32_be(input, 0)) {
        Some(aggregation) => Ok((vstd::slice::slice_subrange(input, 4, input.len()), aggregation)),
        None => parse_error("aggregation"),
    }
}

/// Decodes the metadata record: aggregation type, maximum retention,
/// x-files factor and archive count.
pub fn parse_metadata(input: &[u8]) -> (r: MementoResult<(&[u8], Metadata)>)
    ensures
        parsed(r) == spec_parse_metadata(input@),
        fails_as_parse_error(r),
{
    let n = input.len();
    let aggregation = match parse_aggregation_type(input) {
        Ok((_, aggregation)) => aggregation,
        Err(e) => {
            return Err(e);
        },
    };
    if n < 8 {
        return parse_error("max_retention");
    }
    if n < 12 {
        return parse_error("x_files_factor");
    }
    if n < 16 {
        return parse_error("archive_count");
    }
    let metadata = Metadata::new(
        aggregation,
        read_u32_be(input, 4),
        read_u32_be(input, 8),
        read_u32_be(input, 12),
    );
    Ok((vstd::slice::slice_subrange(input, 16, n), metadata))
}

/// Decodes one archive record: offset, seconds per point and number of
/// points.
pub fn parse_archive_info(input: &[u8]) -> (r: MementoResult<(&[u8], ArchiveInfo)>)
    ensures
        parsed(r) == spec_parse_archive_info(input@),
        fails_as_parse_error(r),
{
    let n = input.len();
    if n < 12 {
        return parse_error(archive_info_field(n));
    }
    let info = ArchiveInfo::new(
        read_u32_be(input, 0),
        read_u32_be(input, 4),
        read_u32_be(input, 8),
    );
    Ok((vstd::slice::slice_subrange(input, 12, n), info))
}

/// Decodes as many archive records as `metadata` announces, no more and no
/// fewer.
pub fn parse_archive_infos<'a, 'b>(input: &'a [u8], metadata: &'b Metadata) -> (r: MementoResult<
    (&'a [u8], Vec<ArchiveInfo>),
>)
    ensures
        parsed_view(r) == spec_parse_archive_infos(input@, metadata.archive_count as nat),
        fails_as_parse_error(r),
{
    let n = input.len();
    let count = metadata.archive_count();
    if (n as u64) < 12 * (count as u64) {
        return parse_error(archive_info_field(n % 12));
    }
    let count = count as usize;
    let mut infos: Vec<ArchiveInfo> = Vec::new();
    let mut i: usize = 0;
    while i < count
        invariant
            i <= count,
            12 * count <= n,
            n == input.len(),
            infos@.len() == i,
            forall|k: int| 0 <= k < i ==> infos@[k] == spec_archive_info_at(input@, 12 * k),
        decreases count - i,
    {
        let at = 12 * i;
        infos.push(
            ArchiveInfo::new(
                read_u32_be(input, at),
                read_u32_be(input, at + 4),
                read_u32_be(input, at + 8),
            ),
        );
        i = i + 1;
    }
    assert(infos@ =~= Seq::new(count as nat, |i: int| spec_archive_info_at(input@, 12 * i)));
    Ok((vstd::slice::slice_subrange(input, 12 * count, n), infos))
}

/// Decodes one point: timestamp and value.
pub fn parse_point(input: &[u8]) -> (r: MementoResult<(&[u8], Point)>)
    ensures
        parsed(r) == spec_parse_point(input@),
        fails_as_parse_error(r),
{
    let n = input.len();
    if n < 12 {
        return parse_error(point_field(n));
    }
    let point = Point::new(read_u32_be(input, 0), read_u64_be(input, 4));
    Ok((vstd::slice::slice_subrange(input, 12, n), point))
}

/// Decodes the archive that `info` describes: as many points as it gives.
pub fn memento_parse_archive<'a, 'b>(input: &'a [u8], info: &'b ArchiveInfo) -> (r: MementoResult<
    (&'a [u8], Archive),
>)
    ensures
        parsed_view(r) == spec_parse_archive(input@, info.num_points as nat),
        fails_as_parse_error(r),
{
    let n = input.len();
    let count = info.num_points();
    if (n as u64) < 12 * (count as u64) {
        return parse_error(point_field(n % 12));
    }
    let count = count as usize;
    let mut points: Vec<Point> = Vec::new();
    let mut i: usize = 0;
    while i < count
        invariant
            i <= count,
            12 * count <= n,
            n == input.len(),
            points@.len() == i,
            forall|k: int| 0 <= k < i ==> points@[k] == spec_point_at(input@, 12 * k),
        decreases count - i,
    {
        let at = 12 * i;
        points.push(Point::new(read_u32_be(input, at), read_u64_be(input, at + 4)));
        i = i + 1;
    }
    assert(points@ =~= spec_points_at(input@, 0, count as nat));
    Ok((vstd::slice::slice_subrange(input, 12 * count, n), Archive::new(points)))
}

/// Decodes the archives that `infos` describe, one after another in their
/// order.
pub fn parse_data<'a, 'b>(input: &'a [u8], infos: &'b [ArchiveInfo]) -> (r: MementoResult<
    (&'a [u8], Data),
>)
    ensures
        parsed_view(r) == spec_parse_data(input@, infos@),
        fails_as_parse_error(r),
        r matches Ok((_, data)) ==> spec_data_matches(infos@, data@),
{
    let mut archives: Vec<Archive> = Vec::new();
    let mut to_parse = input;
    let mut i: usize = 0;
    let ghost mut at: int = 0;
    proof {
        assert(infos@.take(0).len() == 0);
        assert(input@.skip(0) =~= input@);
    }
    while i < infos.len()
        invariant
            i <= infos.len(),
            at == spec_archives_size(infos@.take(i as int)),
            at <= input@.len(),
            to_parse@ == input@.skip(at),
            archives@.len() == i,
            forall|k: int|
                0 <= k < i ==> (#[trigger] archives@[k])@ == spec_points_at(
                    input@,
                    spec_archives_size(infos@.take(k)) as int,
                    infos@[k].num_points as nat,
                ),
        decreases infos.len() - i,
    {
        let info = &infos[i];
        proof {
            lemma_archives_size_step(infos@, i as int);
        }
        match memento_parse_archive(to_parse, info) {
            Ok((remaining, archive)) => {
                proof {
                    let count = info.num_points as nat;
                    assert forall|k: int| 0 <= k < count implies #[trigger] archive@[k]
                        == spec_points_at(input@, at, count)[k] by {
                        assert(archive@[k] == spec_point_at(to_parse@, 12 * k));
                        assert(spec_point_at(to_parse@, 12 * k) == spec_point_at(
                            input@,
                            at + 12 * k,
                        ));
                    }
                    assert(archive@ =~= spec_points_at(input@, at, count));
                    assert(remaining@ =~= input@.skip(at + 12 * count));
                    at = at + 12 * count;
                }
                to_parse = remaining;
                archives.push(archive);
            },
            Err(e) => {
                proof {
                    assert(to_parse@.len() % 12 == input@.len() % 12);
                }
                return Err(e);
            },
        }
        i = i + 1;
    }
    proof {
        assert(infos@.take(i as int) =~= infos@);
    }
    let data = Data::new(archives);
    assert(data@ =~= spec_parse_data(input@, infos@)->Ok_0.0);
    Ok((to_parse, data))
}

/// Decodes a header: the metadata and the archive records it announces.
pub fn memento_parse_header(input: &[u8]) -> (r: MementoResult<(&[u8], Header)>)
    ensures
        parsed_view(r) == spec_parse_header(input@),
        fails_as_parse_error(r),
        r matches Ok((_, header)) ==> header@.is_consistent(),
{
    let (rest, metadata) = match parse_metadata(input) {
        Ok(pair) => pair,
        Err(e) => {
            return Err(e);
        },
    };
    let (rest, archives) = match parse_archive_infos(rest, &metadata) {
        Ok(pair) => pair,
        Err(e) => {
            return Err(e);
        },
    };
    Ok((rest, Header::new(metadata, archives)))
}

/// Decodes a whole file: the header and every archive it describes.
pub fn memento_parse_database(input: &[u8]) -> (r: MementoResult<(&[u8], MementoDatabase)>)
    ensures
        parsed_view(r) == spec_parse_database(input@),
        fails_as_parse_error(r),
        r matches Ok((_, database)) ==> database@.is_consistent(),
{
    let (rest, header) = match memento_parse_header(input) {
        Ok(pair) => pair,
        Err(e) => {
            return Err(e);
        },
    };
    let (rest, data) = match parse_data(rest, header.archive_info()) {
        Ok(pair) => pair,
        Err(e) => {
            return Err(e);
        },
    };
    Ok((rest, MementoDatabase::new(header, data)))
}

} // verus!
