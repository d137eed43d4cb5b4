//! What holds between the parser and the encoder, and at the edges of what
//! the parser accepts.

use crate::bytes::{
    lemma_u32_bytes_read_back, lemma_u32_read_gives_bytes, lemma_u64_bytes_read_back,
    lemma_u64_read_gives_bytes, spec_u32_at, spec_u32_be_bytes, spec_u64_be_bytes,
};
use crate::encoder::{
    spec_encode_archive, spec_encode_archive_info, spec_encode_archive_infos, spec_encode_data,
    spec_encode_database, spec_encode_header, spec_encode_metadata, spec_encode_point,
};
use crate::parser::{
    lemma_archives_size_step, spec_archive_info_at, spec_parse_archive, spec_parse_archive_infos,
    spec_parse_data, spec_parse_database, spec_parse_header, spec_parse_metadata, spec_point_at,
    spec_points_at,
};
use crate::types::{
    spec_archives_size, spec_data_matches, AggregationType, ArchiveInfo, DatabaseView,
    HeaderView, Metadata, Point,
};
use vstd::prelude::*;

verus! {

/// An archive record read from twelve bytes encodes to those bytes.
pub proof fn lemma_archive_info_bytes(s: Seq<u8>, at: int)
    requires
        0 <= at,
        at + 12 <= s.len(),
    ensures
        spec_encode_archive_info(spec_archive_info_at(s, at)) == s.subrange(at, at + 12),
{
    lemma_u32_read_gives_bytes(s, at);
    lemma_u32_read_gives_bytes(s, at + 4);
    lemma_u32_read_gives_bytes(s, at + 8);
    assert(spec_encode_archive_info(spec_archive_info_at(s, at)) =~= s.subrange(at, at + 12));
}

/// A point read from twelve bytes encodes to those bytes.
pub proof fn lemma_point_bytes(s: Seq<u8>, at: int)
    requires
        0 <= at,
        at + 12 <= s.len(),
    ensures
        spec_encode_point(spec_point_at(s, at)) == s.subrange(at, at + 12),
{
    lemma_u32_read_gives_bytes(s, at);
    lemma_u64_read_gives_bytes(s, at + 4);
    assert(spec_encode_point(spec_point_at(s, at)) =~= s.subrange(at, at + 12));
}

/// A metadata record that was parsed encodes to the sixteen bytes it was
/// parsed from.
pub proof fn lemma_metadata_round_trip(s: Seq<u8>)
    requires
        spec_parse_metadata(s) is Ok,
    ensures
        spec_encode_metadata(spec_parse_metadata(s)->Ok_0.0) + spec_parse_metadata(s)->Ok_0.1
            == s,
        spec_encode_metadata(spec_parse_metadata(s)->Ok_0.0) == s.subrange(0, 16),
{
    let meta = spec_parse_metadata(s)->Ok_0.0;
    AggregationType::lemma_from_tag_inverse(spec_u32_at(s, 0));
    lemma_u32_read_gives_bytes(s, 0);
    lemma_u32_read_gives_bytes(s, 4);
    lemma_u32_read_gives_bytes(s, 8);
    lemma_u32_read_gives_bytes(s, 12);
    assert(spec_encode_metadata(meta) =~= s.subrange(0, 16));
    assert(s.subrange(0, 16) + s.skip(16) =~= s);
}

proof fn lemma_archive_infos_bytes(s: Seq<u8>, infos: Seq<ArchiveInfo>)
    requires
        12 * infos.len() <= s.len(),
        forall|i: int| 0 <= i < infos.len() ==> infos[i] == spec_archive_info_at(s, 12 * i),
    ensures
        spec_encode_archive_infos(infos) == s.subrange(0, 12 * infos.len() as int),
    decreases infos.len(),
{
    if infos.len() == 0 {
        assert(spec_encode_archive_infos(infos) =~= s.subrange(0, 0));
    } else {
        let n = infos.len() as int;
        lemma_archive_infos_bytes(s, infos.drop_last());
        lemma_archive_info_bytes(s, 12 * (n - 1));
        assert(infos.last() == spec_archive_info_at(s, 12 * (n - 1)));
        assert(s.subrange(0, 12 * (n - 1)) + s.subrange(12 * (n - 1), 12 * n) =~= s.subrange(
            0,
            12 * n,
        ));
    }
}

proof fn lemma_points_bytes(s: Seq<u8>, at: int, points: Seq<Point>)
    requires
        0 <= at,
        at + 12 * points.len() <= s.len(),
        forall|i: int| 0 <= i < points.len() ==> points[i] == spec_point_at(s, at + 12 * i),
    ensures
        spec_encode_archive(points) == s.subrange(at, at + 12 * points.len() as int),
    decreases points.len(),
{
    if points.len() == 0 {
        assert(spec_encode_archive(points) =~= s.subrange(at, at));
    } else {
        let n = points.len() as int;
        lemma_points_bytes(s, at, points.drop_last());
        lemma_point_bytes(s, at + 12 * (n - 1));
        assert(points.last() == spec_point_at(s, at + 12 * (n - 1)));
        assert(s.subrange(at, at + 12 * (n - 1)) + s.subrange(at + 12 * (n - 1), at + 12 * n)
            =~= s.subrange(at, at + 12 * n));
    }
}

proof fn lemma_data_bytes(s: Seq<u8>, infos: Seq<ArchiveInfo>, data: Seq<Seq<Point>>)
    requires
        data.len() <= infos.len(),
        spec_archives_size(infos.take(data.len() as int)) <= s.len(),
        forall|i: int|
            0 <= i < data.len() ==> data[i] == spec_points_at(
                s,
                spec_archives_size(infos.take(i)) as int,
                infos[i].num_points as nat,
            ),
    ensures
        spec_encode_data(data) == s.subrange(
            0,
            spec_archives_size(infos.take(data.len() as int)) as int,
        ),
    decreases data.len(),
{
    if data.len() == 0 {
        lemma_archives_size_empty(infos);
        assert(spec_encode_data(data) =~= s.subrange(0, 0));
    } else {
        let k = data.len() as int - 1;
        lemma_archives_size_step(infos, k);
        lemma_data_bytes(s, infos, data.drop_last());
        let start = spec_archives_size(infos.take(k)) as int;
        let count = infos[k].num_points as nat;
        assert(data.last() == spec_points_at(s, start, count));
        lemma_points_bytes(s, start, data.last());
        assert(s.subrange(0, start) + s.subrange(start, start + 12 * count) =~= s.subrange(
            0,
            start + 12 * count,
        ));
    }
}

proof fn lemma_archives_size_empty(infos: Seq<ArchiveInfo>)
    ensures
        spec_archives_size(infos.take(0)) == 0,
{
    assert(infos.take(0).len() == 0);
}

/// Archive records that were parsed encode to the bytes they were parsed
/// from.
pub proof fn lemma_archive_infos_round_trip(s: Seq<u8>, count: nat)
    requires
        spec_parse_archive_infos(s, count) is Ok,
    ensures
        spec_encode_archive_infos(spec_parse_archive_infos(s, count)->Ok_0.0)
            + spec_parse_archive_infos(s, count)->Ok_0.1 == s,
        spec_parse_archive_infos(s, count)->Ok_0.0.len() == count,
{
    let infos = spec_parse_archive_infos(s, count)->Ok_0.0;
    lemma_archive_infos_bytes(s, infos);
    assert(s.subrange(0, 12 * count as int) + s.skip(12 * count as int) =~= s);
}

/// An archive that was parsed encodes to the bytes it was parsed from.
pub proof fn lemma_archive_round_trip(s: Seq<u8>, count: nat)
    requires
        spec_parse_archive(s, count) is Ok,
    ensures
        spec_encode_archive(spec_parse_archive(s, count)->Ok_0.0) + spec_parse_archive(
            s,
            count,
        )->Ok_0.1 == s,
        spec_parse_archive(s, count)->Ok_0.0.len() == count,
{
    let points = spec_parse_archive(s, count)->Ok_0.0;
    lemma_points_bytes(s, 0, points);
    assert(s.subrange(0, 12 * count as int) + s.skip(12 * count as int) =~= s);
}

/// Archives that were parsed encode to the bytes they were parsed from; there
/// is one for each record, of the length the record gives.
pub proof fn lemma_data_round_trip(s: Seq<u8>, infos: Seq<ArchiveInfo>)
    requires
        spec_parse_data(s, infos) is Ok,
    ensures
        spec_encode_data(spec_parse_data(s, infos)->Ok_0.0) + spec_parse_data(s, infos)->Ok_0.1
            == s,
        spec_parse_data(s, infos)->Ok_0.0.len() == infos.len(),
        forall|i: int|
            0 <= i < infos.len() ==> (#[trigger] spec_parse_data(s, infos)->Ok_0.0[i]).len()
                == infos[i].num_points,
{
    let data = spec_parse_data(s, infos)->Ok_0.0;
    let size = spec_archives_size(infos) as int;
    assert(infos.take(infos.len() as int) =~= infos);
    lemma_data_bytes(s, infos, data);
    assert(s.subrange(0, size) + s.skip(size) =~= s);
}

/// Round trip of the header: whatever bytes the parser accepts as a header,
/// encoding the header it produced gives back the bytes it consumed.
pub proof fn lemma_header_round_trip(bytes: Seq<u8>)
    requires
        spec_parse_header(bytes) is Ok,
    ensures
        spec_encode_header(spec_parse_header(bytes)->Ok_0.0) + spec_parse_header(bytes)->Ok_0.1
            == bytes,
{
    let (meta, rest) = spec_parse_metadata(bytes)->Ok_0;
    let (infos, rest2) = spec_parse_archive_infos(rest, meta.archive_count as nat)->Ok_0;
    lemma_metadata_round_trip(bytes);
    lemma_archive_infos_round_trip(rest, meta.archive_count as nat);
    assert(spec_encode_metadata(meta) + spec_encode_archive_infos(infos) + rest2
        =~= spec_encode_metadata(meta) + (spec_encode_archive_infos(infos) + rest2));
}

/// Round trip of the file: whatever bytes the parser accepts as a file,
/// encoding the file it produced gives back the bytes it consumed.
pub proof fn lemma_database_round_trip(bytes: Seq<u8>)
    requires
        spec_parse_database(bytes) is Ok,
    ensures
        spec_encode_database(spec_parse_database(bytes)->Ok_0.0) + spec_parse_database(
            bytes,
        )->Ok_0.1 == bytes,
{
    let (header, rest) = spec_parse_header(bytes)->Ok_0;
    let (data, rest2) = spec_parse_data(rest, header.archive_info)->Ok_0;
    lemma_header_round_trip(bytes);
    lemma_data_round_trip(rest, header.archive_info);
    assert(spec_encode_header(header) + spec_encode_data(data) + rest2 =~= spec_encode_header(
        header,
    ) + (spec_encode_data(data) + rest2));
}

/// A header that was parsed holds exactly as many archive records as its
/// metadata announces, and takes as many bytes as its size says.
pub proof fn lemma_parsed_header_is_consistent(bytes: Seq<u8>)
    requires
        spec_parse_header(bytes) is Ok,
    ensures
        spec_parse_header(bytes)->Ok_0.0.is_consistent(),
        spec_parse_header(bytes)->Ok_0.0.archive_info.len() == spec_parse_header(
            bytes,
        )->Ok_0.0.metadata.archive_count,
        bytes.len() == spec_parse_header(bytes)->Ok_0.0.size() + spec_parse_header(
            bytes,
        )->Ok_0.1.len(),
{
}

/// A file that was parsed holds a consistent header, one archive for each
/// archive record and in each archive as many points as its record gives,
/// and takes as many bytes as its size says.
pub proof fn lemma_parsed_database_is_consistent(bytes: Seq<u8>)
    requires
        spec_parse_database(bytes) is Ok,
    ensures
        spec_parse_database(bytes)->Ok_0.0.is_consistent(),
        bytes.len() == spec_parse_database(bytes)->Ok_0.0.size() + spec_parse_database(
            bytes,
        )->Ok_0.1.len(),
{
    let (header, rest) = spec_parse_header(bytes)->Ok_0;
    lemma_parsed_header_is_consistent(bytes);
    lemma_data_round_trip(rest, header.archive_info);
}

/// Where the first four bytes hold a number outside 1 to 8, nothing is
/// accepted: not as metadata, not as a header, not as a file. The failure
/// names the aggregation.
pub proof fn lemma_unknown_aggregation_rejected(bytes: Seq<u8>)
    requires
        bytes.len() >= 4,
        !(1 <= spec_u32_at(bytes, 0) <= 8),
    ensures
        spec_parse_metadata(bytes) == Err::<(Metadata, Seq<u8>), &'static str>("aggregation"),
        spec_parse_header(bytes) == Err::<(HeaderView, Seq<u8>), &'static str>("aggregation"),
        spec_parse_database(bytes) == Err::<(DatabaseView, Seq<u8>), &'static str>("aggregation"),
{
    AggregationType::lemma_from_tag_inverse(spec_u32_at(bytes, 0));
}

/// Truncation of a header: cut anywhere inside the bytes that the parser
/// consumed for a header, the bytes are no longer accepted as a header.
pub proof fn lemma_truncated_header_rejected(bytes: Seq<u8>, cut: int)
    requires
        spec_parse_header(bytes) is Ok,
        0 <= cut < bytes.len() - spec_parse_header(bytes)->Ok_0.1.len(),
    ensures
        spec_parse_header(bytes.take(cut)) is Err,
{
    let short = bytes.take(cut);
    if cut >= 16 {
        let meta = spec_parse_metadata(bytes)->Ok_0.0;
        assert(spec_parse_metadata(short)->Ok_0.0 == meta);
        assert(spec_parse_metadata(short)->Ok_0.1.len() == cut - 16);
    }
}

/// Truncation of a file: cut anywhere inside the bytes that the parser
/// consumed for a file, the bytes are no longer accepted as a file.
pub proof fn lemma_truncated_database_rejected(bytes: Seq<u8>, cut: int)
    requires
        spec_parse_database(bytes) is Ok,
        0 <= cut < bytes.len() - spec_parse_database(bytes)->Ok_0.1.len(),
    ensures
        spec_parse_database(bytes.take(cut)) is Err,
{
    let short = bytes.take(cut);
    let (header, rest) = spec_parse_header(bytes)->Ok_0;
    let consumed = bytes.len() - rest.len();
    if cut < consumed {
        lemma_truncated_header_rejected(bytes, cut);
    } else {
        let meta = spec_parse_metadata(bytes)->Ok_0.0;
        let count = meta.archive_count as nat;
        assert(spec_parse_metadata(short)->Ok_0.0 == meta);
        let short_rest = spec_parse_metadata(short)->Ok_0.1;
        let long_rest = spec_parse_metadata(bytes)->Ok_0.1;
        assert(short_rest =~= long_rest.take(cut - 16));
        assert(spec_parse_archive_infos(short_rest, count)->Ok_0.0 =~= spec_parse_archive_infos(
            long_rest,
            count,
        )->Ok_0.0);
        assert(spec_parse_header(short)->Ok_0.0 == header);
        assert(spec_parse_header(short)->Ok_0.1.len() == cut - consumed);
    }
}

/// An archive record encoded anywhere in a sequence reads back from there as
/// itself.
pub proof fn lemma_archive_info_reads_back(before: Seq<u8>, info: ArchiveInfo, after: Seq<u8>)
    ensures
        spec_encode_archive_info(info).len() == 12,
        spec_archive_info_at(
            before + spec_encode_archive_info(info) + after,
            before.len() as int,
        ) == info,
{
    let s = before + spec_encode_archive_info(info) + after;
    let b0 = spec_u32_be_bytes(info.offset);
    let b1 = spec_u32_be_bytes(info.seconds_per_point);
    let b2 = spec_u32_be_bytes(info.num_points);
    lemma_u32_bytes_read_back(before, info.offset, b1 + b2 + after);
    lemma_u32_bytes_read_back(before + b0, info.seconds_per_point, b2 + after);
    lemma_u32_bytes_read_back(before + b0 + b1, info.num_points, after);
    assert(s =~= before + b0 + (b1 + b2 + after));
    assert(s =~= (before + b0) + b1 + (b2 + after));
    assert(s =~= (before + b0 + b1) + b2 + after);
}

/// A point encoded anywhere in a sequence reads back from there as itself.
pub proof fn lemma_point_reads_back(before: Seq<u8>, point: Point, after: Seq<u8>)
    ensures
        spec_encode_point(point).len() == 12,
        spec_point_at(before + spec_encode_point(point) + after, before.len() as int) == point,
{
    let s = before + spec_encode_point(point) + after;
    let b0 = spec_u32_be_bytes(point.timestamp);
    let b1 = spec_u64_be_bytes(point.value);
    lemma_u32_bytes_read_back(before, point.timestamp, b1 + after);
    lemma_u64_bytes_read_back(before + b0, point.value, after);
    assert(s =~= before + b0 + (b1 + after));
    assert(s =~= (before + b0) + b1 + after);
}

/// A metadata record that was encoded parses as itself, and what follows it
/// is left over.
pub proof fn lemma_encoded_metadata_parses(meta: Metadata, rest: Seq<u8>)
    ensures
        spec_encode_metadata(meta).len() == 16,
        spec_parse_metadata(spec_encode_metadata(meta) + rest) == Ok::<
            (Metadata, Seq<u8>),
            &'static str,
        >((meta, rest)),
{
    let s = spec_encode_metadata(meta) + rest;
    let b0 = spec_u32_be_bytes(meta.aggregation.spec_tag());
    let b1 = spec_u32_be_bytes(meta.max_retention);
    let b2 = spec_u32_be_bytes(meta.x_files_factor);
    let b3 = spec_u32_be_bytes(meta.archive_count);
    let empty = Seq::<u8>::empty();
    lemma_u32_bytes_read_back(empty, meta.aggregation.spec_tag(), b1 + b2 + b3 + rest);
    lemma_u32_bytes_read_back(b0, meta.max_retention, b2 + b3 + rest);
    lemma_u32_bytes_read_back(b0 + b1, meta.x_files_factor, b3 + rest);
    lemma_u32_bytes_read_back(b0 + b1 + b2, meta.archive_count, rest);
    assert(s =~= empty + b0 + (b1 + b2 + b3 + rest));
    assert(s =~= b0 + b1 + (b2 + b3 + rest));
    assert(s =~= (b0 + b1) + b2 + (b3 + rest));
    assert(s =~= (b0 + b1 + b2) + b3 + rest);
    meta.aggregation.lemma_tag_round_trip();
    assert(s.skip(16) =~= rest);
}

proof fn lemma_archive_infos_read_back(infos: Seq<ArchiveInfo>, rest: Seq<u8>)
    ensures
        spec_encode_archive_infos(infos).len() == 12 * infos.len(),
        forall|i: int|
            0 <= i < infos.len() ==> spec_archive_info_at(
                spec_encode_archive_infos(infos) + rest,
                12 * i,
            ) == #[trigger] infos[i],
    decreases infos.len(),
{
    if infos.len() > 0 {
        let init = infos.drop_last();
        let last = infos.last();
        let s = spec_encode_archive_infos(infos) + rest;
        lemma_archive_infos_read_back(init, spec_encode_archive_info(last) + rest);
        lemma_archive_info_reads_back(spec_encode_archive_infos(init), last, rest);
        assert(s =~= spec_encode_archive_infos(init) + (spec_encode_archive_info(last) + rest));
        assert(s =~= spec_encode_archive_infos(init) + spec_encode_archive_info(last) + rest);
        assert forall|i: int| 0 <= i < infos.len() implies spec_archive_info_at(s, 12 * i)
            == #[trigger] infos[i] by {
            if i < init.len() {
                assert(infos[i] == init[i]);
            }
        }
    }
}

proof fn lemma_points_read_back(before: Seq<u8>, points: Seq<Point>, rest: Seq<u8>)
    ensures
        spec_encode_archive(points).len() == 12 * points.len(),
        forall|i: int|
            0 <= i < points.len() ==> spec_point_at(
                before + spec_encode_archive(points) + rest,
                before.len() + 12 * i,
            ) == #[trigger] points[i],
    decreases points.len(),
{
    if points.len() > 0 {
        let init = points.drop_last();
        let last = points.last();
        let s = before + spec_encode_archive(points) + rest;
        lemma_points_read_back(before, init, spec_encode_point(last) + rest);
        lemma_point_reads_back(before + spec_encode_archive(init), last, rest);
        assert(s =~= before + spec_encode_archive(init) + (spec_encode_point(last) + rest));
        assert(s =~= (before + spec_encode_archive(init)) + spec_encode_point(last) + rest);
        assert forall|i: int| 0 <= i < points.len() implies spec_point_at(
            s,
            before.len() + 12 * i,
        ) == #[trigger] points[i] by {
            if i < init.len() {
                assert(points[i] == init[i]);
            }
        }
    }
}

proof fn lemma_data_reads_back(infos: Seq<ArchiveInfo>, data: Seq<Seq<Point>>, rest: Seq<u8>)
    requires
        spec_data_matches(infos, data),
    ensures
        spec_encode_data(data).len() == spec_archives_size(infos),
        forall|k: int|
            0 <= k < data.len() ==> spec_points_at(
                spec_encode_data(data) + rest,
                spec_archives_size(infos.take(k)) as int,
                infos[k].num_points as nat,
            ) == #[trigger] data[k],
    decreases data.len(),
{
    if data.len() > 0 {
        let n = data.len() as int;
        let init = data.drop_last();
        let init_infos = infos.drop_last();
        let last = data.last();
        let s = spec_encode_data(data) + rest;
        let rest_of_init = spec_encode_archive(last) + rest;
        assert(spec_data_matches(init_infos, init)) by {
            assert forall|i: int| 0 <= i < init.len() implies (#[trigger] init[i]).len()
                == init_infos[i].num_points by {
                assert(init[i] == data[i]);
            }
        }
        lemma_data_reads_back(init_infos, init, rest_of_init);
        lemma_points_read_back(spec_encode_data(init), last, rest);
        assert(s =~= spec_encode_data(init) + rest_of_init);
        assert(s =~= spec_encode_data(init) + spec_encode_archive(last) + rest);
        assert(infos.take(n - 1) =~= init_infos);
        assert forall|k: int| 0 <= k < data.len() implies spec_points_at(
            s,
            spec_archives_size(infos.take(k)) as int,
            infos[k].num_points as nat,
        ) == #[trigger] data[k] by {
            if k < n - 1 {
                assert(infos.take(k) =~= init_infos.take(k));
                assert(init[k] == data[k]);
                assert(init_infos[k] == infos[k]);
            } else {
                assert(data[k].len() == infos[k].num_points);
                assert(spec_points_at(
                    s,
                    spec_encode_data(init).len() as int,
                    infos[k].num_points as nat,
                ) =~= last);
            }
        }
    }
}

/// Archive records that were encoded parse as themselves when as many are
/// asked for as were encoded.
pub proof fn lemma_encoded_archive_infos_parse(infos: Seq<ArchiveInfo>, rest: Seq<u8>)
    ensures
        spec_parse_archive_infos(spec_encode_archive_infos(infos) + rest, infos.len()) == Ok::<
            (Seq<ArchiveInfo>, Seq<u8>),
            &'static str,
        >((infos, rest)),
{
    let s = spec_encode_archive_infos(infos) + rest;
    lemma_archive_infos_read_back(infos, rest);
    let parsed = spec_parse_archive_infos(s, infos.len())->Ok_0;
    assert(parsed.0 =~= infos);
    assert(parsed.1 =~= rest);
}

/// An archive that was encoded parses as itself when as many points are asked
/// for as it holds.
pub proof fn lemma_encoded_archive_parses(points: Seq<Point>, rest: Seq<u8>)
    ensures
        spec_parse_archive(spec_encode_archive(points) + rest, points.len()) == Ok::<
            (Seq<Point>, Seq<u8>),
            &'static str,
        >((points, rest)),
{
    let s = spec_encode_archive(points) + rest;
    lemma_points_read_back(Seq::<u8>::empty(), points, rest);
    assert(s =~= Seq::<u8>::empty() + spec_encode_archive(points) + rest);
    let parsed = spec_parse_archive(s, points.len())->Ok_0;
    assert(parsed.0 =~= points);
    assert(parsed.1 =~= rest);
}

/// Archives that were encoded parse as themselves under records that match
/// them.
pub proof fn lemma_encoded_data_parses(
    infos: Seq<ArchiveInfo>,
    data: Seq<Seq<Point>>,
    rest: Seq<u8>,
)
    requires
        spec_data_matches(infos, data),
    ensures
        spec_parse_data(spec_encode_data(data) + rest, infos) == Ok::<
            (Seq<Seq<Point>>, Seq<u8>),
            &'static str,
        >((data, rest)),
{
    let s = spec_encode_data(data) + rest;
    lemma_data_reads_back(infos, data, rest);
    let parsed = spec_parse_data(s, infos)->Ok_0;
    assert(parsed.0 =~= data);
    assert(parsed.1 =~= rest);
}

/// The parser inverts the encoder on headers: a header that holds as many
/// archive records as it announces, once encoded, parses as itself, and what
/// follows it is left over.
pub proof fn lemma_encoded_header_parses(header: HeaderView, rest: Seq<u8>)
    requires
        header.is_consistent(),
    ensures
        spec_parse_header(spec_encode_header(header) + rest) == Ok::<
            (HeaderView, Seq<u8>),
            &'static str,
        >((header, rest)),
{
    let s = spec_encode_header(header) + rest;
    let after_meta = spec_encode_archive_infos(header.archive_info) + rest;
    lemma_encoded_metadata_parses(header.metadata, after_meta);
    lemma_encoded_archive_infos_parse(header.archive_info, rest);
    assert(s =~= spec_encode_metadata(header.metadata) + after_meta);
}

/// The parser inverts the encoder on files: a file with a consistent header
/// and archives that match its records, once encoded, parses as itself, and
/// what follows it is left over.
pub proof fn lemma_encoded_database_parses(file: DatabaseView, rest: Seq<u8>)
    requires
        file.is_consistent(),
    ensures
        spec_parse_database(spec_encode_database(file) + rest) == Ok::<
            (DatabaseView, Seq<u8>),
            &'static str,
        >((file, rest)),
{
    let s = spec_encode_database(file) + rest;
    let after_header = spec_encode_data(file.data) + rest;
    lemma_encoded_header_parses(file.header, after_header);
    lemma_encoded_data_parses(file.header.archive_info, file.data, rest);
    assert(s =~= spec_encode_header(file.header) + after_header);
}

} // verus!
