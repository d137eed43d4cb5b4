//! Encoding the Whisper format to bytes: the inverse of the parser.
//!
//! Every encoder appends to a byte buffer and leaves what the buffer held
//! before in place. Appending to a buffer in memory cannot fail, so every
//! encoder returns `Ok`.

use crate::bytes::{spec_u32_be_bytes, spec_u64_be_bytes, write_u32_be, write_u64_be};
use crate::errors::MementoResult;
use crate::types::{
    Archive, ArchiveInfo, Data, DatabaseView, Header, HeaderView, MementoDatabase, Metadata,
    Point,
};
use vstd::prelude::*;

verus! {

/// The sixteen bytes of a metadata record.
pub open spec fn spec_encode_metadata(meta: Metadata) -> Seq<u8> {
    spec_u32_be_bytes(meta.aggregation.spec_tag()) + spec_u32_be_bytes(meta.max_retention)
        + spec_u32_be_bytes(meta.x_files_factor) + spec_u32_be_bytes(meta.archive_count)
}

/// The twelve bytes of an archive record.
pub open spec fn spec_encode_archive_info(info: ArchiveInfo) -> Seq<u8> {
    spec_u32_be_bytes(info.offset) + spec_u32_be_bytes(info.seconds_per_point)
        + spec_u32_be_bytes(info.num_points)
}

/// The twelve bytes of a point.
pub open spec fn spec_encode_point(point: Point) -> Seq<u8> {
    spec_u32_be_bytes(point.timestamp) + spec_u64_be_bytes(point.value)
}

/// The bytes of the archive records, one after another.
pub open spec fn spec_encode_archive_infos(infos: Seq<ArchiveInfo>) -> Seq<u8>
    decreases infos.len(),
{
    if infos.len() == 0 {
        Seq::empty()
    } else {
        spec_encode_archive_infos(infos.drop_last()) + spec_encode_archive_info(infos.last())
    }
}

/// The bytes of the points of an archive, one after another.
pub open spec fn spec_encode_archive(points: Seq<Point>) -> Seq<u8>
    decreases points.len(),
{
    if points.len() == 0 {
        Seq::empty()
    } else {
        spec_encode_archive(points.drop_last()) + spec_encode_point(points.last())
    }
}

/// The bytes of the archives, one after another.
pub open spec fn spec_encode_data(data: Seq<Seq<Point>>) -> Seq<u8>
    decreases data.len(),
{
    if data.len() == 0 {
        Seq::empty()
    } else {
        spec_encode_data(data.drop_last()) + spec_encode_archive(data.last())
    }
}

/// The bytes of a header: the metadata, then every archive record held.
pub open spec fn spec_encode_header(header: HeaderView) -> Seq<u8> {
    spec_encode_metadata(header.metadata) + spec_encode_archive_infos(header.archive_info)
}

/// The bytes of a file: the header, then every archive.
pub open spec fn spec_encode_database(file: DatabaseView) -> Seq<u8> {
    spec_encode_header(file.header) + spec_encode_data(file.data)
}

pub fn memento_encode_metadata(writer: &mut Vec<u8>, meta: &Metadata) -> (r: MementoResult<()>)
    ensures
        r is Ok,
        final(writer)@ == old(writer)@ + spec_encode_metadata(*meta),
{
    write_u32_be(writer, meta.aggregation().tag());
    write_u32_be(writer, meta.max_retention());
    write_u32_be(writer, meta.x_files_factor());
    write_u32_be(writer, meta.archive_count());
    assert(writer@ =~= old(writer)@ + spec_encode_metadata(*meta));
    Ok(())
}

pub fn memento_encode_archive_infos(writer: &mut Vec<u8>, infos: &[ArchiveInfo]) -> (r:
    MementoResult<()>)
    ensures
        r is Ok,
        final(writer)@ == old(writer)@ + spec_encode_archive_infos(infos@),
{
    let mut i: usize = 0;
    assert(writer@ =~= old(writer)@ + spec_encode_archive_infos(infos@.take(0)));
    while i < infos.len()
        invariant
            i <= infos.len(),
            writer@ == old(writer)@ + spec_encode_archive_infos(infos@.take(i as int)),
        decreases infos.len() - i,
    {
        let info = &infos[i];
        let ghost before = writer@;
        write_u32_be(writer, info.offset());
        write_u32_be(writer, info.seconds_per_point());
        write_u32_be(writer, info.num_points());
        proof {
            assert(infos@.take(i + 1).drop_last() =~= infos@.take(i as int));
            assert(infos@.take(i + 1).last() == *info);
            assert(writer@ =~= before + spec_encode_archive_info(*info));
            assert(writer@ =~= old(writer)@ + spec_encode_archive_infos(infos@.take(i + 1)));
        }
        i = i + 1;
    }
    assert(infos@.take(i as int) =~= infos@);
    Ok(())
}

pub fn memento_encode_point(writer: &mut Vec<u8>, point: &Point) -> (r: MementoResult<()>)
    ensures
        r is Ok,
        final(writer)@ == old(writer)@ + spec_encode_point(*point),
{
    write_u32_be(writer, point.timestamp());
    write_u64_be(writer, point.value());
    assert(writer@ =~= old(writer)@ + spec_encode_point(*point));
    Ok(())
}

pub fn memento_encode_archive(writer: &mut Vec<u8>, archive: &Archive) -> (r: MementoResult<()>)
    ensures
        r is Ok,
        final(writer)@ == old(writer)@ + spec_encode_archive(archive@),
{
    let points = archive.points();
    let mut i: usize = 0;
    assert(writer@ =~= old(writer)@ + spec_encode_archive(points@.take(0)));
    while i < points.len()
        invariant
            i <= points.len(),
            points@ == archive@,
            writer@ == old(writer)@ + spec_encode_archive(points@.take(i as int)),
        decreases points.len() - i,
    {
        let ghost before = writer@;
        let _ = memento_encode_point(writer, &points[i]);
        proof {
            assert(points@.take(i + 1).drop_last() =~= points@.take(i as int));
            assert(points@.take(i + 1).last() == points@[i as int]);
            assert(writer@ =~= old(writer)@ + spec_encode_archive(points@.take(i + 1)));
        }
        i = i + 1;
    }
    assert(points@.take(i as int) =~= points@);
    Ok(())
}

pub fn memento_encode_data(writer: &mut Vec<u8>, data: &Data) -> (r: MementoResult<()>)
    ensures
        r is Ok,
        final(writer)@ == old(writer)@ + spec_encode_data(data@),
{
    let archives = data.archives();
    let mut i: usize = 0;
    assert(writer@ =~= old(writer)@ + spec_encode_data(data@.take(0)));
    while i < archives.len()
        invariant
            i <= archives.len(),
            archives@ == data.archives@,
            writer@ == old(writer)@ + spec_encode_data(data@.take(i as int)),
        decreases archives.len() - i,
    {
        let _ = memento_encode_archive(writer, &archives[i]);
        proof {
            assert(data@.take(i + 1).drop_last() =~= data@.take(i as int));
            assert(data@.take(i + 1).last() == archives@[i as int]@);
            assert(writer@ =~= old(writer)@ + spec_encode_data(data@.take(i + 1)));
        }
        i = i + 1;
    }
    assert(data@.take(i as int) =~= data@);
    Ok(())
}

pub fn memento_encode_header(writer: &mut Vec<u8>, header: &Header) -> (r: MementoResult<()>)
    ensures
        r is Ok,
        final(writer)@ == old(writer)@ + spec_encode_header(header@),
{
    let _ = memento_encode_metadata(writer, header.metadata());
    let _ = memento_encode_archive_infos(writer, header.archive_info());
    assert(writer@ =~= old(writer)@ + spec_encode_header(header@));
    Ok(())
}

pub fn memento_encode_database(writer: &mut Vec<u8>, file: &MementoDatabase) -> (r:
    MementoResult<()>)
    ensures
        r is Ok,
        final(writer)@ == old(writer)@ + spec_encode_database(file@),
{
    let _ = memento_encode_header(writer, file.header());
    let _ = memento_encode_data(writer, file.data());
    assert(writer@ =~= old(writer)@ + spec_encode_database(file@));
    Ok(())
}

} // verus!
