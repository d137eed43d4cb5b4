//! Value types for the Whisper on-disk format.
//!
//! A file is `Metadata`, then `archive_count` `ArchiveInfo` records, then the
//! archives themselves, each a run of fixed-size `Point`s. Floating-point
//! fields are carried as their IEEE-754 bit patterns, which is exactly what
//! the file stores.

use vstd::prelude::*;

verus! {

/// Size in bytes of an encoded `Metadata`.
pub const METADATA_SIZE: usize = 16;

/// Size in bytes of an encoded `ArchiveInfo`.
pub const ARCHIVE_INFO_SIZE: usize = 12;

/// Size in bytes of an encoded `Point`.
pub const POINT_SIZE: usize = 12;

/// How values are combined when they are rolled up into a coarser archive.
#[derive(Debug, Clone, Copy, PartialEq, Eq, Hash, Structural)]
pub enum AggregationType {
    Average,
    Sum,
    Last,
    Max,
    Min,
    AvgZero,
    AbsMax,
    AbsMin,
}

impl AggregationType {
    /// The number that stands for this variant in a file.
    pub open spec fn spec_tag(self) -> u32 {
        match self {
            AggregationType::Average => 1,
            AggregationType::Sum => 2,
            AggregationType::Last => 3,
            AggregationType::Max => 4,
            AggregationType::Min => 5,
            AggregationType::AvgZero => 6,
            AggregationType::AbsMax => 7,
            AggregationType::AbsMin => 8,
        }
    }

    /// The variant a file's number stands for, if any.
    pub open spec fn spec_from_tag(tag: u32) -> Option<AggregationType> {
        if tag == 1 {
            Some(AggregationType::Average)
        } else if tag == 2 {
            Some(AggregationType::Sum)
        } else if tag == 3 {
            Some(AggregationType::Last)
        } else if tag == 4 {
            Some(AggregationType::Max)
        } else if tag == 5 {
            Some(AggregationType::Min)
        } else if tag == 6 {
            Some(AggregationType::AvgZero)
        } else if tag == 7 {
            Some(AggregationType::AbsMax)
        } else if tag == 8 {
            Some(AggregationType::AbsMin)
        } else {
            None
        }
    }

    #[verifier::when_used_as_spec(spec_tag)]
    pub fn tag(self) -> (t: u32)
        ensures
            t == self.spec_tag(),
            1 <= t <= 8,
    {
        match self {
            AggregationType::Average => 1,
            AggregationType::Sum => 2,
            AggregationType::Last => 3,
            AggregationType::Max => 4,
            AggregationType::Min => 5,
            AggregationType::AvgZero => 6,
            AggregationType::AbsMax => 7,
            AggregationType::AbsMin => 8,
        }
    }

    pub fn from_tag(tag: u32) -> (r: Option<AggregationType>)
        ensures
            r == Self::spec_from_tag(tag),
            r is Some <==> 1 <= tag <= 8,
    {
        match tag {
            1 => Some(AggregationType::Average),
            2 => Some(AggregationType::Sum),
            3 => Some(AggregationType::Last),
            4 => Some(AggregationType::Max),
            5 => Some(AggregationType::Min),
            6 => Some(AggregationType::AvgZero),
            7 => Some(AggregationType::AbsMax),
            8 => Some(AggregationType::AbsMin),
            _ => None,
        }
    }

    /// Every variant is recovered from its own number.
    pub proof fn lemma_tag_round_trip(self)
        ensures
            Self::spec_from_tag(self.spec_tag()) == Some(self),
    {
    }

    /// A number that names a variant is that variant's number.
    pub proof fn lemma_from_tag_inverse(tag: u32)
        ensures
            Self::spec_from_tag(tag) matches Some(a) ==> a.spec_tag() == tag,
            Self::spec_from_tag(tag) is Some <==> 1 <= tag <= 8,
    {
    }
}

impl Default for AggregationType {
    fn default() -> (a: AggregationType)
        ensures
            a == AggregationType::Average,
    {
        AggregationType::Average
    }
}

/// The fixed leading record of a file.
#[derive(Debug, Clone, Copy, PartialEq, Eq, Structural)]
pub struct Metadata {
    pub aggregation: AggregationType,
    /// Seconds covered by the longest archive.
    pub max_retention: u32,
    /// Bit pattern of the 32-bit float stored in the file.
    pub x_files_factor: u32,
    /// Number of `ArchiveInfo` records that follow.
    pub archive_count: u32,
}

impl Metadata {
    pub fn new(
        aggregation: AggregationType,
        max_retention: u32,
        x_files_factor: u32,
        archive_count: u32,
    ) -> (m: Metadata)
        ensures
            m == (Metadata { aggregation, max_retention, x_files_factor, archive_count }),
    {
        Metadata { aggregation, max_retention, x_files_factor, archive_count }
    }

    pub fn storage() -> (n: usize)
        ensures
            n == METADATA_SIZE,
    {
        METADATA_SIZE
    }

    pub fn aggregation(&self) -> (a: AggregationType)
        ensures
            a == self.aggregation,
    {
        self.aggregation
    }

    pub fn max_retention(&self) -> (r: u32)
        ensures
            r == self.max_retention,
    {
        self.max_retention
    }

    pub fn x_files_factor(&self) -> (x: u32)
        ensures
            x == self.x_files_factor,
    {
        self.x_files_factor
    }

    pub fn archive_count(&self) -> (c: u32)
        ensures
            c == self.archive_count,
    {
        self.archive_count
    }

    /// Bytes taken by the `ArchiveInfo` records this metadata announces.
    pub open spec fn spec_archive_info_size(self) -> nat {
        (ARCHIVE_INFO_SIZE * self.archive_count) as nat
    }

    pub fn archive_info_size(&self) -> (n: u64)
        ensures
            n == self.spec_archive_info_size(),
            n == 12 * self.archive_count,
    {
        12u64 * (self.archive_count as u64)
    }
}

impl Default for Metadata {
    fn default() -> (m: Metadata)
        ensures
            m == (Metadata {
                aggregation: AggregationType::Average,
                max_retention: 0,
                x_files_factor: 0,
                archive_count: 0,
            }),
    {
        Metadata {
            aggregation: AggregationType::Average,
            max_retention: 0,
            x_files_factor: 0,
            archive_count: 0,
        }
    }
}

/// Where one archive lies in the file, and its resolution and length.
#[derive(Debug, Clone, Copy, PartialEq, Eq, Structural)]
pub struct ArchiveInfo {
    /// Absolute file offset of the archive's first point.
    pub offset: u32,
    pub seconds_per_point: u32,
    pub num_points: u32,
}

impl ArchiveInfo {
    pub fn new(offset: u32, seconds_per_point: u32, num_points: u32) -> (a: ArchiveInfo)
        ensures
            a == (ArchiveInfo { offset, seconds_per_point, num_points }),
    {
        ArchiveInfo { offset, seconds_per_point, num_points }
    }

    pub fn storage() -> (n: usize)
        ensures
            n == ARCHIVE_INFO_SIZE,
    {
        ARCHIVE_INFO_SIZE
    }

    /// Bytes taken by the archive's points.
    pub open spec fn spec_archive_size(self) -> nat {
        (POINT_SIZE * self.num_points) as nat
    }

    /// Seconds the archive covers when it is full.
    pub open spec fn spec_retention(self) -> nat {
        (self.seconds_per_point * self.num_points) as nat
    }

    pub fn archive_size(&self) -> (n: u64)
        ensures
            n == self.spec_archive_size(),
            n == 12 * self.num_points,
    {
        12u64 * (self.num_points as u64)
    }

    pub fn retention(&self) -> (n: u64)
        ensures
            n == self.spec_retention(),
    {
        assert(self.seconds_per_point * self.num_points <= 0xffff_ffff * 0xffff_ffff)
            by (nonlinear_arith)
            requires
                self.seconds_per_point <= 0xffff_ffff,
                self.num_points <= 0xffff_ffff,
        ;
        (self.seconds_per_point as u64) * (self.num_points as u64)
    }

    pub fn offset(&self) -> (n: u32)
        ensures
            n == self.offset,
    {
        self.offset
    }

    pub fn seconds_per_point(&self) -> (n: u32)
        ensures
            n == self.seconds_per_point,
    {
        self.seconds_per_point
    }

    pub fn num_points(&self) -> (n: u32)
        ensures
            n == self.num_points,
    {
        self.num_points
    }
}

impl Default for ArchiveInfo {
    fn default() -> (a: ArchiveInfo)
        ensures
            a == (ArchiveInfo { offset: 0, seconds_per_point: 0, num_points: 0 }),
    {
        ArchiveInfo { offset: 0, seconds_per_point: 0, num_points: 0 }
    }
}

/// One sample: when it was taken and what was measured.
#[derive(Debug, Clone, Copy, PartialEq, Eq, Structural)]
pub struct Point {
    /// Seconds since the Unix epoch.
    pub timestamp: u32,
    /// Bit pattern of the 64-bit float stored in the file.
    pub value: u64,
}

impl Point {
    pub fn new(timestamp: u32, value: u64) -> (p: Point)
        ensures
            p == (Point { timestamp, value }),
    {
        Point { timestamp, value }
    }

    pub fn storage() -> (n: usize)
        ensures
            n == POINT_SIZE,
    {
        POINT_SIZE
    }

    pub fn timestamp(&self) -> (t: u32)
        ensures
            t == self.timestamp,
    {
        self.timestamp
    }

    pub fn value(&self) -> (v: u64)
        ensures
            v == self.value,
    {
        self.value
    }
}

impl Default for Point {
    fn default() -> (p: Point)
        ensures
            p == (Point { timestamp: 0, value: 0 }),
    {
        Point { timestamp: 0, value: 0 }
    }
}

/// The points of one archive, in file order.
#[derive(Debug, Clone, PartialEq, Eq)]
pub struct Archive {
    pub points: Vec<Point>,
}

impl View for Archive {
    type V = Seq<Point>;

    open spec fn view(&self) -> Seq<Point> {
        self.points@
    }
}

impl Archive {
    pub fn new(points: Vec<Point>) -> (a: Archive)
        ensures
            a@ == points@,
    {
        Archive { points }
    }

    pub fn points(&self) -> (p: &[Point])
        ensures
            p@ == self@,
    {
        self.points.as_slice()
    }
}

impl Default for Archive {
    fn default() -> (a: Archive)
        ensures
            a@ == Seq::<Point>::empty(),
    {
        Archive { points: Vec::new() }
    }
}

/// Every archive of a file, in header order.
#[derive(Debug, Clone, PartialEq, Eq)]
pub struct Data {
    pub archives: Vec<Archive>,
}

impl View for Data {
    type V = Seq<Seq<Point>>;

    open spec fn view(&self) -> Seq<Seq<Point>> {
        Seq::new(self.archives@.len(), |i: int| self.archives@[i]@)
    }
}

impl Data {
    pub fn new(archives: Vec<Archive>) -> (d: Data)
        ensures
            d.archives == archives,
    {
        Data { archives }
    }

    pub fn archives(&self) -> (a: &[Archive])
        ensures
            a@ == self.archives@,
    {
        self.archives.as_slice()
    }
}

impl Default for Data {
    fn default() -> (d: Data)
        ensures
            d@ == Seq::<Seq<Point>>::empty(),
    {
        let d = Data { archives: Vec::new() };
        assert(d@ =~= Seq::<Seq<Point>>::empty());
        d
    }
}

/// What a `Header` holds, as mathematical values.
pub struct HeaderView {
    pub metadata: Metadata,
    pub archive_info: Seq<ArchiveInfo>,
}

impl HeaderView {
    /// The metadata announces exactly the records that are present.
    pub open spec fn is_consistent(self) -> bool {
        self.metadata.archive_count == self.archive_info.len()
    }

    /// Bytes taken by the encoded header.
    pub open spec fn size(self) -> nat {
        (METADATA_SIZE + ARCHIVE_INFO_SIZE * self.metadata.archive_count) as nat
    }
}

/// Sum of the sizes in bytes of the archives that `infos` describe.
pub open spec fn spec_archives_size(infos: Seq<ArchiveInfo>) -> nat
    decreases infos.len(),
{
    if infos.len() == 0 {
        0
    } else {
        spec_archives_size(infos.drop_last()) + infos.last().spec_archive_size()
    }
}

/// The metadata and the archive records of a file.
#[derive(Debug, Clone, PartialEq, Eq)]
pub struct Header {
    pub metadata: Metadata,
    pub archive_info: Vec<ArchiveInfo>,
}

impl View for Header {
    type V = HeaderView;

    open spec fn view(&self) -> HeaderView {
        HeaderView { metadata: self.metadata, archive_info: self.archive_info@ }
    }
}

impl Header {
    pub fn new(metadata: Metadata, archive_info: Vec<ArchiveInfo>) -> (h: Header)
        ensures
            h@ == (HeaderView { metadata, archive_info: archive_info@ }),
    {
        Header { metadata, archive_info }
    }

    pub fn metadata(&self) -> (m: &Metadata)
        ensures
            *m == self@.metadata,
    {
        &self.metadata
    }

    pub fn archive_info(&self) -> (a: &[ArchiveInfo])
        ensures
            a@ == self@.archive_info,
    {
        self.archive_info.as_slice()
    }

    /// Bytes the header takes in a file, going by the announced record count.
    pub fn size(&self) -> (n: u64)
        ensures
            n == self@.size(),
            n == 16 + 12 * self@.metadata.archive_count,
    {
        16u64 + 12u64 * (self.metadata.archive_count as u64)
    }

    /// Whether the announced record count is the number of records held.
    pub fn is_consistent(&self) -> (b: bool)
        ensures
            b == self@.is_consistent(),
    {
        self.archive_info.len() as u64 == self.metadata.archive_count as u64
    }
}

impl Default for Header {
    fn default() -> (h: Header)
        ensures
            h@.metadata == (Metadata {
                aggregation: AggregationType::Average,
                max_retention: 0,
                x_files_factor: 0,
                archive_count: 0,
            }),
            h@.archive_info == Seq::<ArchiveInfo>::empty(),
    {
        Header { metadata: Metadata::default(), archive_info: Vec::new() }
    }
}

/// The archives match the records: one archive for each record, holding as
/// many points as the record gives.
pub open spec fn spec_data_matches(infos: Seq<ArchiveInfo>, data: Seq<Seq<Point>>) -> bool {
    &&& data.len() == infos.len()
    &&& forall|i: int| 0 <= i < data.len() ==> (#[trigger] data[i]).len() == infos[i].num_points
}

/// What a `WhisperFile` holds, as mathematical values.
pub struct DatabaseView {
    pub header: HeaderView,
    pub data: Seq<Seq<Point>>,
}

impl DatabaseView {
    /// The header is consistent and the archives match its records.
    pub open spec fn is_consistent(self) -> bool {
        self.header.is_consistent() && spec_data_matches(self.header.archive_info, self.data)
    }

    /// Bytes taken by the whole file: the header and every archive it
    /// describes.
    pub open spec fn size(self) -> nat {
        self.header.size() + spec_archives_size(self.header.archive_info)
    }
}

/// A whole file: its header and the contents of every archive.
#[derive(Debug, Clone, PartialEq, Eq)]
pub struct WhisperFile {
    pub header: Header,
    pub data: Data,
}

/// The name under which the reading functions hand out a whole file.
pub type MementoDatabase = WhisperFile;

impl View for WhisperFile {
    type V = DatabaseView;

    open spec fn view(&self) -> DatabaseView {
        DatabaseView { header: self.header@, data: self.data@ }
    }
}

impl WhisperFile {
    pub fn new(header: Header, data: Data) -> (f: WhisperFile)
        ensures
            f.header == header,
            f.data == data,
    {
        WhisperFile { header, data }
    }

    pub fn header(&self) -> (h: &Header)
        ensures
            *h == self.header,
    {
        &self.header
    }

    pub fn data(&self) -> (d: &Data)
        ensures
            *d == self.data,
    {
        &self.data
    }

    /// Bytes the whole file takes.
    pub fn size(&self) -> (n: u128)
        ensures
            n == self@.size(),
    {
        let mut total: u128 = self.header.size() as u128;
        let mut i: usize = 0;
        while i < self.header.archive_info.len()
            invariant
                i <= self.header.archive_info.len(),
                total == self.header@.size() + spec_archives_size(
                    self.header.archive_info@.take(i as int),
                ),
                total <= 0x1_0000_0000_0000 + i * 0x10_0000_0000,
            decreases self.header.archive_info.len() - i,
        {
            let info = &self.header.archive_info[i];
            proof {
                let infos = self.header.archive_info@;
                assert(infos.take(i + 1).drop_last() =~= infos.take(i as int));
                assert(infos.take(i + 1).last() == infos[i as int]);
            }
            total = total + info.archive_size() as u128;
            i = i + 1;
        }
        proof {
            let infos = self.header.archive_info@;
            assert(infos.take(i as int) =~= infos);
        }
        total
    }
}

impl Default for WhisperFile {
    fn default() -> (f: WhisperFile)
        ensures
            f@.header.metadata == (Metadata {
                aggregation: AggregationType::Average,
                max_retention: 0,
                x_files_factor: 0,
                archive_count: 0,
            }),
            f@.header.archive_info == Seq::<ArchiveInfo>::empty(),
            f@.data == Seq::<Seq<Point>>::empty(),
    {
        WhisperFile { header: Header::default(), data: Data::default() }
    }
}

} // verus!
