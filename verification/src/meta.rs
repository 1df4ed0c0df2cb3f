//! Immutable table metadata: snapshots, segments, blocks, and their statistics.
//!
//! A snapshot is the versioned root of a table: an ordered list of segment
//! locations plus an aggregate summary. A segment groups an ordered list of
//! blocks together with segment-level column statistics used for coarse
//! pruning. A block is the unit that pruning finally keeps or drops; it
//! carries per-column min/max/null statistics, an optional bloom digest per
//! column, and optional per-page statistics of the cluster key.
//!
//! Everything here is plain immutable data: once a snapshot is published,
//! nothing reachable from it is ever mutated.

use vstd::prelude::*;

verus! {

/// Content-addressed reference to a stored metadata object, as a pair of an
/// object identifier and the format version it was written with.
#[derive(Clone, Copy, PartialEq, Eq, Structural, Debug)]
pub struct Location {
    pub object_id: u64,
    pub format_version: u64,
}

/// Min/max/null statistics of one column over one block, one segment, or one
/// page. Values are modelled as signed 64-bit scalars.
#[derive(Clone, Copy, PartialEq, Eq, Structural, Debug)]
pub struct ColumnStat {
    pub min: i64,
    pub max: i64,
    pub null_count: u64,
}

impl ColumnStat {
    /// A statistic is well formed when its bounds are ordered.
    pub open spec fn wf(self) -> bool {
        self.min <= self.max
    }
}

/// Position of a block in the logical block order: which segment it came
/// from and its offset inside that segment. Unique within one pruning call.
#[derive(Clone, Copy, PartialEq, Eq, Structural, Debug)]
pub struct BlockMetaIndex {
    pub segment_idx: usize,
    pub block_idx: usize,
}

/// Digest of a block's bloom index for one column: the set of filter values
/// the index reports as possibly present. A value outside `candidates` is
/// definitely absent from the block; membership says nothing.
#[derive(Clone, PartialEq, Eq, Debug)]
pub struct BloomDigest {
    pub column: usize,
    pub candidates: Vec<i64>,
}

/// Spec-level image of a [`BloomDigest`].
pub struct BloomDigestView {
    pub column: usize,
    pub candidates: Seq<i64>,
}

impl View for BloomDigest {
    type V = BloomDigestView;

    open spec fn view(&self) -> BloomDigestView {
        BloomDigestView { column: self.column, candidates: self.candidates@ }
    }
}

/// The element-wise view of a digest list.
pub open spec fn spec_digests_view(s: Seq<BloomDigest>) -> Seq<BloomDigestView> {
    s.map_values(|d: BloomDigest| d@)
}

/// Metadata of one storage block: its location, row count, per-column
/// statistics (indexed by column id, `None` where the column has none),
/// bloom digests for the indexed columns, and per-page statistics of the
/// cluster key for the native format.
#[derive(Clone, PartialEq, Eq, Debug)]
pub struct BlockMeta {
    pub location: Location,
    pub row_count: u64,
    pub col_stats: Vec<Option<ColumnStat>>,
    pub bloom: Vec<BloomDigest>,
    pub page_stats: Option<Vec<ColumnStat>>,
}

/// Spec-level image of a [`BlockMeta`].
pub struct BlockMetaView {
    pub location: Location,
    pub row_count: u64,
    pub col_stats: Seq<Option<ColumnStat>>,
    pub bloom: Seq<BloomDigestView>,
    pub page_stats: Option<Seq<ColumnStat>>,
}

impl View for BlockMeta {
    type V = BlockMetaView;

    open spec fn view(&self) -> BlockMetaView {
        BlockMetaView {
            location: self.location,
            row_count: self.row_count,
            col_stats: self.col_stats@,
            bloom: spec_digests_view(self.bloom@),
            page_stats: match self.page_stats {
                Some(ref ps) => Some(ps@),
                None => None,
            },
        }
    }
}

impl BlockMeta {
    /// Field-by-field copy; derived `Clone` is opaque to the verifier, so
    /// callers that must relate the copy to the original use this instead.
    pub fn duplicate(&self) -> (r: BlockMeta)
        ensures
            r@ == self@,
    {
        let col_stats = copy_vec(&self.col_stats);
        let mut bloom: Vec<BloomDigest> = Vec::new();
        let mut i: usize = 0;
        while i < self.bloom.len()
            invariant
                i <= self.bloom.len(),
                bloom@.len() == i,
                forall|j: int| 0 <= j < i ==> (#[trigger] bloom@[j])@ == self.bloom@[j]@,
            decreases self.bloom.len() - i,
        {
            let d = BloomDigest {
                column: self.bloom[i].column,
                candidates: copy_vec(&self.bloom[i].candidates),
            };
            bloom.push(d);
            i = i + 1;
        }
        proof {
            assert(spec_digests_view(bloom@) =~= spec_digests_view(self.bloom@));
        }
        let page_stats = match self.page_stats {
            Some(ref ps) => Some(copy_vec(ps)),
            None => None,
        };
        let r = BlockMeta {
            location: self.location,
            row_count: self.row_count,
            col_stats,
            bloom,
            page_stats,
        };
        assert(r@.bloom =~= self@.bloom);
        r
    }
}

/// Metadata of one segment: segment-level column statistics (the aggregate
/// over its blocks, used for coarse pruning) and the ordered block list.
#[derive(Clone, PartialEq, Eq, Debug)]
pub struct SegmentInfo {
    pub col_stats: Vec<Option<ColumnStat>>,
    pub blocks: Vec<BlockMeta>,
}

/// Spec-level image of a [`SegmentInfo`].
pub struct SegmentInfoView {
    pub col_stats: Seq<Option<ColumnStat>>,
    pub blocks: Seq<BlockMetaView>,
}

/// The element-wise view of a block list.
pub open spec fn spec_blocks_view(s: Seq<BlockMeta>) -> Seq<BlockMetaView> {
    s.map_values(|b: BlockMeta| b@)
}

impl View for SegmentInfo {
    type V = SegmentInfoView;

    open spec fn view(&self) -> SegmentInfoView {
        SegmentInfoView { col_stats: self.col_stats@, blocks: spec_blocks_view(self.blocks@) }
    }
}

impl SegmentInfo {
    /// Field-by-field copy with a contract, like [`BlockMeta::duplicate`].
    pub fn duplicate(&self) -> (r: SegmentInfo)
        ensures
            r@ == self@,
    {
        let col_stats = copy_vec(&self.col_stats);
        let mut blocks: Vec<BlockMeta> = Vec::new();
        let mut i: usize = 0;
        while i < self.blocks.len()
            invariant
                i <= self.blocks.len(),
                blocks@.len() == i,
                forall|j: int| 0 <= j < i ==> (#[trigger] blocks@[j])@ == self.blocks@[j]@,
            decreases self.blocks.len() - i,
        {
            let b = self.blocks[i].duplicate();
            blocks.push(b);
            i = i + 1;
        }
        proof {
            assert(spec_blocks_view(blocks@) =~= spec_blocks_view(self.blocks@));
        }
        SegmentInfo { col_stats, blocks }
    }
}

/// A segment location paired with its position in the snapshot's segment
/// list; the position survives shuffling and batching so that results can be
/// traced back to their originating segment.
#[derive(Clone, Copy, PartialEq, Eq, Structural, Debug)]
pub struct SegmentLocation {
    pub segment_idx: usize,
    pub location: Location,
}

/// One segment as handed to a pruning call: its location plus the fetched
/// segment metadata. `None` stands for a failed metadata fetch; pruning
/// fails fast on the first one it meets.
#[derive(Clone, PartialEq, Eq, Debug)]
pub struct SegmentEntry {
    pub location: SegmentLocation,
    pub info: Option<SegmentInfo>,
}

/// Spec-level image of a [`SegmentEntry`].
pub struct SegmentEntryView {
    pub location: SegmentLocation,
    pub info: Option<SegmentInfoView>,
}

impl View for SegmentEntry {
    type V = SegmentEntryView;

    open spec fn view(&self) -> SegmentEntryView {
        SegmentEntryView {
            location: self.location,
            info: match self.info {
                Some(ref si) => Some(si@),
                None => None,
            },
        }
    }
}

impl SegmentEntry {
    /// Field-by-field copy with a contract, like [`BlockMeta::duplicate`].
    pub fn duplicate(&self) -> (r: SegmentEntry)
        ensures
            r@ == self@,
    {
        SegmentEntry {
            location: self.location,
            info: match &self.info {
                Some(si) => Some(si.duplicate()),
                None => None,
            },
        }
    }
}

/// The element-wise view of a segment entry list.
pub open spec fn spec_entries_view(s: Seq<SegmentEntry>) -> Seq<SegmentEntryView> {
    s.map_values(|e: SegmentEntry| e@)
}

/// Aggregate summary of a snapshot: total rows, blocks, and raw bytes over
/// all its segments.
#[derive(Clone, Copy, PartialEq, Eq, Structural, Debug, Default)]
pub struct Summary {
    pub row_count: u64,
    pub block_count: u64,
    pub byte_size: u64,
}

/// Immutable, versioned root metadata of a table: the ordered segment list
/// and the aggregate summary. A write never mutates a snapshot; it builds a
/// new one and publishes it through the commit protocol.
#[derive(Clone, PartialEq, Eq, Debug)]
pub struct Snapshot {
    pub version: u64,
    pub segments: Vec<Location>,
    pub summary: Summary,
}

/// Spec-level image of a [`Snapshot`].
pub struct SnapshotView {
    pub version: u64,
    pub segments: Seq<Location>,
    pub summary: Summary,
}

impl View for Snapshot {
    type V = SnapshotView;

    open spec fn view(&self) -> SnapshotView {
        SnapshotView {
            version: self.version,
            segments: self.segments@,
            summary: self.summary,
        }
    }
}

impl Snapshot {
    /// Field-by-field copy with a contract, like [`BlockMeta::duplicate`].
    pub fn duplicate(&self) -> (r: Snapshot)
        ensures
            r@ == self@,
    {
        Snapshot {
            version: self.version,
            segments: copy_vec(&self.segments),
            summary: self.summary,
        }
    }
}

/// The element-wise view of a pruned pair list.
pub open spec fn spec_pairs_view(s: Seq<(BlockMetaIndex, BlockMeta)>) -> Seq<
    (BlockMetaIndex, BlockMetaView),
> {
    s.map_values(|p: (BlockMetaIndex, BlockMeta)| (p.0, p.1@))
}

/// Data type of one table column, reduced to what pruning needs to know:
/// whether a bloom index can be built over the column.
#[derive(Clone, Copy, PartialEq, Eq, Structural, Debug)]
pub enum ColumnDataType {
    Number,
    Text,
    Boolean,
    Nested,
}

impl ColumnDataType {
    /// Whether a bloom index supports the type: point lookups work on
    /// scalar and text columns, not on nested ones.
    pub open spec fn spec_bloom_supported(self) -> bool {
        match self {
            ColumnDataType::Number => true,
            ColumnDataType::Text => true,
            ColumnDataType::Boolean => true,
            ColumnDataType::Nested => false,
        }
    }

    /// Executable form of [`Self::spec_bloom_supported`].
    pub fn bloom_supported(self) -> (b: bool)
        ensures
            b == self.spec_bloom_supported(),
    {
        match self {
            ColumnDataType::Number => true,
            ColumnDataType::Text => true,
            ColumnDataType::Boolean => true,
            ColumnDataType::Nested => false,
        }
    }
}

/// The table schema as pruning sees it: the ordered column types, indexed
/// by column id.
#[derive(Clone, PartialEq, Eq, Debug)]
pub struct TableSchema {
    pub columns: Vec<ColumnDataType>,
}

impl View for TableSchema {
    type V = Seq<ColumnDataType>;

    open spec fn view(&self) -> Seq<ColumnDataType> {
        self.columns@
    }
}

impl TableSchema {
    /// Field-by-field copy with a contract, like [`BlockMeta::duplicate`].
    pub fn duplicate(&self) -> (r: TableSchema)
        ensures
            r@ == self@,
    {
        TableSchema { columns: copy_vec(&self.columns) }
    }
}

/// Copies a vector of plain values element by element.
pub fn copy_vec<T: Copy>(v: &Vec<T>) -> (r: Vec<T>)
    ensures
        r@ =~= v@,
{
    let mut r: Vec<T> = Vec::new();
    let mut i: usize = 0;
    while i < v.len()
        invariant
            i <= v.len(),
            r@ =~= v@.take(i as int),
        decreases v.len() - i,
    {
        r.push(v[i]);
        i = i + 1;
        proof {
            assert(v@.take(i as int) =~= v@.take(i - 1).push(v@[i - 1]));
        }
    }
    proof {
        assert(v@.take(v@.len() as int) =~= v@);
    }
    r
}

} // verus!
