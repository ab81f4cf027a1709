//! The initial contents of the memory: the data segments of a module as
//! pairs of an offset and bytes.

use crate::error::{WasmInstrumentationError, WasmInstrumentationErrorView};
use crate::exports::WASM_PAGE_SIZE;
use crate::model::{group_views, views, DataSegment, DataSegmentKind, DataSegmentView, Instruction};
use vstd::prelude::*;

verus! {

/// The text of the error for a data segment whose offset is not a constant.
pub const COMPLEX_OFFSET_MESSAGE: &'static str =
    "complex initialization expressions for data segments are not supported!";

/// The text of the error for a data segment without an offset.
pub const NO_OFFSET_MESSAGE: &'static str = "no offset found for the data segment";

/// Bytes of the initial memory, and where they go.
#[derive(Clone, Debug, PartialEq, Eq)]
pub struct Segment {
    pub offset: usize,
    pub bytes: Vec<u8>,
}

/// The view of a segment.
pub struct SegmentView {
    pub offset: usize,
    pub bytes: Seq<u8>,
}

impl View for Segment {
    type V = SegmentView;

    open spec fn view(&self) -> SegmentView {
        SegmentView { offset: self.offset, bytes: self.bytes@ }
    }
}

/// The initial contents of the memory of a module, in the order of its data
/// segments.
#[derive(Clone, Debug, PartialEq, Eq)]
pub struct Segments {
    pub segments: Vec<Segment>,
}

impl View for Segments {
    type V = Seq<SegmentView>;

    open spec fn view(&self) -> Seq<SegmentView> {
        views(self.segments@)
    }
}

/// The offset of a data segment: that of an active segment whose offset is a
/// 32-bit constant.
pub open spec fn segment_offset(kind: DataSegmentKind) -> Option<usize> {
    match kind {
        DataSegmentKind::Active { offset_expr: Instruction::I32Const { value }, .. } => Some(
            value as usize,
        ),
        _ => None,
    }
}

/// What is wrong with a data segment that has no such offset.
pub open spec fn segment_rejection(kind: DataSegmentKind) -> Seq<char> {
    match kind {
        DataSegmentKind::Active { .. } => COMPLEX_OFFSET_MESSAGE@,
        DataSegmentKind::Passive => NO_OFFSET_MESSAGE@,
    }
}

/// A data segment with a constant offset as offset and bytes.
pub open spec fn extracted_segment(segment: DataSegmentView) -> SegmentView {
    SegmentView { offset: segment_offset(segment.kind).unwrap(), bytes: segment.data }
}

/// The data segments as pairs of offset and bytes.
pub open spec fn extracted_segments(data: Seq<DataSegmentView>) -> Seq<SegmentView> {
    data.map_values(|segment: DataSegmentView| extracted_segment(segment))
}

/// The index of the first data segment without a constant offset; the number
/// of segments if there is none.
pub open spec fn first_rejected_segment(data: Seq<DataSegmentView>) -> int
    decreases data.len(),
{
    if data.len() == 0 {
        0
    } else {
        let i = first_rejected_segment(data.drop_last());
        if i < data.len() - 1 {
            i
        } else if segment_offset(data.last().kind) is None {
            data.len() - 1
        } else {
            data.len() as int
        }
    }
}

/// `first_rejected_segment` is the least index of a segment without a
/// constant offset.
pub proof fn lemma_first_rejected_segment(data: Seq<DataSegmentView>)
    ensures
        0 <= first_rejected_segment(data) <= data.len(),
        forall|j: int|
            0 <= j < first_rejected_segment(data) ==> segment_offset(
                (#[trigger] data[j]).kind,
            ) is Some,
        first_rejected_segment(data) < data.len() ==> segment_offset(
            data[first_rejected_segment(data)].kind,
        ) is None,
    decreases data.len(),
{
    if data.len() > 0 {
        lemma_first_rejected_segment(data.drop_last());
        assert forall|j: int| 0 <= j < first_rejected_segment(data) implies segment_offset(
            (#[trigger] data[j]).kind,
        ) is Some by {
            if j < data.len() - 1 {
                assert(data[j] == data.drop_last()[j]);
            }
        }
        let i = first_rejected_segment(data.drop_last());
        if i < data.len() - 1 {
            assert(data[i] == data.drop_last()[i]);
        }
    }
}

fn copy_bytes(bytes: &Vec<u8>) -> (copy: Vec<u8>)
    ensures
        copy@ == bytes@,
{
    let mut copy: Vec<u8> = Vec::new();
    let mut i: usize = 0;
    while i < bytes.len()
        invariant
            i <= bytes.len(),
            copy@ == bytes@.take(i as int),
        decreases bytes.len() - i,
    {
        copy.push(bytes[i]);
        i = i + 1;
        assert(copy@ =~= bytes@.take(i as int));
    }
    assert(bytes@.take(i as int) =~= bytes@);
    copy
}

/// Takes the data segments out of a module, as pairs of offset and bytes.
///
/// Every segment has to be active with a 32-bit constant as its offset. If
/// one is not, the first such segment is reported and the segments stay in
/// the module; else the module has no data segments afterwards.
pub fn get_data(data_section: &mut Vec<DataSegment>) -> (result: Result<
    Segments,
    WasmInstrumentationError,
>)
    ensures
        match result {
            Ok(segments) => {
                &&& first_rejected_segment(views(old(data_section)@)) == old(data_section).len()
                &&& segments@ == extracted_segments(views(old(data_section)@))
                &&& final(data_section)@.len() == 0
            },
            Err(error) => {
                let rejected = first_rejected_segment(views(old(data_section)@));
                &&& rejected < old(data_section).len()
                &&& error@ == WasmInstrumentationErrorView::WasmDeserializeError(
                    segment_rejection(old(data_section)@[rejected].kind),
                )
                &&& *final(data_section) == *old(data_section)
            },
        },
{
    broadcast use group_views;

    let ghost data = views(data_section@);
    let mut segments: Vec<Segment> = Vec::new();
    let n = data_section.len();
    let mut i: usize = 0;
    while i < n
        invariant
            *data_section == *old(data_section),
            data == views(data_section@),
            n == data_section.len(),
            i <= n,
            first_rejected_segment(data.take(i as int)) == i,
            views(segments@) == extracted_segments(data.take(i as int)),
        decreases n - i,
    {
        proof {
            assert(data.take(i + 1).drop_last() =~= data.take(i as int));
            assert(data.take(i + 1).last() == data_section@[i as int]@);
            lemma_first_rejected_prefix(data, i + 1);
        }
        let offset = match &data_section[i].kind {
            DataSegmentKind::Active { memory_index: _, offset_expr } => match offset_expr {
                Instruction::I32Const { value } => #[verifier::truncate] (*value as usize),
                _ => {
                    return Err(
                        WasmInstrumentationError::WasmDeserializeError(
                            COMPLEX_OFFSET_MESSAGE.to_owned(),
                        ),
                    );
                },
            },
            DataSegmentKind::Passive => {
                return Err(
                    WasmInstrumentationError::WasmDeserializeError(NO_OFFSET_MESSAGE.to_owned()),
                );
            },
        };
        let bytes = copy_bytes(&data_section[i].data);
        let segment = Segment { offset, bytes };
        proof {
            assert(segment@ == extracted_segment(data[i as int]));
            assert(extracted_segments(data.take(i + 1)) =~= extracted_segments(
                data.take(i as int),
            ).push(segment@));
        }
        segments.push(segment);
        i = i + 1;
    }
    proof {
        assert(data.take(n as int) =~= data);
    }
    data_section.clear();
    Ok(Segments { segments })
}

/// The first segment without a constant offset among the first `n` is the
/// first of all, if there is one.
pub proof fn lemma_first_rejected_prefix(data: Seq<DataSegmentView>, n: int)
    requires
        0 <= n <= data.len(),
    ensures
        first_rejected_segment(data.take(n)) < n ==> first_rejected_segment(data)
            == first_rejected_segment(data.take(n)),
    decreases data.len() - n,
{
    if n < data.len() {
        lemma_first_rejected_prefix(data, n + 1);
        assert(data.take(n + 1).drop_last() =~= data.take(n));
    } else {
        assert(data.take(n) =~= data);
    }
}

/// Whether a segment lies inside a memory of `pages` pages.
pub open spec fn segment_fits(segment: SegmentView, pages: nat) -> bool {
    segment.offset + segment.bytes.len() <= pages * WASM_PAGE_SIZE
}

/// The index of the first segment that does not lie inside a memory of
/// `pages` pages; the number of segments if there is none.
pub open spec fn first_misfit(segments: Seq<SegmentView>, pages: nat) -> int
    decreases segments.len(),
{
    if segments.len() == 0 {
        0
    } else {
        let i = first_misfit(segments.drop_last(), pages);
        if i < segments.len() - 1 {
            i
        } else if !segment_fits(segments.last(), pages) {
            segments.len() - 1
        } else {
            segments.len() as int
        }
    }
}

/// `first_misfit` is the least index of a segment that does not fit.
pub proof fn lemma_first_misfit(segments: Seq<SegmentView>, pages: nat)
    ensures
        0 <= first_misfit(segments, pages) <= segments.len(),
        forall|j: int|
            0 <= j < first_misfit(segments, pages) ==> segment_fits(#[trigger] segments[j], pages),
        first_misfit(segments, pages) < segments.len() ==> !segment_fits(
            segments[first_misfit(segments, pages)],
            pages,
        ),
    decreases segments.len(),
{
    if segments.len() > 0 {
        lemma_first_misfit(segments.drop_last(), pages);
        assert forall|j: int| 0 <= j < first_misfit(segments, pages) implies segment_fits(
            #[trigger] segments[j],
            pages,
        ) by {
            if j < segments.len() - 1 {
                assert(segments[j] == segments.drop_last()[j]);
            }
        }
        let i = first_misfit(segments.drop_last(), pages);
        if i < segments.len() - 1 {
            assert(segments[i] == segments.drop_last()[i]);
        }
    }
}

/// The first misfit among the first `n` segments is the first of all, if
/// there is one.
pub proof fn lemma_first_misfit_prefix(segments: Seq<SegmentView>, pages: nat, n: int)
    requires
        0 <= n <= segments.len(),
    ensures
        first_misfit(segments.take(n), pages) < n ==> first_misfit(segments, pages)
            == first_misfit(segments.take(n), pages),
    decreases segments.len() - n,
{
    if n < segments.len() {
        lemma_first_misfit_prefix(segments, pages, n + 1);
        assert(segments.take(n + 1).drop_last() =~= segments.take(n));
    } else {
        assert(segments.take(n) =~= segments);
    }
}

impl Segments {
    /// Checks that every segment lies inside a memory of
    /// `initial_wasm_pages` pages; reports the first that does not.
    pub fn validate(&self, initial_wasm_pages: usize) -> (result: Result<
        (),
        WasmInstrumentationError,
    >)
        ensures
            match result {
                Ok(()) => first_misfit(self@, initial_wasm_pages as nat) == self@.len(),
                Err(error) => {
                    let misfit = first_misfit(self@, initial_wasm_pages as nat);
                    &&& misfit < self@.len()
                    &&& error@ == WasmInstrumentationErrorView::InvalidDataSegment {
                        offset: self@[misfit].offset,
                        len: self@[misfit].bytes.len() as usize,
                    }
                },
            },
    {
        let initial_memory_size: u128 = initial_wasm_pages as u128 * WASM_PAGE_SIZE as u128;
        let n = self.segments.len();
        let mut i: usize = 0;
        while i < n
            invariant
                n == self.segments.len(),
                i <= n,
                initial_memory_size == initial_wasm_pages * WASM_PAGE_SIZE,
                first_misfit(self@.take(i as int), initial_wasm_pages as nat) == i,
            decreases n - i,
        {
            proof {
                assert(self@.take(i + 1).drop_last() =~= self@.take(i as int));
                assert(self@.take(i + 1).last() == self.segments@[i as int]@);
                lemma_first_misfit_prefix(self@, initial_wasm_pages as nat, i + 1);
            }
            let segment = &self.segments[i];
            let end: u128 = segment.offset as u128 + segment.bytes.len() as u128;
            if end > initial_memory_size {
                return Err(
                    WasmInstrumentationError::InvalidDataSegment {
                        offset: segment.offset,
                        len: segment.bytes.len(),
                    },
                );
            }
            i = i + 1;
        }
        proof {
            assert(self@.take(n as int) =~= self@);
        }
        Ok(())
    }
}

/// The memory `mem` with `bytes` written at `offset`.
pub open spec fn write_bytes(mem: Seq<u8>, offset: int, bytes: Seq<u8>) -> Seq<u8> {
    Seq::new(
        mem.len(),
        |a: int|
            if offset <= a < offset + bytes.len() {
                bytes[a - offset]
            } else {
                mem[a]
            },
    )
}

/// A memory of `size` bytes, all zero, with the segments written into it in
/// their order.
pub open spec fn replayed(segments: Seq<SegmentView>, size: nat) -> Seq<u8>
    decreases segments.len(),
{
    if segments.len() == 0 {
        Seq::new(size, |a: int| 0u8)
    } else {
        write_bytes(
            replayed(segments.drop_last(), size),
            segments.last().offset as int,
            segments.last().bytes,
        )
    }
}

/// The address at which the instantiation of a module writes an active
/// data segment with a constant offset: the constant, read as unsigned.
pub open spec fn segment_address(kind: DataSegmentKind) -> Option<u32> {
    match kind {
        DataSegmentKind::Active { offset_expr: Instruction::I32Const { value }, .. } => Some(
            value as u32,
        ),
        _ => None,
    }
}

/// The memory of `size` bytes that the instantiation of a module with these
/// data segments sets up.
pub open spec fn initial_memory(data: Seq<DataSegmentView>, size: nat) -> Seq<u8>
    decreases data.len(),
{
    if data.len() == 0 {
        Seq::new(size, |a: int| 0u8)
    } else {
        let rest = initial_memory(data.drop_last(), size);
        match segment_address(data.last().kind) {
            Some(address) => write_bytes(rest, address as int, data.last().data),
            None => rest,
        }
    }
}

/// In a memory of 32-bit addresses, a constant offset at which a segment
/// fits is the address that the instantiation writes it to.
pub proof fn lemma_offset_is_address(value: i32, len: nat, pages: nat)
    requires
        pages <= 65536,
        (value as usize) + len <= pages * WASM_PAGE_SIZE,
    ensures
        value as usize == value as u32,
{
    assert(pages * WASM_PAGE_SIZE <= 0x1_0000_0000) by (nonlinear_arith)
        requires
            pages <= 65536,
            WASM_PAGE_SIZE == 65536,
    ;
    let v = value;
    assert((v as usize) as u64 <= 0x1_0000_0000u64 ==> (v as usize) as u64 == (v as u32) as u64)
        by (bit_vector);
}

/// Data segments that were taken out of a module and found to fit into its
/// initial memory give, written at their offsets into a memory of zeros,
/// the memory that the module would have set up itself.
pub proof fn lemma_segments_round_trip(data: Seq<DataSegmentView>, pages: nat)
    requires
        pages <= 65536,
        first_rejected_segment(data) == data.len(),
        first_misfit(extracted_segments(data), pages) == data.len(),
    ensures
        replayed(extracted_segments(data), pages * WASM_PAGE_SIZE as nat) == initial_memory(
            data,
            pages * WASM_PAGE_SIZE as nat,
        ),
    decreases data.len(),
{
    if data.len() > 0 {
        let segments = extracted_segments(data);
        lemma_first_rejected_segment(data);
        lemma_first_misfit(segments, pages);
        let rest = data.drop_last();
        assert(extracted_segments(rest) =~= segments.drop_last());
        lemma_first_rejected_segment(rest);
        lemma_first_misfit(segments.drop_last(), pages);
        assert(first_rejected_segment(rest) == rest.len());
        assert(first_misfit(segments.drop_last(), pages) == rest.len());
        lemma_segments_round_trip(rest, pages);
        let last = data.last();
        assert(segment_fits(segments[data.len() - 1], pages));
        match last.kind {
            DataSegmentKind::Active { offset_expr: Instruction::I32Const { value }, .. } => {
                lemma_offset_is_address(value, last.data.len(), pages);
            },
            _ => {
                assert(segment_offset(data[data.len() - 1].kind) is Some);
            },
        }
    }
}

} // verus!
