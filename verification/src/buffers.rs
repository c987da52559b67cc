//! Bookkeeping of the ranges of a mapped buffer that callers still hold.

#![allow(non_snake_case)]

pub mod laws;

use std::sync::Arc;

use vstd::prelude::*;

use wgpu_core::resource::{Buffer, BufferAccessError};

use crate::native::{
    WGPUBufferMapState, WGPUBufferMapState_Mapped, WGPUBufferMapState_Pending,
    WGPUBufferMapState_Unmapped, WGPUStatus, WGPUStatus_Error, WGPUStatus_Success,
    WGPU_WHOLE_MAP_SIZE,
};

verus! {

/// A half-open range of bytes of a mapped buffer that was handed out to a caller.
#[derive(Clone, Copy, Debug)]
pub struct MappedRange {
    pub start: u64,
    pub end: u64,
    pub writable: bool,
}

impl MappedRange {
    /// The byte at offset `byte` of the buffer lies in the range.
    pub open spec fn covers(self, byte: int) -> bool {
        self.start <= byte < self.end
    }

    /// The ranges share a byte, and at least one of them may be written.
    pub open spec fn conflicting(self, other: MappedRange) -> bool {
        &&& self.writable || other.writable
        &&& exists|byte: int| #[trigger] self.covers(byte) && other.covers(byte)
    }

    /// `other` lies inside this range, and the two allow the same access.
    pub open spec fn subsumes(self, other: MappedRange) -> bool {
        &&& self.writable == other.writable
        &&& self.start <= other.start
        &&& self.end >= other.end
    }

    /// Tells whether two ranges cannot be held at the same time.
    pub fn conflicts(&self, other: &Self) -> (conflict: bool)
        ensures
            conflict == self.conflicting(*other),
    {
        let conflict = (self.writable || other.writable) && self.start < self.end && other.start
            < other.end && self.start < other.end && other.start < self.end;
        proof {
            if conflict {
                let byte = if self.start <= other.start {
                    other.start as int
                } else {
                    self.start as int
                };
                assert(self.covers(byte) && other.covers(byte));
            }
        }
        conflict
    }
}

/// The ranges held by the callers of one mapping of a buffer.
///
/// Each time that the buffer is mapped anew its generation changes, and the ranges of the earlier
/// mapping are forgotten.
pub struct MappedRanges {
    generation: u64,
    ranges: Vec<MappedRange>,
}

/// What [`MappedRanges`] stands for.
pub struct Held {
    pub generation: u64,
    pub ranges: Seq<MappedRange>,
}

impl View for MappedRanges {
    type V = Held;

    closed spec fn view(&self) -> Held {
        Held { generation: self.generation, ranges: self.ranges@ }
    }
}

impl Held {
    /// The ranges that count once a mapping of generation `generation` has been seen.
    pub open spec fn in_generation(self, generation: u64) -> Held {
        if self.generation == generation {
            self
        } else {
            Held { generation, ranges: Seq::empty() }
        }
    }

    /// Some held range excludes `range`.
    pub open spec fn excludes(self, range: MappedRange) -> bool {
        exists|i: int|
            0 <= i < self.ranges.len() && range.conflicting(#[trigger] self.ranges[i])
    }

    /// Some held range subsumes `range`.
    pub open spec fn includes(self, range: MappedRange) -> bool {
        exists|i: int| 0 <= i < self.ranges.len() && (#[trigger] self.ranges[i]).subsumes(range)
    }

    /// The ranges that are held once `range` has been handed out.
    pub open spec fn holding(self, range: MappedRange) -> Held {
        if range.start == range.end || self.includes(range) {
            self
        } else {
            Held { generation: self.generation, ranges: self.ranges.push(range) }
        }
    }

    /// No held range is empty, and no two of them exclude each other.
    pub open spec fn wf(self) -> bool {
        &&& forall|i: int|
            0 <= i < self.ranges.len() ==> (#[trigger] self.ranges[i]).start < self.ranges[i].end
        &&& forall|i: int, j: int|
            0 <= i < j < self.ranges.len() ==> !(#[trigger] self.ranges[i]).conflicting(
                #[trigger] self.ranges[j],
            )
    }
}

impl MappedRanges {
    /// Forgets the held ranges if they belong to another generation.
    fn enter_generation(&mut self, generation: u64)
        requires
            old(self)@.wf(),
        ensures
            final(self)@.wf(),
            final(self)@ == old(self)@.in_generation(generation),
    {
        if self.generation != generation {
            self.ranges.clear();
            self.generation = generation;
        }
    }

    /// Tells whether some held range excludes `range`.
    fn any_conflict(&self, range: &MappedRange) -> (conflict: bool)
        ensures
            conflict == self@.excludes(*range),
    {
        for i in 0..self.ranges.len()
            invariant
                forall|j: int| 0 <= j < i ==> !range.conflicting(#[trigger] self@.ranges[j]),
        {
            if range.conflicts(&self.ranges[i]) {
                assert(range.conflicting(self@.ranges[i as int]));
                return true;
            }
        }
        false
    }

    /// Tells whether some held range subsumes `range`.
    fn any_subsuming(&self, range: &MappedRange) -> (subsumed: bool)
        ensures
            subsumed == self@.includes(*range),
    {
        for i in 0..self.ranges.len()
            invariant
                forall|j: int| 0 <= j < i ==> !(#[trigger] self@.ranges[j]).subsumes(*range),
        {
            let prior = &self.ranges[i];
            if prior.writable == range.writable && prior.start <= range.start && prior.end
                >= range.end {
                assert(self@.ranges[i as int].subsumes(*range));
                return true;
            }
        }
        false
    }

    /// Holds `range` as well, unless it is empty or a held range subsumes it.
    ///
    /// Ranges that only overlap are kept apart: a single range spanning them would also exclude
    /// the bytes of a gap between them.
    fn hold(&mut self, range: MappedRange)
        requires
            old(self)@.wf(),
            range.start <= range.end,
            !old(self)@.excludes(range),
        ensures
            final(self)@.wf(),
            final(self)@ == old(self)@.holding(range),
    {
        if range.start != range.end && !self.any_subsuming(&range) {
            proof {
                assert forall|i: int| 0 <= i < self@.ranges.len() implies !(
                #[trigger] self@.ranges[i]).conflicting(range) by {
                    law_conflicts_are_mutual(self@.ranges[i], range);
                }
            }
            self.ranges.push(range);
        }
    }
}

/// Exclusion does not depend on which of two ranges came first.
pub proof fn law_conflicts_are_mutual(a: MappedRange, b: MappedRange)
    ensures
        a.conflicting(b) == b.conflicting(a),
{
    if a.conflicting(b) {
        let byte = choose|byte: int| #[trigger] a.covers(byte) && b.covers(byte);
        assert(b.covers(byte) && a.covers(byte));
    }
    if b.conflicting(a) {
        let byte = choose|byte: int| #[trigger] b.covers(byte) && a.covers(byte);
        assert(a.covers(byte) && b.covers(byte));
    }
}

impl Default for MappedRanges {
    fn default() -> (ranges: Self)
        ensures
            ranges@ == (Held { generation: 0, ranges: Seq::empty() }),
            ranges@.wf(),
    {
        MappedRanges { generation: 0, ranges: Vec::new() }
    }
}

/// What the buffer reports of a range that it found to be mapped.
#[derive(Debug)]
pub struct Mapping<D> {
    /// Where the bytes of the range are.
    pub data: D,
    /// How many bytes the range has.
    pub count: u64,
    /// Which mapping of the buffer the range belongs to.
    pub generation: u64,
}

impl<D> Mapping<D> {
    /// The range of the buffer that starts at `offset`, as it is handed out.
    pub open spec fn range(self, offset: usize, writable: bool) -> MappedRange {
        MappedRange { start: offset as u64, end: (offset + self.count) as u64, writable }
    }
}

/// Why a range of a buffer could not be accessed.
#[derive(Debug)]
pub enum AccessError<E> {
    /// A copy was asked for without saying how many bytes it has.
    WholeMapSize,
    /// There are bytes to copy, but the other end of the copy is null.
    NullData,
    /// An outstanding range excludes the one that was asked for.
    Overlap,
    /// The buffer refused the range.
    Invalid(E),
}

/// The size to ask the buffer for, where `None` stands for everything from the offset on.
///
/// Only a range that the caller goes on holding may leave its size open.
pub fn requested_size<E>(size: usize, retain: bool) -> (request: Result<
    Option<u64>,
    AccessError<E>,
>)
    ensures
        request == if size != WGPU_WHOLE_MAP_SIZE {
            Ok::<Option<u64>, AccessError<E>>(Some(size as u64))
        } else if retain {
            Ok(None)
        } else {
            Err(AccessError::WholeMapSize)
        },
{
    if size == WGPU_WHOLE_MAP_SIZE {
        if !retain {
            return Err(AccessError::WholeMapSize);
        }
        Ok(None)
    } else {
        Ok(Some(size as u64))
    }
}

/// Whether a range may be accessed, where `held` is held and the buffer answers `mapped`.
pub open spec fn decision<D, E>(
    held: Held,
    offset: usize,
    size: usize,
    writable: bool,
    retain: bool,
    mapped: Result<Mapping<D>, E>,
) -> Result<(), AccessError<E>> {
    if size == WGPU_WHOLE_MAP_SIZE && !retain {
        Err(AccessError::WholeMapSize)
    } else {
        match mapped {
            Err(error) => Err(AccessError::Invalid(error)),
            Ok(mapping) => if held.in_generation(mapping.generation).excludes(
                mapping.range(offset, writable),
            ) {
                Err(AccessError::Overlap)
            } else {
                Ok(())
            },
        }
    }
}

/// What is held once a range has been asked for, where `held` was held before and the buffer
/// answers `mapped`.
pub open spec fn held_after<D, E>(
    held: Held,
    offset: usize,
    size: usize,
    writable: bool,
    retain: bool,
    mapped: Result<Mapping<D>, E>,
) -> Held {
    match decision(held, offset, size, writable, retain, mapped) {
        Err(AccessError::Overlap) => held.in_generation(mapped->Ok_0.generation),
        Err(_) => held,
        Ok(()) => {
            let current = held.in_generation(mapped->Ok_0.generation);
            if retain {
                current.holding(mapped->Ok_0.range(offset, writable))
            } else {
                current
            }
        },
    }
}

/// Runs `operation` on a range of a buffer, unless an outstanding range excludes it.
///
/// `mapped` is what the buffer answers when it is asked for [`requested_size`] bytes from `offset`
/// on: where they are, or why they cannot be accessed. Only where the range is granted can the
/// operation be relied on to be callable, so it runs nowhere else. With `retain` the caller goes on
/// holding the range after the operation.
pub fn access_mapped<D, R, E, F: FnOnce(D, usize) -> R>(
    borrowed: &mut MappedRanges,
    offset: usize,
    size: usize,
    writable: bool,
    retain: bool,
    mapped: Result<Mapping<D>, E>,
    operation: F,
) -> (result: Result<R, AccessError<E>>)
    requires
        old(borrowed)@.wf(),
        mapped matches Ok(mapping) ==> offset + mapping.count <= u64::MAX,
        decision(old(borrowed)@, offset, size, writable, retain, mapped) is Ok
            ==> operation.requires((mapped->Ok_0.data, mapped->Ok_0.count as usize)),
    ensures
        final(borrowed)@.wf(),
        final(borrowed)@ == held_after(old(borrowed)@, offset, size, writable, retain, mapped),
        match decision(old(borrowed)@, offset, size, writable, retain, mapped) {
            Ok(()) => {
                &&& result is Ok
                &&& operation.ensures(
                    (mapped->Ok_0.data, mapped->Ok_0.count as usize),
                    result->Ok_0,
                )
            },
            Err(error) => result == Err::<R, AccessError<E>>(error),
        },
{
    match requested_size::<E>(size, retain) {
        Err(error) => return Err(error),
        Ok(_) => {},
    }
    let mapping = match mapped {
        Err(error) => return Err(AccessError::Invalid(error)),
        Ok(mapping) => mapping,
    };
    borrowed.enter_generation(mapping.generation);
    let range = MappedRange {
        start: offset as u64,
        end: offset as u64 + mapping.count,
        writable,
    };
    if borrowed.any_conflict(&range) {
        return Err(AccessError::Overlap);
    }
    let count = mapping.count;
    let result = operation(mapping.data, count as usize);
    if retain {
        borrowed.hold(range);
    }
    Ok(result)
}

/// How far the mapping of a buffer has come.
#[derive(Clone, Copy, Debug)]
pub enum BufferMapStatus {
    /// No mapping was asked for.
    Unmapped,
    /// A mapping was asked for and is not there yet.
    Pending,
    /// The buffer is mapped.
    Mapped,
}

/// The map state of a buffer, where `status` is what the buffer answers when it is asked for it.
///
/// A buffer that cannot tell counts as unmapped.
pub fn wgpuBufferGetMapState<E>(status: Result<BufferMapStatus, E>) -> (state: WGPUBufferMapState)
    ensures
        state == match status {
            Ok(BufferMapStatus::Pending) => WGPUBufferMapState_Pending,
            Ok(BufferMapStatus::Mapped) => WGPUBufferMapState_Mapped,
            _ => WGPUBufferMapState_Unmapped,
        },
{
    match status {
        Ok(BufferMapStatus::Pending) => WGPUBufferMapState_Pending,
        Ok(BufferMapStatus::Mapped) => WGPUBufferMapState_Mapped,
        _ => WGPUBufferMapState_Unmapped,
    }
}

/// The mapping of a buffer: how far it has come, what it allows, and which one it is.
#[derive(Clone, Copy, Debug)]
pub struct MapState {
    pub status: BufferMapStatus,
    /// The mapping is one for writing.
    pub writable: bool,
    /// The number of mappings that there have been.
    pub generation: u64,
}

impl MapState {
    /// The buffer is mapped, but not for writing.
    pub open spec fn refuses_writing(self) -> bool {
        self.status is Mapped && !self.writable
    }

    /// The state of a new buffer. One that is mapped from the start may be written.
    pub fn new(mapped_at_creation: bool) -> (state: Self)
        ensures
            state == if mapped_at_creation {
                MapState { status: BufferMapStatus::Mapped, writable: true, generation: 1 }
            } else {
                MapState { status: BufferMapStatus::Unmapped, writable: false, generation: 0 }
            },
    {
        if mapped_at_creation {
            MapState { status: BufferMapStatus::Mapped, writable: true, generation: 1 }
        } else {
            MapState { status: BufferMapStatus::Unmapped, writable: false, generation: 0 }
        }
    }

    /// A mapping was asked for.
    pub fn map_requested(&mut self, writable: bool)
        ensures
            *final(self) == (MapState {
                status: BufferMapStatus::Pending,
                writable,
                generation: old(self).generation,
            }),
    {
        self.status = BufferMapStatus::Pending;
        self.writable = writable;
    }

    /// The mapping that was asked for is there. It is a new one.
    pub fn map_completed(&mut self)
        requires
            old(self).generation < u64::MAX,
        ensures
            *final(self) == old(self).completed(),
    {
        self.status = BufferMapStatus::Mapped;
        self.generation = self.generation + 1;
    }

    /// The state once the mapping that was asked for is there.
    pub open spec fn completed(self) -> MapState {
        MapState {
            status: BufferMapStatus::Mapped,
            writable: self.writable,
            generation: (self.generation + 1) as u64,
        }
    }

    /// The mapping has ended.
    pub fn unmapped(&mut self)
        ensures
            *final(self) == (MapState { status: BufferMapStatus::Unmapped, ..*old(self) }),
    {
        self.status = BufferMapStatus::Unmapped;
    }

    /// Tells whether the buffer is mapped, but not for writing.
    pub fn is_read_only(&self) -> (read_only: bool)
        ensures
            read_only == self.refuses_writing(),
    {
        match self.status {
            BufferMapStatus::Mapped => !self.writable,
            _ => false,
        }
    }
}

/// A buffer of `wgpu`.
#[verifier::external_type_specification]
#[verifier::external_body]
pub struct ExBuffer(Buffer);

/// Why a buffer of `wgpu` refuses a range.
#[verifier::external_type_specification]
#[verifier::external_body]
pub struct ExBufferAccessError(BufferAccessError);

/// Why a range of a buffer is refused.
#[derive(Debug)]
pub enum MapError {
    /// The range is to be written, but the mapping is one for reading.
    NotWritable,
    /// The buffer refuses the range.
    Access(BufferAccessError),
}

/// Offsets of mapped ranges are multiples of this many bytes.
pub const MAP_ALIGNMENT: u64 = 8;

/// Sizes of mapped ranges are multiples of this many bytes.
pub const COPY_BUFFER_ALIGNMENT: u64 = 4;

/// The address and the size of the range of a buffer that starts at `offset`.
///
/// Calls `wgpu_core::resource::Buffer::get_mapped_range`. Trusted: a range that it finds starts
/// and ends where a mapped range may, does not end beyond the largest offset, and has the size
/// that was asked for, if one was. Whether the range is found, and at which address, depends on
/// how the buffer is mapped at that moment and is left open.
#[verifier::external_body]
fn get_mapped_range(buffer: &Arc<Buffer>, offset: u64, size: Option<u64>) -> (range: Result<
    (usize, u64),
    BufferAccessError,
>)
    ensures
        range matches Ok((_, count)) ==> {
            &&& offset % MAP_ALIGNMENT == 0
            &&& count % COPY_BUFFER_ALIGNMENT == 0
            &&& offset + count <= u64::MAX
            &&& size matches Some(asked) ==> count == asked
        },
{
    match buffer.get_mapped_range(offset, size) {
        Ok((data, count)) => Ok((data.as_ptr() as usize, count)),
        Err(error) => Err(error),
    }
}

/// An answer that a buffer may give when it is asked for a range while its mapping is of
/// generation `generation`.
pub open spec fn answers(
    mapped: Result<Mapping<usize>, BufferAccessError>,
    generation: u64,
    offset: usize,
    request: Option<u64>,
) -> bool {
    mapped matches Ok(mapping) ==> {
        &&& mapping.generation == generation
        &&& offset as int % MAP_ALIGNMENT as int == 0
        &&& mapping.count % COPY_BUFFER_ALIGNMENT == 0
        &&& offset + mapping.count <= u64::MAX
        &&& request matches Some(asked) ==> mapping.count == asked
    }
}

/// `range` is what the buffer returned when it was asked for `size` bytes from `offset` on.
pub closed spec fn returned(
    buffer: &Arc<Buffer>,
    offset: u64,
    size: Option<u64>,
    range: Result<(usize, u64), BufferAccessError>,
) -> bool {
    get_mapped_range.ensures((buffer, offset, size), range)
}

/// What a buffer returned, as a range of its mapping of generation `generation`.
pub open spec fn located(
    range: Result<(usize, u64), BufferAccessError>,
    generation: u64,
) -> Result<Mapping<usize>, BufferAccessError> {
    match range {
        Ok((data, count)) => Ok(Mapping { data, count, generation }),
        Err(error) => Err(error),
    }
}

/// `mapped` is what the buffer returned when it was asked for the range of `request` bytes from
/// `offset` on, as a range of its mapping of generation `generation`.
pub open spec fn asked_of(
    buffer: &Arc<Buffer>,
    mapped: Result<Mapping<usize>, BufferAccessError>,
    generation: u64,
    offset: usize,
    request: Option<u64>,
) -> bool {
    &&& answers(mapped, generation, offset, request)
    &&& exists|range: Result<(usize, u64), BufferAccessError>| #[trigger]
        returned(buffer, offset as u64, request, range) && mapped == located(range, generation)
}

/// Asks a buffer for a range. Its mapping is of generation `generation`.
pub fn find_range(
    buffer: &Arc<Buffer>,
    generation: u64,
    offset: usize,
    request: Option<u64>,
) -> (mapped: Result<Mapping<usize>, BufferAccessError>)
    ensures
        asked_of(buffer, mapped, generation, offset, request),
{
    let range = get_mapped_range(buffer, offset as u64, request);
    assert(returned(buffer, offset as u64, request, range));
    match range {
        Ok((data, count)) => Ok(Mapping { data, count, generation }),
        Err(error) => Err(error),
    }
}

/// `mapped` is the answer to a request for a range of a buffer whose mapping is `state`.
///
/// A range that is to be written is refused where the mapping is one for reading. Any other
/// answer is what the buffer returned for this offset and this size.
pub open spec fn replied(
    buffer: &Arc<Buffer>,
    state: MapState,
    mapped: Result<Mapping<usize>, MapError>,
    offset: usize,
    request: Option<u64>,
    writable: bool,
) -> bool {
    if writable && state.refuses_writing() {
        mapped == Err::<Mapping<usize>, MapError>(MapError::NotWritable)
    } else {
        match mapped {
            Ok(mapping) => asked_of(buffer, Ok(mapping), state.generation, offset, request),
            Err(MapError::Access(error)) => asked_of(
                buffer,
                Err(error),
                state.generation,
                offset,
                request,
            ),
            Err(MapError::NotWritable) => false,
        }
    }
}

/// Asks a buffer whose mapping is `state` for a range that is to be read, or written.
pub fn find_mapped(
    buffer: &Arc<Buffer>,
    state: &MapState,
    offset: usize,
    request: Option<u64>,
    writable: bool,
) -> (mapped: Result<Mapping<usize>, MapError>)
    ensures
        replied(buffer, *state, mapped, offset, request, writable),
{
    if writable && state.is_read_only() {
        return Err(MapError::NotWritable);
    }
    match find_range(buffer, state.generation, offset, request) {
        Ok(mapping) => Ok(mapping),
        Err(error) => Err(MapError::Access(error)),
    }
}

/// The size that a buffer is asked for.
pub open spec fn request(size: usize) -> Option<u64> {
    if size == WGPU_WHOLE_MAP_SIZE {
        None
    } else {
        Some(size as u64)
    }
}

/// Runs `operation` on a range of a buffer whose mapping is `state`, unless the range is refused
/// or an outstanding range excludes it.
///
/// The operation gets the address of the range and its size. Only where the range is granted can
/// the operation be relied on to be callable, so it runs nowhere else. With `retain` the caller
/// goes on holding the range after the operation.
pub fn access<R, F: FnOnce(usize, usize) -> R>(
    buffer: &Arc<Buffer>,
    state: &MapState,
    borrowed: &mut MappedRanges,
    offset: usize,
    size: usize,
    writable: bool,
    retain: bool,
    operation: F,
) -> (result: Result<R, AccessError<MapError>>)
    requires
        old(borrowed)@.wf(),
        forall|mapped: Result<Mapping<usize>, MapError>| #[trigger]
            replied(buffer, *state, mapped, offset, request(size), writable) && decision(
                old(borrowed)@,
                offset,
                size,
                writable,
                retain,
                mapped,
            ) is Ok ==> operation.requires((mapped->Ok_0.data, mapped->Ok_0.count as usize)),
    ensures
        final(borrowed)@.wf(),
        size == WGPU_WHOLE_MAP_SIZE && !retain ==> {
            &&& result == Err::<R, AccessError<MapError>>(AccessError::WholeMapSize)
            &&& final(borrowed)@ == old(borrowed)@
        },
        size != WGPU_WHOLE_MAP_SIZE || retain ==> exists|mapped: Result<Mapping<usize>, MapError>|
            #[trigger]
            replied(buffer, *state, mapped, offset, request(size), writable) && {
                &&& final(borrowed)@ == held_after(
                    old(borrowed)@,
                    offset,
                    size,
                    writable,
                    retain,
                    mapped,
                )
                &&& match decision(old(borrowed)@, offset, size, writable, retain, mapped) {
                    Ok(()) => {
                        &&& result is Ok
                        &&& operation.ensures(
                            (mapped->Ok_0.data, mapped->Ok_0.count as usize),
                            result->Ok_0,
                        )
                    },
                    Err(error) => result == Err::<R, AccessError<MapError>>(error),
                }
            },
{
    let request = match requested_size::<MapError>(size, retain) {
        Err(error) => return Err(error),
        Ok(request) => request,
    };
    let mapped = find_mapped(buffer, state, offset, request, writable);
    access_mapped(borrowed, offset, size, writable, retain, mapped, operation)
}

/// Finds the range of a buffer that a copy is to read or, with `writable`, to write, unless an
/// outstanding range excludes it.
///
/// A copy has to say how many bytes it has.
pub fn find_copy(
    buffer: &Arc<Buffer>,
    state: &MapState,
    borrowed: &mut MappedRanges,
    offset: usize,
    size: usize,
    writable: bool,
) -> (found: Result<Mapping<usize>, AccessError<MapError>>)
    requires
        old(borrowed)@.wf(),
    ensures
        final(borrowed)@.wf(),
        size == WGPU_WHOLE_MAP_SIZE ==> {
            &&& found == Err::<Mapping<usize>, AccessError<MapError>>(AccessError::WholeMapSize)
            &&& final(borrowed)@ == old(borrowed)@
        },
        size != WGPU_WHOLE_MAP_SIZE ==> exists|mapped: Result<Mapping<usize>, MapError>| #[trigger]
            replied(buffer, *state, mapped, offset, request(size), writable) && {
                &&& final(borrowed)@ == held_after(
                    old(borrowed)@,
                    offset,
                    size,
                    writable,
                    false,
                    mapped,
                )
                &&& found == match decision(
                    old(borrowed)@,
                    offset,
                    size,
                    writable,
                    false,
                    mapped,
                ) {
                    Ok(()) => Ok(mapped->Ok_0),
                    Err(error) => Err(error),
                }
            },
{
    let place = |address: usize, _count: usize| -> (place: usize)
        ensures
            place == address,
        { address };
    match access(buffer, state, borrowed, offset, size, writable, false, place) {
        Ok(data) => Ok(Mapping { data, count: size as u64, generation: state.generation }),
        Err(error) => Err(error),
    }
}

/// Hands out a range of a mapped buffer for reading.
///
/// The caller gets the address of the range and holds the range from then on.
pub fn wgpuBufferGetConstMappedRange(
    buffer: &Arc<Buffer>,
    state: &MapState,
    borrowed: &mut MappedRanges,
    offset: usize,
    size: usize,
) -> (result: Result<usize, AccessError<MapError>>)
    requires
        old(borrowed)@.wf(),
    ensures
        final(borrowed)@.wf(),
        exists|mapped: Result<Mapping<usize>, MapError>| #[trigger]
            replied(buffer, *state, mapped, offset, request(size), false) && {
                &&& final(borrowed)@ == held_after(
                    old(borrowed)@,
                    offset,
                    size,
                    false,
                    true,
                    mapped,
                )
                &&& result == match decision(
                    old(borrowed)@,
                    offset,
                    size,
                    false,
                    true,
                    mapped,
                ) {
                    Ok(()) => Ok(mapped->Ok_0.data),
                    Err(error) => Err(error),
                }
            },
{
    let place = |address: usize, _count: usize| -> (place: usize)
        ensures
            place == address,
        { address };
    access(buffer, state, borrowed, offset, size, false, true, place)
}

/// Hands out a range of a mapped buffer for reading and writing.
///
/// The caller gets the address of the range and holds the range from then on.
pub fn wgpuBufferGetMappedRange(
    buffer: &Arc<Buffer>,
    state: &MapState,
    borrowed: &mut MappedRanges,
    offset: usize,
    size: usize,
) -> (result: Result<usize, AccessError<MapError>>)
    requires
        old(borrowed)@.wf(),
    ensures
        final(borrowed)@.wf(),
        exists|mapped: Result<Mapping<usize>, MapError>| #[trigger]
            replied(buffer, *state, mapped, offset, request(size), true) && {
                &&& final(borrowed)@ == held_after(
                    old(borrowed)@,
                    offset,
                    size,
                    true,
                    true,
                    mapped,
                )
                &&& result == match decision(
                    old(borrowed)@,
                    offset,
                    size,
                    true,
                    true,
                    mapped,
                ) {
                    Ok(()) => Ok(mapped->Ok_0.data),
                    Err(error) => Err(error),
                }
            },
{
    let place = |address: usize, _count: usize| -> (place: usize)
        ensures
            place == address,
        { address };
    access(buffer, state, borrowed, offset, size, true, true, place)
}

/// `target` with its first `count` bytes replaced by those of `source`.
pub open spec fn copied(target: Seq<u8>, source: Seq<u8>, count: int) -> Seq<u8> {
    source.subrange(0, count) + target.subrange(count, target.len() as int)
}

/// Replaces the first `count` bytes of `target` by those of `source`.
fn copy_bytes(source: &[u8], target: &mut [u8], count: usize)
    requires
        count <= source@.len(),
        count <= old(target)@.len(),
    ensures
        final(target)@ == copied(old(target)@, source@, count as int),
{
    let ghost before = target@;
    for i in 0..count
        invariant
            count <= source@.len(),
            count <= before.len(),
            target@ == copied(before, source@, i as int),
    {
        target[i] = source[i];
        assert(target@ == copied(before, source@, i + 1));
    }
}

/// Copies a range of a mapped buffer to `data`, where `None` stands for null.
///
/// A copy is not held once it is done.
pub fn wgpuBufferReadMappedRange<'a, E>(
    borrowed: &mut MappedRanges,
    offset: usize,
    data: Option<&mut [u8]>,
    size: usize,
    mapped: Result<Mapping<&'a [u8]>, E>,
) -> (result: Result<(), AccessError<E>>)
    requires
        old(borrowed)@.wf(),
        mapped matches Ok(mapping) ==> {
            &&& offset + mapping.count <= u64::MAX
            &&& mapping.data@.len() == mapping.count
            &&& data matches Some(target) ==> mapping.count <= target@.len()
            &&& data is None && size == 0 ==> mapping.count == 0
        },
    ensures
        final(borrowed)@.wf(),
        data is None && size != 0 ==> {
            &&& result == Err::<(), AccessError<E>>(AccessError::NullData)
            &&& final(borrowed)@ == old(borrowed)@
        },
        data is Some || size == 0 ==> {
            &&& result == decision(old(borrowed)@, offset, size, false, false, mapped)
            &&& final(borrowed)@ == held_after(old(borrowed)@, offset, size, false, false, mapped)
        },
        data matches Some(target) ==> final(target)@ == if result is Ok {
            copied(target@, mapped->Ok_0.data@, mapped->Ok_0.count as int)
        } else {
            target@
        },
{
    if data.is_none() && size != 0 {
        return Err(AccessError::NullData);
    }
    let place = |data: &'a [u8], _count: usize| -> (place: &'a [u8])
        ensures
            place == data,
        { data };
    match access_mapped(borrowed, offset, size, false, false, mapped, place) {
        Err(error) => Err(error),
        Ok(source) => {
            if let Some(target) = data {
                copy_bytes(source, target, source.len());
            }
            Ok(())
        },
    }
}

/// Copies `data` to a range of a mapped buffer, where `None` stands for null.
///
/// A copy is not held once it is done.
pub fn wgpuBufferWriteMappedRange<E>(
    borrowed: &mut MappedRanges,
    offset: usize,
    data: Option<&[u8]>,
    size: usize,
    mapped: Result<Mapping<&mut [u8]>, E>,
) -> (result: Result<(), AccessError<E>>)
    requires
        old(borrowed)@.wf(),
        mapped matches Ok(mapping) ==> {
            &&& offset + mapping.count <= u64::MAX
            &&& mapping.data@.len() == mapping.count
            &&& data matches Some(source) ==> mapping.count <= source@.len()
            &&& data is None && size == 0 ==> mapping.count == 0
        },
    ensures
        final(borrowed)@.wf(),
        data is None && size != 0 ==> {
            &&& result == Err::<(), AccessError<E>>(AccessError::NullData)
            &&& final(borrowed)@ == old(borrowed)@
        },
        data is Some || size == 0 ==> {
            &&& result == decision(old(borrowed)@, offset, size, true, false, mapped)
            &&& final(borrowed)@ == held_after(old(borrowed)@, offset, size, true, false, mapped)
        },
        mapped matches Ok(mapping) ==> final(mapping.data)@ == if result is Ok && data is Some {
            copied(mapping.data@, data->0@, mapping.count as int)
        } else {
            mapping.data@
        },
{
    if data.is_none() && size != 0 {
        return Err(AccessError::NullData);
    }
    let mapping = match mapped {
        Err(error) => return access_mapped(
            borrowed,
            offset,
            size,
            true,
            false,
            Err::<Mapping<()>, E>(error),
            |_data: (), _count: usize| {},
        ),
        Ok(mapping) => mapping,
    };
    let place = Mapping { data: (), count: mapping.count, generation: mapping.generation };
    let result = access_mapped(
        borrowed,
        offset,
        size,
        true,
        false,
        Ok::<Mapping<()>, E>(place),
        |_data: (), _count: usize| {},
    );
    if result.is_ok() {
        if let Some(source) = data {
            let count: usize = mapping.data.len();
            copy_bytes(source, mapping.data, count);
        }
    }
    result
}

/// The status that the caller of a copy gets to see.
pub fn copy_status<E>(result: &Result<(), AccessError<E>>) -> (status: WGPUStatus)
    ensures
        status == if result is Ok {
            WGPUStatus_Success
        } else {
            WGPUStatus_Error
        },
{
    match result {
        Ok(()) => WGPUStatus_Success,
        Err(_) => WGPUStatus_Error,
    }
}

/// A byte that is held twice is held for reading only.
pub proof fn law_shared_bytes_are_read_only(held: Held, i: int, j: int, byte: int)
    requires
        held.wf(),
        0 <= i < held.ranges.len(),
        0 <= j < held.ranges.len(),
        i != j,
        held.ranges[i].covers(byte),
        held.ranges[j].covers(byte),
    ensures
        !held.ranges[i].writable,
        !held.ranges[j].writable,
{
    if i < j {
        assert(!held.ranges[i].conflicting(held.ranges[j]));
    } else {
        assert(!held.ranges[j].conflicting(held.ranges[i]));
    }
}

/// Two ranges for reading never exclude each other, and an empty range excludes nothing.
pub proof fn law_readers_and_empty_ranges_coexist(a: MappedRange, b: MappedRange)
    requires
        !a.writable && !b.writable || a.start >= a.end || b.start >= b.end,
    ensures
        !a.conflicting(b),
{
}

/// Handing out a range excludes what the range itself excludes and nothing else, whether or not
/// it had to be noted down.
pub proof fn law_holding_adds_exactly_the_range(held: Held, range: MappedRange, asked: MappedRange)
    ensures
        held.holding(range).excludes(asked) <==> held.excludes(asked) || asked.conflicting(range),
{
    let after = held.holding(range);
    if asked.conflicting(range) {
        let byte = choose|byte: int| #[trigger] asked.covers(byte) && range.covers(byte);
        if held.includes(range) {
            let i = choose|i: int|
                0 <= i < held.ranges.len() && (#[trigger] held.ranges[i]).subsumes(range);
            assert(asked.covers(byte) && held.ranges[i].covers(byte));
            assert(asked.conflicting(after.ranges[i]));
        } else {
            assert(after.ranges[held.ranges.len() as int] == range);
        }
    }
    if held.excludes(asked) {
        let i = choose|i: int|
            0 <= i < held.ranges.len() && asked.conflicting(#[trigger] held.ranges[i]);
        assert(after.ranges[i] == held.ranges[i]);
    }
    if after.excludes(asked) {
        let i = choose|i: int|
            0 <= i < after.ranges.len() && asked.conflicting(#[trigger] after.ranges[i]);
        if i < held.ranges.len() {
            assert(after.ranges[i] == held.ranges[i]);
        }
    }
}

/// What is held of one generation once the ranges `granted` have been handed out in turn.
pub open spec fn holding_all(generation: u64, granted: Seq<MappedRange>) -> Held
    decreases granted.len(),
{
    if granted.len() == 0 {
        Held { generation, ranges: Seq::empty() }
    } else {
        holding_all(generation, granted.drop_last()).holding(granted.last())
    }
}

/// A range is refused exactly if it conflicts with one that was handed out before in the same
/// generation. In particular the gaps between ranges stay free.
pub proof fn law_refused_iff_conflicting_with_a_grant(
    generation: u64,
    granted: Seq<MappedRange>,
    asked: MappedRange,
)
    ensures
        holding_all(generation, granted).excludes(asked) <==> exists|i: int|
            0 <= i < granted.len() && asked.conflicting(#[trigger] granted[i]),
    decreases granted.len(),
{
    if granted.len() > 0 {
        let earlier = granted.drop_last();
        let held = holding_all(generation, earlier);
        law_refused_iff_conflicting_with_a_grant(generation, earlier, asked);
        law_holding_adds_exactly_the_range(held, granted.last(), asked);
        if held.excludes(asked) {
            let i = choose|i: int|
                0 <= i < earlier.len() && asked.conflicting(#[trigger] earlier[i]);
            assert(granted[i] == earlier[i]);
        }
        if exists|i: int| 0 <= i < granted.len() && asked.conflicting(#[trigger] granted[i]) {
            let i = choose|i: int|
                0 <= i < granted.len() && asked.conflicting(#[trigger] granted[i]);
            if i < earlier.len() {
                assert(earlier[i] == granted[i]);
            }
        }
    }
}

/// While a range is held, a range that shares a byte with it is refused if either may be
/// written, and the refusal changes nothing.
pub proof fn law_held_range_refuses_conflicts<D, E>(
    held: Held,
    offset: usize,
    size: usize,
    writable: bool,
    mapping: Mapping<D>,
    later_offset: usize,
    later_size: usize,
    later_writable: bool,
    later_retain: bool,
    later: Mapping<D>,
)
    requires
        decision(held, offset, size, writable, true, Ok::<Mapping<D>, E>(mapping)) is Ok,
        later.generation == mapping.generation,
        later_size != WGPU_WHOLE_MAP_SIZE || later_retain,
        later.range(later_offset, later_writable).conflicting(mapping.range(offset, writable)),
    ensures
        ({
            let between = held_after(
                held,
                offset,
                size,
                writable,
                true,
                Ok::<Mapping<D>, E>(mapping),
            );
            let answer = Ok::<Mapping<D>, E>(later);
            &&& decision(between, later_offset, later_size, later_writable, later_retain, answer)
                == Err::<(), AccessError<E>>(AccessError::Overlap)
            &&& held_after(between, later_offset, later_size, later_writable, later_retain, answer)
                == between
        }),
{
    law_holding_adds_exactly_the_range(
        held.in_generation(mapping.generation),
        mapping.range(offset, writable),
        later.range(later_offset, later_writable),
    );
}

/// Once the buffer has been mapped anew, the ranges of the earlier mapping exclude nothing.
pub proof fn law_new_mapping_forgets_ranges<D, E>(
    held: Held,
    offset: usize,
    size: usize,
    writable: bool,
    retain: bool,
    mapping: Mapping<D>,
)
    requires
        mapping.generation != held.generation,
        size != WGPU_WHOLE_MAP_SIZE || retain,
    ensures
        decision(held, offset, size, writable, retain, Ok::<Mapping<D>, E>(mapping)) is Ok,
{
}

/// The ranges that are held belong to the mapping that is there or to one before it, and asking
/// for a range keeps it so.
pub proof fn law_held_ranges_are_of_known_mappings<D, E>(
    held: Held,
    state: MapState,
    offset: usize,
    size: usize,
    writable: bool,
    retain: bool,
    mapped: Result<Mapping<D>, E>,
)
    requires
        held.generation <= state.generation,
        mapped matches Ok(mapping) ==> mapping.generation == state.generation,
    ensures
        held_after(held, offset, size, writable, retain, mapped).generation <= state.generation,
{
}

/// Once a further mapping is there, whatever was held before excludes none of its ranges.
pub proof fn law_further_mapping_starts_afresh<D, E>(
    held: Held,
    state: MapState,
    offset: usize,
    size: usize,
    writable: bool,
    retain: bool,
    mapping: Mapping<D>,
)
    requires
        held.generation <= state.generation < u64::MAX,
        mapping.generation == state.completed().generation,
        size != WGPU_WHOLE_MAP_SIZE || retain,
    ensures
        decision(held, offset, size, writable, retain, Ok::<Mapping<D>, E>(mapping)) is Ok,
{
    law_new_mapping_forgets_ranges::<D, E>(held, offset, size, writable, retain, mapping);
}

/// A request for a range of a buffer, and what the buffer answers.
pub struct Request<D, E> {
    pub offset: usize,
    pub size: usize,
    pub writable: bool,
    pub retain: bool,
    pub mapped: Result<Mapping<D>, E>,
}

impl<D, E> Request<D, E> {
    /// The request is granted where `held` is held.
    pub open spec fn granted(self, held: Held) -> bool {
        decision(held, self.offset, self.size, self.writable, self.retain, self.mapped) is Ok
    }

    /// The range that the buffer found.
    pub open spec fn range(self) -> MappedRange {
        self.mapped->Ok_0.range(self.offset, self.writable)
    }
}

/// What is held after the requests, where `held` was held before them.
pub open spec fn held_after_all<D, E>(held: Held, requests: Seq<Request<D, E>>) -> Held
    decreases requests.len(),
{
    if requests.len() == 0 {
        held
    } else {
        let last = requests.last();
        held_after(
            held_after_all(held, requests.drop_last()),
            last.offset,
            last.size,
            last.writable,
            last.retain,
            last.mapped,
        )
    }
}

/// A range that was handed out never conflicts with one that is granted later in the same
/// mapping, whatever is asked for in between and however many bytes the buffer found: if either
/// may be written, they share no byte.
pub proof fn law_granted_ranges_never_conflict<D, E>(
    held: Held,
    requests: Seq<Request<D, E>>,
    generation: u64,
    i: int,
    j: int,
)
    requires
        0 <= i < j < requests.len(),
        forall|k: int|
            i <= k <= j ==> ((#[trigger] requests[k]).mapped matches Ok(mapping)
                ==> mapping.generation == generation),
        requests[i].retain,
        requests[i].granted(held_after_all(held, requests.take(i))),
        requests[j].granted(held_after_all(held, requests.take(j))),
    ensures
        !requests[i].range().conflicting(requests[j].range()),
        !requests[j].range().conflicting(requests[i].range()),
{
    let asked = requests[j].range();
    law_conflicts_are_mutual(requests[i].range(), asked);
    if asked.conflicting(requests[i].range()) {
        lemma_exclusion_lasts(held, requests, generation, i, j, asked);
    }
}

/// What conflicts with a range that was handed out is excluded as long as the mapping lasts.
proof fn lemma_exclusion_lasts<D, E>(
    held: Held,
    requests: Seq<Request<D, E>>,
    generation: u64,
    i: int,
    j: int,
    asked: MappedRange,
)
    requires
        0 <= i < j <= requests.len(),
        forall|k: int|
            i <= k < j ==> ((#[trigger] requests[k]).mapped matches Ok(mapping)
                ==> mapping.generation == generation),
        requests[i].retain,
        requests[i].granted(held_after_all(held, requests.take(i))),
        asked.conflicting(requests[i].range()),
    ensures
        held_after_all(held, requests.take(j)).generation == generation,
        held_after_all(held, requests.take(j)).excludes(asked),
    decreases j,
{
    let last = j - 1;
    let request = requests[last];
    let before = held_after_all(held, requests.take(last));
    assert(requests.take(j).drop_last() =~= requests.take(last));
    if i < last {
        lemma_exclusion_lasts(held, requests, generation, i, last, asked);
    }
    law_holding_adds_exactly_the_range(before.in_generation(generation), request.range(), asked);
}

/// A copy holds nothing once it is done.
pub proof fn law_copies_are_not_held<D, E>(
    held: Held,
    offset: usize,
    size: usize,
    writable: bool,
    mapped: Result<Mapping<D>, E>,
)
    requires
        mapped matches Ok(mapping) ==> mapping.generation == held.generation,
    ensures
        held_after(held, offset, size, writable, false, mapped) == held,
{
}

/// A copy whose range was found is granted the range, and changes nothing more of what is held.
pub proof fn law_found_copy_is_granted<A, B, E>(
    held: Held,
    offset: usize,
    size: usize,
    writable: bool,
    found: Mapping<A>,
    copied: Mapping<B>,
)
    requires
        decision(held, offset, size, writable, false, Ok::<Mapping<A>, E>(found)) is Ok,
        copied.count == found.count,
        copied.generation == found.generation,
    ensures
        ({
            let between = held_after(
                held,
                offset,
                size,
                writable,
                false,
                Ok::<Mapping<A>, E>(found),
            );
            let answer = Ok::<Mapping<B>, E>(copied);
            &&& decision(between, offset, size, writable, false, answer) is Ok
            &&& held_after(between, offset, size, writable, false, answer) == between
        }),
{
}

/// The bytes of a buffer once `window` has been put at `offset`.
pub open spec fn with_window(buffer: Seq<u8>, offset: int, window: Seq<u8>) -> Seq<u8> {
    Seq::new(
        buffer.len(),
        |i: int|
            if offset <= i < offset + window.len() {
                window[i - offset]
            } else {
                buffer[i]
            },
    )
}

/// A read gives back what a write left: the written bytes where the two ranges meet, and the
/// bytes from before everywhere else.
///
/// `count` bytes of `written` are written at `offset`, then `read` bytes from `from` on are read
/// into `target`.
pub proof fn law_read_gives_back_what_was_written(
    buffer: Seq<u8>,
    offset: int,
    count: int,
    written: Seq<u8>,
    from: int,
    read: int,
    target: Seq<u8>,
)
    requires
        0 <= offset,
        0 <= count <= written.len(),
        offset + count <= buffer.len(),
        0 <= from,
        0 <= read <= target.len(),
        from + read <= buffer.len(),
    ensures
        ({
            let window = copied(buffer.subrange(offset, offset + count), written, count);
            let after = with_window(buffer, offset, window);
            let result = copied(target, after.subrange(from, from + read), read);
            &&& result.len() == target.len()
            &&& forall|k: int|
                0 <= k < read ==> #[trigger] result[k] == if offset <= from + k < offset + count {
                    written[from + k - offset]
                } else {
                    buffer[from + k]
                }
            &&& forall|k: int| read <= k < target.len() ==> #[trigger] result[k] == target[k]
        }),
{
}

} // verus!
