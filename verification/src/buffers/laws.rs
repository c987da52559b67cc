//! What access to mapped buffers amounts to, byte by byte and call by call.

use std::sync::Arc;

use vstd::prelude::*;

use wgpu_core::resource::{Buffer, BufferAccessError};

use super::{
    access, access_mapped, copy_status, find_copy, find_mapped, find_range, get_mapped_range,
    requested_size, wgpuBufferGetConstMappedRange, wgpuBufferGetMapState,
    wgpuBufferGetMappedRange, wgpuBufferReadMappedRange, wgpuBufferWriteMappedRange, AccessError,
    BufferMapStatus, Held, MapError, MapState, MappedRange, MappedRanges, Mapping, Request,
};
use crate::native::{WGPUBufferMapState, WGPUStatus};

verus! {

/// A range of generation `generation` is held that contains the byte at offset `byte`, for writing
/// or for reading.
pub open spec fn holds(held: Held, generation: u64, writable: bool, byte: int) -> bool {
    &&& held.generation == generation
    &&& exists|i: int|
        0 <= i < held.ranges.len() && (#[trigger] held.ranges[i]).writable == writable
            && held.ranges[i].start <= byte < held.ranges[i].end
}

/// One of the `count` bytes from `offset` on is held, and it or the range may be written.
pub open spec fn taken(
    held: Held,
    generation: u64,
    offset: int,
    count: int,
    writable: bool,
) -> bool {
    exists|how: bool, byte: int| #[trigger]
        holds(held, generation, how, byte) && (how || writable) && offset <= byte < offset + count
}

/// `count` bytes from `offset` on were asked for where `before` was held, and `after` is held now.
///
/// They are granted unless they are taken. Where the caller goes on holding them, they are held as
/// well from then on, and nothing else changes.
pub open spec fn settled(
    before: Held,
    after: Held,
    generation: u64,
    offset: int,
    count: int,
    writable: bool,
    retain: bool,
    granted: bool,
) -> bool {
    &&& granted == !taken(before, generation, offset, count, writable)
    &&& after.generation == generation
    &&& forall|how: bool, byte: int| #[trigger]
        holds(after, generation, how, byte) <==> holds(before, generation, how, byte) || granted
            && retain && how == writable && offset <= byte < offset + count
}

/// Two ranges conflict if one of them may be written and neither ends before the other starts.
proof fn lemma_conflicting(a: MappedRange, b: MappedRange)
    ensures
        a.conflicting(b) <==> (a.writable || b.writable) && a.start < a.end && b.start < b.end
            && a.start < b.end && b.start < a.end,
{
    if (a.writable || b.writable) && a.start < a.end && b.start < b.end && a.start < b.end
        && b.start < a.end {
        let byte = if a.start <= b.start {
            b.start as int
        } else {
            a.start as int
        };
        assert(a.covers(byte) && b.covers(byte));
    }
    if a.conflicting(b) {
        let byte = choose|byte: int| #[trigger] a.covers(byte) && b.covers(byte);
        assert(a.start <= byte < a.end && b.start <= byte < b.end);
    }
}

/// A found range is refused exactly if one of its bytes is held in a way that excludes it. Asking
/// for it adds its bytes, and no others, to those that are held.
proof fn lemma_found_range<D, E>(
    held: Held,
    offset: usize,
    size: usize,
    writable: bool,
    retain: bool,
    mapping: Mapping<D>,
)
    requires
        size != usize::MAX || retain,
        offset + mapping.count <= u64::MAX,
    ensures
        ({
            let answer = Ok::<Mapping<D>, E>(mapping);
            let decided = super::decision(held, offset, size, writable, retain, answer);
            &&& decided is Ok || decided == Err::<(), AccessError<E>>(AccessError::Overlap)
            &&& settled(
                held,
                super::held_after(held, offset, size, writable, retain, answer),
                mapping.generation,
                offset as int,
                mapping.count as int,
                writable,
                retain,
                decided is Ok,
            )
        }),
{
    let answer = Ok::<Mapping<D>, E>(mapping);
    let generation = mapping.generation;
    let range = mapping.range(offset, writable);
    let current = held.in_generation(generation);
    let after = super::held_after(held, offset, size, writable, retain, answer);
    let decided = super::decision(held, offset, size, writable, retain, answer);
    let refused = taken(
        held,
        mapping.generation,
        offset as int,
        mapping.count as int,
        writable,
    );
    assert(range.start == offset && range.end == offset + mapping.count);
    if current.excludes(range) {
        let i = choose|i: int|
            0 <= i < current.ranges.len() && range.conflicting(#[trigger] current.ranges[i]);
        let prior = held.ranges[i];
        lemma_conflicting(range, prior);
        let byte = if range.start <= prior.start {
            prior.start as int
        } else {
            range.start as int
        };
        assert(holds(held, generation, prior.writable, byte));
    }
    if refused {
        let (how, byte) = choose|how: bool, byte: int| #[trigger]
            holds(held, mapping.generation, how, byte) && (how || writable) && offset as int
                <= byte < offset as int + mapping.count as int;
        let i = choose|i: int|
            0 <= i < held.ranges.len() && (#[trigger] held.ranges[i]).writable == how
                && held.ranges[i].start <= byte < held.ranges[i].end;
        lemma_conflicting(range, held.ranges[i]);
        assert(range.conflicting(current.ranges[i]));
    }
    assert forall|how: bool, byte: int| #[trigger]
        holds(after, generation, how, byte) <==> holds(held, generation, how, byte) || !refused
            && retain && how == writable && offset <= byte < offset + mapping.count by {
        if holds(after, generation, how, byte) {
            let i = choose|i: int|
                0 <= i < after.ranges.len() && (#[trigger] after.ranges[i]).writable == how
                    && after.ranges[i].start <= byte < after.ranges[i].end;
            if i < current.ranges.len() {
                assert(current.ranges[i] == after.ranges[i]);
                assert(held.ranges[i] == after.ranges[i]);
            } else {
                assert(after.ranges[i] == range);
            }
        }
        if holds(held, generation, how, byte) {
            let i = choose|i: int|
                0 <= i < held.ranges.len() && (#[trigger] held.ranges[i]).writable == how
                    && held.ranges[i].start <= byte < held.ranges[i].end;
            assert(after.ranges[i] == held.ranges[i]);
        }
        if !refused && retain && how == writable && offset <= byte < offset + mapping.count {
            if current.includes(range) {
                let i = choose|i: int|
                    0 <= i < current.ranges.len() && (#[trigger] current.ranges[i]).subsumes(range);
                assert(after.ranges[i].writable == how);
            } else {
                assert(after.ranges[current.ranges.len() as int] == range);
            }
        }
    }
}

/// What [`access_mapped`] returns, and what is held after it.
pub proof fn law_access_mapped<D, R, E, F: FnOnce(D, usize) -> R>(
    before: MappedRanges,
    offset: usize,
    size: usize,
    writable: bool,
    retain: bool,
    mapped: Result<Mapping<D>, E>,
    operation: F,
    result: Result<R, AccessError<E>>,
    after: MappedRanges,
)
    requires
        exists|borrowed: &mut MappedRanges| #[trigger]
            access_mapped.ensures(
                (borrowed, offset, size, writable, retain, mapped, operation),
                result,
            ) && *borrowed == before && *final(borrowed) == after,
        mapped matches Ok(mapping) ==> offset + mapping.count <= u64::MAX,
    ensures
        size == usize::MAX && !retain ==> {
            &&& result == Err::<R, AccessError<E>>(AccessError::WholeMapSize)
            &&& after@ == before@
        },
        size != usize::MAX || retain ==> match mapped {
            Err(error) => {
                &&& result == Err::<R, AccessError<E>>(AccessError::Invalid(error))
                &&& after@ == before@
            },
            Ok(mapping) => {
                &&& settled(
                    before@,
                    after@,
                    mapping.generation,
                    offset as int,
                    mapping.count as int,
                    writable,
                    retain,
                    result is Ok,
                )
                &&& match result {
                    Ok(value) => operation.ensures((mapping.data, mapping.count as usize), value),
                    Err(error) => error == AccessError::<E>::Overlap,
                }
            },
        },
{
    if let Ok(mapping) = mapped {
        if size != usize::MAX || retain {
            lemma_found_range::<D, E>(before@, offset, size, writable, retain, mapping);
        }
    }
}

/// What a buffer returned is what the call of the buffer returned for the same arguments.
proof fn law_returned_by_the_call(
    buffer: &Arc<Buffer>,
    offset: u64,
    size: Option<u64>,
    range: Result<(usize, u64), BufferAccessError>,
)
    ensures
        super::returned(buffer, offset, size, range) <==> get_mapped_range.ensures(
            (buffer, offset, size),
            range,
        ),
{
}

/// What a buffer is asked for when [`find_range`] asks it, and what becomes of its answer.
pub proof fn law_find_range(
    buffer: &Arc<Buffer>,
    generation: u64,
    offset: usize,
    request: Option<u64>,
    mapped: Result<Mapping<usize>, BufferAccessError>,
)
    requires
        find_range.ensures((buffer, generation, offset, request), mapped),
    ensures
        super::returned(
            buffer,
            offset as u64,
            request,
            match mapped {
                Ok(mapping) => Ok((mapping.data, mapping.count)),
                Err(error) => Err(error),
            },
        ),
        mapped matches Ok(mapping) ==> {
            &&& mapping.generation == generation
            &&& offset + mapping.count <= u64::MAX
            &&& offset as int % 8 == 0
            &&& mapping.count as int % 4 == 0
            &&& request matches Some(asked) ==> mapping.count == asked
        },
{
}

/// What a buffer is asked for when [`find_mapped`] asks it, and what becomes of its answer.
pub proof fn law_find_mapped(
    buffer: &Arc<Buffer>,
    state: &MapState,
    offset: usize,
    request: Option<u64>,
    writable: bool,
    mapped: Result<Mapping<usize>, MapError>,
)
    requires
        find_mapped.ensures((buffer, state, offset, request, writable), mapped),
    ensures
        mapped == Err::<Mapping<usize>, MapError>(MapError::NotWritable) <==> writable
            && state.status is Mapped && !state.writable,
        mapped matches Ok(mapping) ==> {
            &&& super::returned(buffer, offset as u64, request, Ok((mapping.data, mapping.count)))
            &&& mapping.generation == state.generation
            &&& offset + mapping.count <= u64::MAX
            &&& request matches Some(asked) ==> mapping.count == asked
        },
        mapped matches Err(MapError::Access(error)) ==> super::returned(
            buffer,
            offset as u64,
            request,
            Err(error),
        ),
{
}

/// A buffer whose mapping is `state` returned `range`, `before` was held before, and `after` is
/// held now that the caller has got `verdict`.
pub open spec fn dealt_with(
    before: Held,
    after: Held,
    state: MapState,
    offset: usize,
    writable: bool,
    retain: bool,
    range: Result<(usize, u64), BufferAccessError>,
    verdict: Result<(), AccessError<MapError>>,
) -> bool {
    match range {
        Err(error) => {
            &&& verdict == Err::<(), AccessError<MapError>>(
                AccessError::Invalid(MapError::Access(error)),
            )
            &&& after == before
        },
        Ok((_, count)) => {
            &&& verdict is Ok || verdict == Err::<(), AccessError<MapError>>(AccessError::Overlap)
            &&& settled(
                before,
                after,
                state.generation,
                offset as int,
                count as int,
                writable,
                retain,
                verdict is Ok,
            )
        },
    }
}

/// What the buffer is asked for: everything from the offset on if the size is the largest there
/// is, and that many bytes otherwise.
pub open spec fn asks_for(size: usize, asked: Option<u64>) -> bool {
    match asked {
        None => size == usize::MAX,
        Some(count) => size != usize::MAX && count == size,
    }
}

/// A range that is to be written is refused where the mapping is one for reading.
pub open spec fn not_writable(state: MapState, writable: bool) -> bool {
    writable && state.status is Mapped && !state.writable
}

/// The answer of the buffer settles what the caller gets and what is held.
proof fn lemma_replied(
    buffer: &Arc<Buffer>,
    state: MapState,
    before: Held,
    offset: usize,
    size: usize,
    writable: bool,
    retain: bool,
    mapped: Result<Mapping<usize>, MapError>,
    asked: Option<u64>,
) -> (range: Result<(usize, u64), BufferAccessError>)
    requires
        size != usize::MAX || retain,
        asks_for(size, asked),
        super::replied(buffer, state, mapped, offset, super::request(size), writable),
    ensures
        ({
            let verdict = super::decision(before, offset, size, writable, retain, mapped);
            let after = super::held_after(before, offset, size, writable, retain, mapped);
            if not_writable(state, writable) {
                &&& verdict == Err::<(), AccessError<MapError>>(
                    AccessError::Invalid(MapError::NotWritable),
                )
                &&& after == before
            } else {
                &&& super::returned(buffer, offset as u64, asked, range)
                &&& dealt_with(before, after, state, offset, writable, retain, range, verdict)
                &&& mapped matches Ok(mapping) ==> {
                    &&& range == Ok::<(usize, u64), BufferAccessError>(
                        (mapping.data, mapping.count),
                    )
                    &&& mapping.generation == state.generation
                    &&& size != usize::MAX ==> mapping.count == size
                }
                &&& mapped is Err ==> range is Err
            }
        }),
{
    match mapped {
        Ok(mapping) => {
            lemma_found_range::<usize, MapError>(
                before,
                offset,
                size,
                writable,
                retain,
                mapping,
            );
            Ok((mapping.data, mapping.count))
        },
        Err(MapError::Access(error)) => Err(error),
        Err(MapError::NotWritable) => Ok((0, 0)),
    }
}

/// What [`access`] returns, and what is held after it.
pub proof fn law_access<R, F: FnOnce(usize, usize) -> R>(
    buffer: &Arc<Buffer>,
    state: &MapState,
    before: MappedRanges,
    offset: usize,
    size: usize,
    writable: bool,
    retain: bool,
    operation: F,
    result: Result<R, AccessError<MapError>>,
    after: MappedRanges,
    asked: Option<u64>,
)
    requires
        exists|borrowed: &mut MappedRanges| #[trigger]
            access.ensures(
                (buffer, state, borrowed, offset, size, writable, retain, operation),
                result,
            ) && *borrowed == before && *final(borrowed) == after,
        asks_for(size, asked),
    ensures
        size == usize::MAX && !retain ==> {
            &&& result == Err::<R, AccessError<MapError>>(AccessError::WholeMapSize)
            &&& after@ == before@
        },
        (size != usize::MAX || retain) && not_writable(*state, writable) ==> {
            &&& result == Err::<R, AccessError<MapError>>(
                AccessError::Invalid(MapError::NotWritable),
            )
            &&& after@ == before@
        },
        (size != usize::MAX || retain) && !not_writable(*state, writable) ==> exists|
            range: Result<(usize, u64), BufferAccessError>,
        | #[trigger]
            super::returned(buffer, offset as u64, asked, range) && {
                &&& dealt_with(
                    before@,
                    after@,
                    *state,
                    offset,
                    writable,
                    retain,
                    range,
                    match result {
                        Ok(_) => Ok(()),
                        Err(error) => Err(error),
                    },
                )
                &&& result matches Ok(value) ==> operation.ensures(
                    (range->Ok_0.0, range->Ok_0.1 as usize),
                    value,
                )
            },
{
    if size != usize::MAX || retain {
        let mapped = choose|mapped: Result<Mapping<usize>, MapError>| #[trigger]
            super::replied(buffer, *state, mapped, offset, super::request(size), writable) && {
                &&& after@ == super::held_after(before@, offset, size, writable, retain, mapped)
                &&& match super::decision(before@, offset, size, writable, retain, mapped) {
                    Ok(()) => {
                        &&& result is Ok
                        &&& operation.ensures(
                            (mapped->Ok_0.data, mapped->Ok_0.count as usize),
                            result->Ok_0,
                        )
                    },
                    Err(error) => result == Err::<R, AccessError<MapError>>(error),
                }
            };
        let range = lemma_replied(
            buffer,
            *state,
            before@,
            offset,
            size,
            writable,
            retain,
            mapped,
            asked,
        );
    }
}

/// What [`wgpuBufferGetConstMappedRange`] returns, and what is held after it.
pub proof fn law_get_const_mapped_range(
    buffer: &Arc<Buffer>,
    state: &MapState,
    before: MappedRanges,
    offset: usize,
    size: usize,
    result: Result<usize, AccessError<MapError>>,
    after: MappedRanges,
    asked: Option<u64>,
)
    requires
        exists|borrowed: &mut MappedRanges| #[trigger]
            wgpuBufferGetConstMappedRange.ensures((buffer, state, borrowed, offset, size), result)
                && *borrowed == before && *final(borrowed) == after,
        asks_for(size, asked),
    ensures
        exists|range: Result<(usize, u64), BufferAccessError>| #[trigger]
            super::returned(buffer, offset as u64, asked, range) && {
                &&& dealt_with(
                    before@,
                    after@,
                    *state,
                    offset,
                    false,
                    true,
                    range,
                    match result {
                        Ok(_) => Ok(()),
                        Err(error) => Err(error),
                    },
                )
                &&& result matches Ok(address) ==> address == range->Ok_0.0
            },
{
    let mapped = choose|mapped: Result<Mapping<usize>, MapError>| #[trigger]
        super::replied(buffer, *state, mapped, offset, super::request(size), false) && {
            &&& after@ == super::held_after(before@, offset, size, false, true, mapped)
            &&& result == match super::decision(before@, offset, size, false, true, mapped) {
                Ok(()) => Ok(mapped->Ok_0.data),
                Err(error) => Err(error),
            }
        };
    let range = lemma_replied(
        buffer,
        *state,
        before@,
        offset,
        size,
        false,
        true,
        mapped,
        asked,
    );
}

/// What [`wgpuBufferGetMappedRange`] returns, and what is held after it.
pub proof fn law_get_mapped_range(
    buffer: &Arc<Buffer>,
    state: &MapState,
    before: MappedRanges,
    offset: usize,
    size: usize,
    result: Result<usize, AccessError<MapError>>,
    after: MappedRanges,
    asked: Option<u64>,
)
    requires
        exists|borrowed: &mut MappedRanges| #[trigger]
            wgpuBufferGetMappedRange.ensures((buffer, state, borrowed, offset, size), result)
                && *borrowed == before && *final(borrowed) == after,
        asks_for(size, asked),
    ensures
        state.status is Mapped && !state.writable ==> {
            &&& result == Err::<usize, AccessError<MapError>>(
                AccessError::Invalid(MapError::NotWritable),
            )
            &&& after@ == before@
        },
        !(state.status is Mapped && !state.writable) ==> exists|range: Result<(usize, u64), BufferAccessError>| #[trigger]
            super::returned(buffer, offset as u64, asked, range) && {
                &&& dealt_with(
                    before@,
                    after@,
                    *state,
                    offset,
                    true,
                    true,
                    range,
                    match result {
                        Ok(_) => Ok(()),
                        Err(error) => Err(error),
                    },
                )
                &&& result matches Ok(address) ==> address == range->Ok_0.0
            },
{
    let mapped = choose|mapped: Result<Mapping<usize>, MapError>| #[trigger]
        super::replied(buffer, *state, mapped, offset, super::request(size), true) && {
            &&& after@ == super::held_after(before@, offset, size, true, true, mapped)
            &&& result == match super::decision(before@, offset, size, true, true, mapped) {
                Ok(()) => Ok(mapped->Ok_0.data),
                Err(error) => Err(error),
            }
        };
    let range = lemma_replied(
        buffer,
        *state,
        before@,
        offset,
        size,
        true,
        true,
        mapped,
        asked,
    );
}

/// What [`find_copy`] returns, and what is held after it.
pub proof fn law_find_copy(
    buffer: &Arc<Buffer>,
    state: &MapState,
    before: MappedRanges,
    offset: usize,
    size: usize,
    writable: bool,
    found: Result<Mapping<usize>, AccessError<MapError>>,
    after: MappedRanges,
)
    requires
        exists|borrowed: &mut MappedRanges| #[trigger]
            find_copy.ensures((buffer, state, borrowed, offset, size, writable), found)
                && *borrowed == before && *final(borrowed) == after,
    ensures
        size == usize::MAX ==> {
            &&& found == Err::<Mapping<usize>, AccessError<MapError>>(AccessError::WholeMapSize)
            &&& after@ == before@
        },
        size != usize::MAX && not_writable(*state, writable) ==> {
            &&& found == Err::<Mapping<usize>, AccessError<MapError>>(
                AccessError::Invalid(MapError::NotWritable),
            )
            &&& after@ == before@
        },
        size != usize::MAX && !not_writable(*state, writable) ==> exists|
            range: Result<(usize, u64), BufferAccessError>,
        | #[trigger]
            super::returned(buffer, offset as u64, Some(size as u64), range) && {
                &&& dealt_with(
                    before@,
                    after@,
                    *state,
                    offset,
                    writable,
                    false,
                    range,
                    match found {
                        Ok(_) => Ok(()),
                        Err(error) => Err(error),
                    },
                )
                &&& found matches Ok(mapping) ==> {
                    &&& mapping.data == range->Ok_0.0
                    &&& mapping.count == size
                    &&& mapping.count == range->Ok_0.1
                    &&& mapping.generation == state.generation
                }
            },
{
    if size != usize::MAX {
        let mapped = choose|mapped: Result<Mapping<usize>, MapError>| #[trigger]
            super::replied(buffer, *state, mapped, offset, super::request(size), writable) && {
                &&& after@ == super::held_after(before@, offset, size, writable, false, mapped)
                &&& found == match super::decision(
                    before@,
                    offset,
                    size,
                    writable,
                    false,
                    mapped,
                ) {
                    Ok(()) => Ok(mapped->Ok_0),
                    Err(error) => Err(error),
                }
            };
        let range = lemma_replied(
            buffer,
            *state,
            before@,
            offset,
            size,
            writable,
            false,
            mapped,
            Some(size as u64),
        );
    }
}

/// What [`wgpuBufferReadMappedRange`] returns, and what it leaves in the caller's memory.
///
/// `old_bytes` are in the memory before the call and `new_bytes` after it.
pub proof fn law_read_mapped_range<'a, E>(
    before: MappedRanges,
    offset: usize,
    old_bytes: Seq<u8>,
    size: usize,
    mapped: Result<Mapping<&'a [u8]>, E>,
    result: Result<(), AccessError<E>>,
    after: MappedRanges,
    new_bytes: Seq<u8>,
)
    requires
        exists|borrowed: &mut MappedRanges, target: &mut [u8]| #[trigger]
            wgpuBufferReadMappedRange.ensures((borrowed, offset, Some(target), size, mapped), result)
                && *borrowed == before && *final(borrowed) == after && target@ == old_bytes
                && final(target)@ == new_bytes,
        mapped matches Ok(mapping) ==> {
            &&& offset + mapping.count <= u64::MAX
            &&& mapping.count == mapping.data@.len()
            &&& mapping.count <= old_bytes.len()
        },
    ensures
        new_bytes.len() == old_bytes.len(),
        forall|k: int|
            0 <= k < old_bytes.len() ==> #[trigger] new_bytes[k] == if result is Ok && k
                < mapped->Ok_0.count {
                mapped->Ok_0.data@[k]
            } else {
                old_bytes[k]
            },
        size == usize::MAX ==> {
            &&& result == Err::<(), AccessError<E>>(AccessError::WholeMapSize)
            &&& after@ == before@
        },
        size != usize::MAX ==> match mapped {
            Err(error) => {
                &&& result == Err::<(), AccessError<E>>(AccessError::Invalid(error))
                &&& after@ == before@
            },
            Ok(mapping) => {
                &&& result is Ok || result == Err::<(), AccessError<E>>(AccessError::Overlap)
                &&& settled(
                    before@,
                    after@,
                    mapping.generation,
                    offset as int,
                    mapping.count as int,
                    false,
                    false,
                    result is Ok,
                )
            },
        },
{
    if let Ok(mapping) = mapped {
        if size != usize::MAX {
            lemma_found_range::<&'a [u8], E>(before@, offset, size, false, false, mapping);
        }
    }
}

/// What [`wgpuBufferReadMappedRange`] returns if the caller's memory is null.
pub proof fn law_read_to_null<'a, E>(
    before: MappedRanges,
    offset: usize,
    size: usize,
    mapped: Result<Mapping<&'a [u8]>, E>,
    result: Result<(), AccessError<E>>,
    after: MappedRanges,
)
    requires
        exists|borrowed: &mut MappedRanges| #[trigger]
            wgpuBufferReadMappedRange.ensures(
                (borrowed, offset, None::<&mut [u8]>, size, mapped),
                result,
            ) && *borrowed == before && *final(borrowed) == after,
        mapped matches Ok(mapping) ==> offset + mapping.count <= u64::MAX,
    ensures
        size != 0 ==> {
            &&& result == Err::<(), AccessError<E>>(AccessError::NullData)
            &&& after@ == before@
        },
        size == 0 ==> match mapped {
            Err(error) => {
                &&& result == Err::<(), AccessError<E>>(AccessError::Invalid(error))
                &&& after@ == before@
            },
            Ok(mapping) => {
                &&& result is Ok || result == Err::<(), AccessError<E>>(AccessError::Overlap)
                &&& settled(
                    before@,
                    after@,
                    mapping.generation,
                    offset as int,
                    mapping.count as int,
                    false,
                    false,
                    result is Ok,
                )
            },
        },
{
    if let Ok(mapping) = mapped {
        if size == 0 {
            lemma_found_range::<&'a [u8], E>(before@, offset, size, false, false, mapping);
        }
    }
}

/// What [`wgpuBufferWriteMappedRange`] returns, and what it leaves in a range that was found.
///
/// `old_bytes` are in the range before the call and `new_bytes` after it.
pub proof fn law_write_mapped_range<E>(
    before: MappedRanges,
    offset: usize,
    data: Option<&[u8]>,
    size: usize,
    count: u64,
    generation: u64,
    old_bytes: Seq<u8>,
    result: Result<(), AccessError<E>>,
    after: MappedRanges,
    new_bytes: Seq<u8>,
)
    requires
        exists|borrowed: &mut MappedRanges, window: &mut [u8]| #[trigger]
            wgpuBufferWriteMappedRange.ensures(
                (
                    borrowed,
                    offset,
                    data,
                    size,
                    Ok::<Mapping<&mut [u8]>, E>(Mapping { data: window, count, generation }),
                ),
                result,
            ) && *borrowed == before && *final(borrowed) == after && window@ == old_bytes
                && final(window)@ == new_bytes,
        offset + count <= u64::MAX,
        count == old_bytes.len(),
        data matches Some(source) ==> count <= source@.len(),
    ensures
        new_bytes.len() == old_bytes.len(),
        forall|k: int|
            0 <= k < old_bytes.len() ==> #[trigger] new_bytes[k] == if result is Ok && data is Some {
                data->0@[k]
            } else {
                old_bytes[k]
            },
        data is None && size != 0 ==> {
            &&& result == Err::<(), AccessError<E>>(AccessError::NullData)
            &&& after@ == before@
        },
        data is Some && size == usize::MAX ==> {
            &&& result == Err::<(), AccessError<E>>(AccessError::WholeMapSize)
            &&& after@ == before@
        },
        size == 0 || data is Some && size != usize::MAX ==> {
            &&& result is Ok || result == Err::<(), AccessError<E>>(AccessError::Overlap)
            &&& settled(
                before@,
                after@,
                generation,
                offset as int,
                count as int,
                true,
                false,
                result is Ok,
            )
        },
{
    let mapping = Mapping { data: (), count, generation };
    if size != usize::MAX {
        lemma_found_range::<(), E>(before@, offset, size, true, false, mapping);
    }
}

/// What [`wgpuBufferWriteMappedRange`] returns if no range was found.
pub proof fn law_write_to_no_range<E>(
    before: MappedRanges,
    offset: usize,
    data: Option<&[u8]>,
    size: usize,
    error: E,
    result: Result<(), AccessError<E>>,
    after: MappedRanges,
)
    requires
        exists|borrowed: &mut MappedRanges| #[trigger]
            wgpuBufferWriteMappedRange.ensures(
                (borrowed, offset, data, size, Err::<Mapping<&mut [u8]>, E>(error)),
                result,
            ) && *borrowed == before && *final(borrowed) == after,
    ensures
        after@ == before@,
        result == Err::<(), AccessError<E>>(
            if data is None && size != 0 {
                AccessError::NullData
            } else if size == usize::MAX {
                AccessError::WholeMapSize
            } else {
                AccessError::Invalid(error)
            },
        ),
{
}

/// A copy that did its work is a success, and any other is an error.
pub proof fn law_copy_status<E>(result: &Result<(), AccessError<E>>, status: WGPUStatus)
    requires
        copy_status.ensures((result,), status),
    ensures
        status == 1 <==> *result is Ok,
        status == 2 <==> *result is Err,
{
}

/// The numbers of the map states. A buffer that cannot tell counts as unmapped.
pub proof fn law_map_state_numbers<E>(
    status: Result<BufferMapStatus, E>,
    state: WGPUBufferMapState,
)
    requires
        wgpuBufferGetMapState.ensures((status,), state),
    ensures
        state == 3 <==> status is Ok && status->Ok_0 is Mapped,
        state == 2 <==> status is Ok && status->Ok_0 is Pending,
        state == 1 <==> status is Err || status->Ok_0 is Unmapped,
{
}

/// Only a range that the caller goes on holding may leave its size open.
pub proof fn law_requested_size<E>(
    size: usize,
    retain: bool,
    request: Result<Option<u64>, AccessError<E>>,
)
    requires
        requested_size.ensures((size, retain), request),
    ensures
        request is Err <==> size == usize::MAX && !retain,
        request matches Err(error) ==> error == AccessError::<E>::WholeMapSize,
        request matches Ok(asked) ==> asks_for(size, asked),
{
}

/// Two ranges conflict exactly if they share a byte and one of them may be written.
pub proof fn law_conflicts(a: MappedRange, b: MappedRange, conflict: bool)
    requires
        MappedRange::conflicts.ensures((&a, &b), conflict),
    ensures
        conflict <==> (a.writable || b.writable) && a.start < a.end && b.start < b.end && a.start
            < b.end && b.start < a.end,
{
    lemma_conflicting(a, b);
}

/// A buffer of which nothing was handed out holds no byte.
pub proof fn law_nothing_is_held_at_first(ranges: MappedRanges)
    requires
        <MappedRanges as Default>::default.ensures((), ranges),
    ensures
        forall|generation: u64, how: bool, byte: int| !#[trigger]
            holds(ranges@, generation, how, byte),
{
}

/// How the state of a mapping comes about and changes.
pub proof fn law_map_state_follows_the_buffer(
    mapped_at_creation: bool,
    created: MapState,
    writable: bool,
)
    requires
        MapState::new.ensures((mapped_at_creation,), created),
    ensures
        created.status is Mapped <==> mapped_at_creation,
        created.status is Unmapped <==> !mapped_at_creation,
        created.writable == mapped_at_creation,
        created.generation == if mapped_at_creation {
            1int
        } else {
            0int
        },
        forall|state: &mut MapState| #[trigger]
            MapState::map_requested.ensures((state, writable), ()) ==> {
                &&& final(state).status is Pending
                &&& final(state).writable == writable
                &&& final(state).generation == state.generation
            },
        forall|state: &mut MapState| #[trigger]
            MapState::map_completed.ensures((state,), ()) && state.generation < u64::MAX ==> {
                &&& final(state).status is Mapped
                &&& final(state).writable == state.writable
                &&& final(state).generation == state.generation + 1
            },
        forall|state: &mut MapState| #[trigger]
            MapState::unmapped.ensures((state,), ()) ==> {
                &&& final(state).status is Unmapped
                &&& final(state).writable == state.writable
                &&& final(state).generation == state.generation
            },
        forall|state: &MapState, read_only: bool| #[trigger]
            MapState::is_read_only.ensures((state,), read_only) ==> read_only
                == not_writable(*state, true),
{
}

/// The range of the request at `i` was handed out and is still held when the request at `j` comes:
/// no range of another mapping was found in between.
pub open spec fn outstanding<D, R, E>(
    requests: Seq<Request<D, E>>,
    results: Seq<Result<R, AccessError<E>>>,
    i: int,
    j: int,
    generation: u64,
) -> bool {
    &&& results[i] is Ok
    &&& requests[i].retain
    &&& requests[i].mapped is Ok
    &&& requests[i].mapped->Ok_0.generation == generation
    &&& forall|k: int|
        i < k < j && (#[trigger] requests[k]).mapped is Ok && (requests[k].size != usize::MAX
            || requests[k].retain) ==> requests[k].mapped->Ok_0.generation == generation
}

/// In any run of accesses, one that asks for a range that the buffer finds is refused exactly if
/// an earlier one was handed a range of the same mapping, the two ranges share a byte, and one of
/// them may be written.
pub proof fn law_refused_exactly_for_an_outstanding_range<D, R, E, F: FnOnce(D, usize) -> R>(
    states: Seq<MappedRanges>,
    requests: Seq<Request<D, E>>,
    operations: Seq<F>,
    results: Seq<Result<R, AccessError<E>>>,
    j: int,
)
    requires
        <MappedRanges as Default>::default.ensures((), states[0]),
        forall|k: int|
            0 <= k < requests.len() ==> exists|borrowed: &mut MappedRanges| #[trigger]
                access_mapped.ensures(
                    (
                        borrowed,
                        (#[trigger] requests[k]).offset,
                        requests[k].size,
                        requests[k].writable,
                        requests[k].retain,
                        requests[k].mapped,
                        operations[k],
                    ),
                    results[k],
                ) && *borrowed == states[k] && *final(borrowed) == states[k + 1],
        forall|k: int|
            0 <= k < requests.len() ==> ((#[trigger] requests[k]).mapped matches Ok(mapping)
                ==> requests[k].offset + mapping.count <= u64::MAX),
        0 <= j < requests.len(),
        requests[j].mapped is Ok,
        requests[j].size != usize::MAX || requests[j].retain,
    ensures
        results[j] is Ok || results[j] == Err::<R, AccessError<E>>(AccessError::Overlap),
        results[j] is Err <==> exists|i: int|
            0 <= i < j && #[trigger] outstanding(
                requests,
                results,
                i,
                j,
                requests[j].mapped->Ok_0.generation,
            ) && (requests[i].writable || requests[j].writable) && 0
                < requests[i].mapped->Ok_0.count && 0 < requests[j].mapped->Ok_0.count
                && requests[i].offset < requests[j].offset + requests[j].mapped->Ok_0.count
                && requests[j].offset < requests[i].offset + requests[i].mapped->Ok_0.count,
{
    let helds = Seq::new(requests.len() + 1, |k: int| states[k]@);
    assert forall|k: int| 0 <= k < requests.len() implies #[trigger] helds[k + 1]
        == super::held_after(
        helds[k],
        requests[k].offset,
        requests[k].size,
        requests[k].writable,
        requests[k].retain,
        requests[k].mapped,
    ) && (results[k] is Ok <==> requests[k].granted(helds[k])) by {
        assert(requests[k].offset == requests[k].offset);
    }
    let asked = requests[j].range();
    let generation = requests[j].mapped->Ok_0.generation;
    lemma_outstanding(helds, requests, results, j, generation, asked);
    let next = helds[j + 1];
    assert(results[j] is Ok <==> requests[j].granted(helds[j]));
    if results[j] is Err {
        let i = choose|i: int|
            0 <= i < j && #[trigger] outstanding(requests, results, i, j, generation)
                && asked.conflicting(requests[i].range());
        lemma_conflicting(asked, requests[i].range());
    }
    if exists|i: int|
        0 <= i < j && #[trigger] outstanding(requests, results, i, j, generation) && (
        requests[i].writable || requests[j].writable) && 0 < requests[i].mapped->Ok_0.count && 0
            < requests[j].mapped->Ok_0.count && requests[i].offset < requests[j].offset
            + requests[j].mapped->Ok_0.count && requests[j].offset < requests[i].offset
            + requests[i].mapped->Ok_0.count {
        let i = choose|i: int|
            0 <= i < j && #[trigger] outstanding(requests, results, i, j, generation) && (
            requests[i].writable || requests[j].writable) && 0 < requests[i].mapped->Ok_0.count
                && 0 < requests[j].mapped->Ok_0.count && requests[i].offset < requests[j].offset
                + requests[j].mapped->Ok_0.count && requests[j].offset < requests[i].offset
                + requests[i].mapped->Ok_0.count;
        lemma_conflicting(asked, requests[i].range());
    }
}

/// What is held excludes a range exactly if an outstanding range conflicts with it.
proof fn lemma_outstanding<D, R, E>(
    helds: Seq<Held>,
    requests: Seq<Request<D, E>>,
    results: Seq<Result<R, AccessError<E>>>,
    j: int,
    generation: u64,
    asked: MappedRange,
)
    requires
        helds.len() == requests.len() + 1,
        helds[0].ranges.len() == 0,
        forall|k: int|
            0 <= k < requests.len() ==> #[trigger] helds[k + 1] == super::held_after(
                helds[k],
                requests[k].offset,
                requests[k].size,
                requests[k].writable,
                requests[k].retain,
                requests[k].mapped,
            ) && (results[k] is Ok <==> requests[k].granted(helds[k])),
        0 <= j <= requests.len(),
    ensures
        helds[j].generation == generation && helds[j].excludes(asked) <==> exists|i: int|
            0 <= i < j && #[trigger] outstanding(requests, results, i, j, generation)
                && asked.conflicting(requests[i].range()),
    decreases j,
{
    if j > 0 {
        let k = j - 1;
        lemma_outstanding(helds, requests, results, k, generation, asked);
        let request = requests[k];
        let before = helds[k];
        let after = helds[k + 1];
        assert(after == super::held_after(
            before,
            request.offset,
            request.size,
            request.writable,
            request.retain,
            request.mapped,
        ));
        let enters = request.mapped is Ok && (request.size != usize::MAX || request.retain);
        let same = enters ==> request.mapped->Ok_0.generation == generation;
        assert forall|i: int| 0 <= i < k implies #[trigger] outstanding(
            requests,
            results,
            i,
            j,
            generation,
        ) == (outstanding(requests, results, i, k, generation) && same) by {
            if outstanding(requests, results, i, k, generation) && same {
                assert forall|m: int|
                    i < m < j && (#[trigger] requests[m]).mapped is Ok && (requests[m].size
                        != usize::MAX || requests[m].retain) implies requests[m].mapped->Ok_0.generation
                    == generation by {}
            }
            if outstanding(requests, results, i, j, generation) {
                assert(requests[k] == request);
            }
        }
        if enters {
            super::law_holding_adds_exactly_the_range(
                before.in_generation(request.mapped->Ok_0.generation),
                request.range(),
                asked,
            );
        }
        let own = outstanding(requests, results, k, j, generation);
        assert(own == (results[k] is Ok && request.retain && request.mapped is Ok
            && request.mapped->Ok_0.generation == generation));
        if exists|i: int|
            0 <= i < k && #[trigger] outstanding(requests, results, i, k, generation)
                && asked.conflicting(requests[i].range()) {
            let i = choose|i: int|
                0 <= i < k && #[trigger] outstanding(requests, results, i, k, generation)
                    && asked.conflicting(requests[i].range());
            assert(outstanding(requests, results, i, j, generation) == same);
        }
        if exists|i: int|
            0 <= i < j && #[trigger] outstanding(requests, results, i, j, generation)
                && asked.conflicting(requests[i].range()) {
            let i = choose|i: int|
                0 <= i < j && #[trigger] outstanding(requests, results, i, j, generation)
                    && asked.conflicting(requests[i].range());
            if i < k {
                assert(outstanding(requests, results, i, k, generation));
            }
        }
    }
}

/// A range can be asked for whatever the buffer, the state, the offset and the size are.
pub proof fn law_any_range_may_be_asked_for(
    buffer: &Arc<Buffer>,
    state: &MapState,
    generation: u64,
    offset: usize,
    size: usize,
    request: Option<u64>,
    writable: bool,
)
    ensures
        find_range.requires((buffer, generation, offset, request)),
        find_mapped.requires((buffer, state, offset, request, writable)),
        forall|borrowed: &mut MappedRanges|
            borrowed@.wf() ==> #[trigger] wgpuBufferGetConstMappedRange.requires(
                (buffer, state, borrowed, offset, size),
            ),
        forall|borrowed: &mut MappedRanges|
            borrowed@.wf() ==> #[trigger] wgpuBufferGetMappedRange.requires(
                (buffer, state, borrowed, offset, size),
            ),
        forall|borrowed: &mut MappedRanges|
            borrowed@.wf() ==> #[trigger] find_copy.requires(
                (buffer, state, borrowed, offset, size, writable),
            ),
{
}

/// Access can be asked for with any operation that can run on any range.
pub proof fn law_any_access_may_be_asked_for<D, R, E, F: FnOnce(D, usize) -> R>(
    offset: usize,
    size: usize,
    writable: bool,
    retain: bool,
    mapped: Result<Mapping<D>, E>,
    operation: F,
)
    requires
        mapped matches Ok(mapping) ==> offset + mapping.count <= u64::MAX,
        forall|data: D, count: usize| #[trigger] operation.requires((data, count)),
    ensures
        forall|borrowed: &mut MappedRanges|
            borrowed@.wf() ==> #[trigger] access_mapped.requires(
                (borrowed, offset, size, writable, retain, mapped, operation),
            ),
{
}

/// A copy can be asked for whenever the memory at both ends reaches as far as the range.
pub proof fn law_any_copy_may_be_asked_for<'a, E>(
    offset: usize,
    size: usize,
    mapped: Result<Mapping<&'a [u8]>, E>,
    data: Option<&[u8]>,
    count: u64,
    generation: u64,
)
    requires
        mapped matches Ok(mapping) ==> {
            &&& offset + mapping.count <= u64::MAX
            &&& mapping.data@.len() == mapping.count
        },
        offset + count <= u64::MAX,
        data matches Some(source) ==> count <= source@.len(),
        data is None ==> count == 0,
    ensures
        forall|borrowed: &mut MappedRanges, target: &mut [u8]|
            borrowed@.wf() && (mapped matches Ok(mapping) ==> mapping.count <= target@.len())
                ==> #[trigger] wgpuBufferReadMappedRange.requires(
                (borrowed, offset, Some(target), size, mapped),
            ),
        forall|borrowed: &mut MappedRanges, window: &mut [u8]|
            borrowed@.wf() && window@.len() == count
                ==> #[trigger] wgpuBufferWriteMappedRange.requires(
                (
                    borrowed,
                    offset,
                    data,
                    size,
                    Ok::<Mapping<&mut [u8]>, E>(Mapping { data: window, count, generation }),
                ),
            ),
{
}

/// What holds of the held ranges at first, and so may be relied on in every later call.
pub proof fn law_held_ranges_may_be_used_at_once(ranges: MappedRanges)
    requires
        <MappedRanges as Default>::default.ensures((), ranges),
    ensures
        ranges@.wf(),
{
}

/// The state of a mapping can be changed at any time, as long as there is a number for the next
/// mapping.
pub proof fn law_map_state_may_change(mapped_at_creation: bool, writable: bool)
    ensures
        MapState::new.requires((mapped_at_creation,)),
        forall|state: &mut MapState| #[trigger] MapState::map_requested.requires((state, writable)),
        forall|state: &mut MapState|
            state.generation < u64::MAX ==> #[trigger] MapState::map_completed.requires((state,)),
        forall|state: &mut MapState| #[trigger] MapState::unmapped.requires((state,)),
        forall|state: &MapState| #[trigger] MapState::is_read_only.requires((state,)),
{
}

} // verus!
