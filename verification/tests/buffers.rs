use std::sync::Arc;

use wgpu_core::device::DeviceDescriptor;
use wgpu_core::instance::Instance;
use wgpu_core::resource::{Buffer, BufferAccessError, BufferDescriptor};
use wgpu_native::buffers::{
    access, access_mapped, copy_status, find_copy, find_mapped, find_range, requested_size,
    wgpuBufferGetConstMappedRange, wgpuBufferGetMapState, wgpuBufferGetMappedRange,
    wgpuBufferReadMappedRange, wgpuBufferWriteMappedRange, AccessError, BufferMapStatus, MapError,
    MapState, MappedRange, MappedRanges, Mapping,
};
use wgpu_native::native::{
    WGPUBufferMapState_Mapped, WGPUBufferMapState_Pending, WGPUBufferMapState_Unmapped,
    WGPUStatus_Error, WGPUStatus_Success, WGPU_WHOLE_MAP_SIZE,
};

type Answer<D> = Result<Mapping<D>, &'static str>;

fn place(count: u64) -> Answer<&'static str> {
    Ok(Mapping {
        data: "place",
        count,
        generation: 1,
    })
}

fn hold(ranges: &mut MappedRanges, offset: usize, count: u64, writable: bool) -> bool {
    let size = count as usize;
    access_mapped(ranges, offset, size, writable, true, place(count), |_, _| ()).is_ok()
}

fn read(ranges: &mut MappedRanges, offset: usize, count: u64) -> bool {
    hold(ranges, offset, count, false)
}

fn write(ranges: &mut MappedRanges, offset: usize, count: u64) -> bool {
    hold(ranges, offset, count, true)
}

/// A buffer of a device that keeps its buffers in plain memory.
fn buffer(size: u64, mapped_at_creation: bool) -> Arc<Buffer> {
    let mut desc = wgpu_types::InstanceDescriptor::new_without_display_handle();
    desc.backends = wgpu_types::Backends::NOOP;
    desc.backend_options.noop.enable = true;
    let instance = Instance::new("test", desc, None);
    let mut adapters = instance.enumerate_adapters(wgpu_types::Backends::NOOP, false);
    let adapter = Arc::new(adapters.pop().expect("an adapter"));
    let (device, _queue) = adapter
        .create_device_and_queue(&DeviceDescriptor::default(), Default::default())
        .expect("a device");
    device
        .create_buffer(&BufferDescriptor {
            label: None,
            size,
            usage: wgpu_types::BufferUsages::MAP_WRITE,
            mapped_at_creation,
        })
        .expect("a buffer")
}

#[test]
fn overlap_requires_a_writable_nonempty_intersection() {
    let read = MappedRange {
        start: 8,
        end: 24,
        writable: false,
    };
    let write = MappedRange {
        start: 16,
        end: 32,
        writable: true,
    };
    let adjacent = MappedRange {
        start: 24,
        end: 32,
        writable: true,
    };
    let empty = MappedRange {
        start: 16,
        end: 16,
        writable: true,
    };
    assert!(!read.conflicts(&read));
    assert!(read.conflicts(&write));
    assert!(!read.conflicts(&adjacent));
    assert!(!read.conflicts(&empty));
}

#[test]
fn conflicts_do_not_depend_on_the_order() {
    let whole = MappedRange {
        start: 0,
        end: 64,
        writable: false,
    };
    let inner = MappedRange {
        start: 8,
        end: 9,
        writable: true,
    };
    assert!(whole.conflicts(&inner));
    assert!(inner.conflicts(&whole));
    assert!(inner.conflicts(&inner));
}

#[test]
fn only_held_ranges_may_leave_their_size_open() {
    assert!(matches!(
        requested_size::<()>(WGPU_WHOLE_MAP_SIZE, true),
        Ok(None)
    ));
    assert!(matches!(
        requested_size::<()>(WGPU_WHOLE_MAP_SIZE, false),
        Err(AccessError::WholeMapSize)
    ));
    assert!(matches!(requested_size::<()>(12, false), Ok(Some(12))));
    assert!(matches!(requested_size::<()>(0, true), Ok(Some(0))));
}

#[test]
fn access_hands_the_place_and_the_count_to_the_operation() {
    let mut ranges = MappedRanges::default();
    let result = access_mapped(&mut ranges, 8, 16, true, false, place(16), |data, count| {
        (data, count)
    });
    assert!(matches!(result, Ok(("place", 16))));
}

#[test]
fn access_tells_each_failure_apart() {
    let mut ranges = MappedRanges::default();
    let refused: Answer<&'static str> = Err("not mapped");
    let result = access_mapped(&mut ranges, 0, 16, false, true, refused, |_, _| ());
    assert!(matches!(result, Err(AccessError::Invalid("not mapped"))));
    let result = access_mapped(
        &mut ranges,
        0,
        WGPU_WHOLE_MAP_SIZE,
        false,
        false,
        place(16),
        |_, _| (),
    );
    assert!(matches!(result, Err(AccessError::WholeMapSize)));
    assert!(write(&mut ranges, 0, 16));
    let result = access_mapped(&mut ranges, 8, 16, false, true, place(16), |_, _| ());
    assert!(matches!(result, Err(AccessError::Overlap)));
}

#[test]
fn a_held_range_refuses_writers_and_a_held_writer_refuses_all() {
    let mut ranges = MappedRanges::default();
    assert!(read(&mut ranges, 0, 16));
    assert!(read(&mut ranges, 8, 16));
    assert!(!write(&mut ranges, 16, 8));
    assert!(write(&mut ranges, 24, 8));
    assert!(!read(&mut ranges, 24, 4));
    assert!(!write(&mut ranges, 24, 8));
    assert!(write(&mut ranges, 28, 0));
}

#[test]
fn the_gap_between_held_ranges_stays_free() {
    let mut ranges = MappedRanges::default();
    assert!(read(&mut ranges, 0, 8));
    assert!(read(&mut ranges, 16, 8));
    assert!(write(&mut ranges, 8, 8));
    assert!(!write(&mut ranges, 0, 8));
}

#[test]
fn a_repeated_range_goes_on_excluding() {
    let mut ranges = MappedRanges::default();
    assert!(read(&mut ranges, 0, 32));
    assert!(read(&mut ranges, 8, 8));
    assert!(read(&mut ranges, 0, 32));
    assert!(!write(&mut ranges, 8, 8));
    assert!(!write(&mut ranges, 24, 8));
    assert!(write(&mut ranges, 32, 8));
}

#[test]
fn a_new_mapping_forgets_the_ranges_of_the_old_one() {
    let mut ranges = MappedRanges::default();
    assert!(write(&mut ranges, 0, 16));
    assert!(!write(&mut ranges, 0, 16));
    let remapped: Answer<u8> = Ok(Mapping {
        data: 7,
        count: 16,
        generation: 2,
    });
    let size = WGPU_WHOLE_MAP_SIZE;
    let result = access_mapped(&mut ranges, 0, size, true, true, remapped, |data, _| data);
    assert!(matches!(result, Ok(7)));
    let again: Answer<u8> = Ok(Mapping {
        data: 7,
        count: 16,
        generation: 2,
    });
    let result = access_mapped(&mut ranges, 0, 16, false, true, again, |data, _| data);
    assert!(matches!(result, Err(AccessError::Overlap)));
}

#[test]
fn a_refused_range_changes_nothing() {
    let mut ranges = MappedRanges::default();
    assert!(write(&mut ranges, 0, 8));
    assert!(!read(&mut ranges, 0, 64));
    assert!(write(&mut ranges, 8, 8));
}

#[test]
fn a_read_gives_back_what_was_written() {
    let mut ranges = MappedRanges::default();
    let mut memory: Vec<u8> = (0..32).collect();
    let mapped: Answer<&mut [u8]> = Ok(Mapping {
        data: &mut memory[8..12],
        count: 4,
        generation: 1,
    });
    let result = wgpuBufferWriteMappedRange(&mut ranges, 8, Some(&[100, 101, 102, 103]), 4, mapped);
    assert_eq!(copy_status(&result), WGPUStatus_Success);
    assert_eq!(memory[..14], [0, 1, 2, 3, 4, 5, 6, 7, 100, 101, 102, 103, 12, 13]);

    let mut target: [u8; 9] = [9; 9];
    let mapped: Answer<&[u8]> = Ok(Mapping {
        data: &memory[4..12],
        count: 8,
        generation: 1,
    });
    let result = wgpuBufferReadMappedRange(&mut ranges, 4, Some(&mut target), 8, mapped);
    assert_eq!(copy_status(&result), WGPUStatus_Success);
    assert_eq!(target, [4, 5, 6, 7, 100, 101, 102, 103, 9]);
}

#[test]
fn copies_are_not_held() {
    let mut ranges = MappedRanges::default();
    let mut memory: [u8; 4] = [0; 4];
    for value in 1..4 {
        let mapped: Answer<&mut [u8]> = Ok(Mapping {
            data: &mut memory,
            count: 4,
            generation: 1,
        });
        let result = wgpuBufferWriteMappedRange(&mut ranges, 0, Some(&[value; 4]), 4, mapped);
        assert!(result.is_ok());
    }
    assert_eq!(memory, [3; 4]);
    assert!(write(&mut ranges, 0, 4));
}

#[test]
fn copies_respect_held_ranges() {
    let mut ranges = MappedRanges::default();
    assert!(read(&mut ranges, 0, 4));
    let mut memory: [u8; 4] = [1; 4];
    let mapped: Answer<&mut [u8]> = Ok(Mapping {
        data: &mut memory,
        count: 4,
        generation: 1,
    });
    let result = wgpuBufferWriteMappedRange(&mut ranges, 0, Some(&[2; 4]), 4, mapped);
    assert!(matches!(result, Err(AccessError::Overlap)));
    assert_eq!(copy_status(&result), WGPUStatus_Error);
    assert_eq!(memory, [1; 4]);

    let mut target: [u8; 4] = [0; 4];
    let mapped: Answer<&[u8]> = Ok(Mapping {
        data: &memory,
        count: 4,
        generation: 1,
    });
    let result = wgpuBufferReadMappedRange(&mut ranges, 0, Some(&mut target), 4, mapped);
    assert!(result.is_ok());
    assert_eq!(target, [1; 4]);
}

#[test]
fn null_is_refused_unless_there_is_nothing_to_copy() {
    let mut ranges = MappedRanges::default();
    let mut memory: [u8; 4] = [1; 4];
    let mapped: Answer<&[u8]> = Ok(Mapping {
        data: &memory,
        count: 4,
        generation: 1,
    });
    let result = wgpuBufferReadMappedRange(&mut ranges, 0, None, 4, mapped);
    assert!(matches!(result, Err(AccessError::NullData)));
    let mapped: Answer<&mut [u8]> = Ok(Mapping {
        data: &mut memory,
        count: 4,
        generation: 1,
    });
    let result = wgpuBufferWriteMappedRange(&mut ranges, 0, None, 4, mapped);
    assert!(matches!(result, Err(AccessError::NullData)));
    assert_eq!(memory, [1; 4]);

    let mapped: Answer<&[u8]> = Ok(Mapping {
        data: &[],
        count: 0,
        generation: 1,
    });
    assert!(wgpuBufferReadMappedRange(&mut ranges, 0, None, 0, mapped).is_ok());
    let mapped: Answer<&mut [u8]> = Ok(Mapping {
        data: &mut [],
        count: 0,
        generation: 1,
    });
    assert!(wgpuBufferWriteMappedRange(&mut ranges, 0, None, 0, mapped).is_ok());
}

#[test]
fn failed_copies_leave_the_target_alone() {
    let mut ranges = MappedRanges::default();
    let mut target: [u8; 2] = [5; 2];
    let refused: Answer<&[u8]> = Err("destroyed");
    let result = wgpuBufferReadMappedRange(&mut ranges, 0, Some(&mut target), 2, refused);
    assert!(matches!(result, Err(AccessError::Invalid("destroyed"))));
    assert_eq!(target, [5; 2]);
    let refused: Answer<&mut [u8]> = Err("destroyed");
    let result =
        wgpuBufferWriteMappedRange(&mut ranges, 0, Some(&[1]), WGPU_WHOLE_MAP_SIZE, refused);
    assert!(matches!(result, Err(AccessError::WholeMapSize)));
}

#[test]
fn a_buffer_that_cannot_tell_counts_as_unmapped() {
    assert_eq!(
        wgpuBufferGetMapState::<()>(Ok(BufferMapStatus::Pending)),
        WGPUBufferMapState_Pending
    );
    assert_eq!(
        wgpuBufferGetMapState::<()>(Ok(BufferMapStatus::Mapped)),
        WGPUBufferMapState_Mapped
    );
    assert_eq!(
        wgpuBufferGetMapState::<()>(Ok(BufferMapStatus::Unmapped)),
        WGPUBufferMapState_Unmapped
    );
    assert_eq!(
        wgpuBufferGetMapState(Err("destroyed")),
        WGPUBufferMapState_Unmapped
    );
}

#[test]
fn a_buffer_is_asked_for_the_range() {
    let buffer = buffer(64, true);
    let start = find_range(&buffer, 3, 0, None).expect("mapped");
    assert_eq!((start.count, start.generation), (64, 3));
    let part = find_range(&buffer, 4, 8, Some(12)).expect("mapped");
    assert_eq!((part.count, part.generation), (12, 4));
    assert_eq!(part.data, start.data + 8);
    let rest = find_range(&buffer, 4, 16, None).expect("mapped");
    assert_eq!((rest.data, rest.count), (start.data + 16, 48));
    assert!(matches!(
        find_range(&buffer, 4, 4, Some(4)),
        Err(BufferAccessError::UnalignedOffset { offset: 4 })
    ));
    assert!(matches!(
        find_range(&buffer, 4, 8, Some(2)),
        Err(BufferAccessError::UnalignedRangeSize { range_size: 2 })
    ));
    assert!(matches!(
        find_range(&buffer, 4, 56, Some(16)),
        Err(BufferAccessError::OutOfBoundsEndOffsetOverrun { .. })
    ));
}

#[test]
fn ranges_of_a_buffer_are_handed_out() {
    let buffer = buffer(64, true);
    let mut state = MapState::new(true);
    let mut ranges = MappedRanges::default();
    let whole = WGPU_WHOLE_MAP_SIZE;
    let start = wgpuBufferGetConstMappedRange(&buffer, &state, &mut ranges, 0, 16).expect("free");
    let next = wgpuBufferGetMappedRange(&buffer, &state, &mut ranges, 16, 16).expect("free");
    assert_eq!(next, start + 16);
    let again = wgpuBufferGetConstMappedRange(&buffer, &state, &mut ranges, 8, 8).expect("free");
    assert_eq!(again, start + 8);
    assert!(matches!(
        wgpuBufferGetConstMappedRange(&buffer, &state, &mut ranges, 0, whole),
        Err(AccessError::Overlap)
    ));
    assert!(matches!(
        wgpuBufferGetMappedRange(&buffer, &state, &mut ranges, 8, 8),
        Err(AccessError::Overlap)
    ));
    state.map_completed();
    let remapped = wgpuBufferGetMappedRange(&buffer, &state, &mut ranges, 0, whole).expect("free");
    assert_eq!(remapped, start);
    assert!(matches!(
        wgpuBufferGetConstMappedRange(&buffer, &state, &mut ranges, 0, 8),
        Err(AccessError::Overlap)
    ));
}

#[test]
fn an_operation_runs_on_the_range_that_the_buffer_found() {
    let buffer = buffer(64, true);
    let mut ranges = MappedRanges::default();
    let state = MapState::new(true);
    let start = find_range(&buffer, 1, 0, None).expect("mapped").data;
    let result = access(&buffer, &state, &mut ranges, 8, 24, true, false, |address, count| {
        (address, count)
    });
    assert!(matches!(result, Ok((address, 24)) if address == start + 8));
    let whole = WGPU_WHOLE_MAP_SIZE;
    let result = access(&buffer, &state, &mut ranges, 8, whole, true, true, |_, count| count);
    assert!(matches!(result, Ok(56)));
    let result = access(&buffer, &state, &mut ranges, 8, whole, false, false, |_, count| count);
    assert!(matches!(result, Err(AccessError::WholeMapSize)));
    let result = access(&buffer, &state, &mut ranges, 32, 8, false, false, |_, count| count);
    assert!(matches!(result, Err(AccessError::Overlap)));
    let result = access(&buffer, &state, &mut ranges, 3, 8, false, false, |_, count| count);
    assert!(matches!(
        result,
        Err(AccessError::Invalid(MapError::Access(
            BufferAccessError::UnalignedOffset { offset: 3 }
        )))
    ));
}

#[test]
fn a_buffer_that_is_not_mapped_hands_out_nothing() {
    let buffer = buffer(64, false);
    let state = MapState::new(false);
    let mut ranges = MappedRanges::default();
    assert!(matches!(
        wgpuBufferGetMappedRange(&buffer, &state, &mut ranges, 0, 16),
        Err(AccessError::Invalid(MapError::Access(BufferAccessError::NotMapped)))
    ));
    assert!(matches!(
        wgpuBufferGetConstMappedRange(&buffer, &state, &mut ranges, 0, 16),
        Err(AccessError::Invalid(MapError::Access(BufferAccessError::NotMapped)))
    ));
}

fn parts(state: &MapState) -> (u32, bool, u64) {
    let status = wgpuBufferGetMapState::<()>(Ok(state.status));
    (status as u32, state.writable, state.generation)
}

#[test]
fn the_state_of_a_mapping_follows_its_buffer() {
    let unmapped = WGPUBufferMapState_Unmapped as u32;
    let pending = WGPUBufferMapState_Pending as u32;
    let mapped = WGPUBufferMapState_Mapped as u32;
    let mut state = MapState::new(false);
    assert_eq!(parts(&state), (unmapped, false, 0));
    state.map_requested(true);
    assert_eq!(parts(&state), (pending, true, 0));
    state.map_completed();
    assert_eq!(parts(&state), (mapped, true, 1));
    state.unmapped();
    assert_eq!(parts(&state), (unmapped, true, 1));
    state.map_requested(false);
    assert_eq!(parts(&state), (pending, false, 1));
    assert!(!state.is_read_only());
    state.map_completed();
    assert_eq!(parts(&state), (mapped, false, 2));
    assert!(state.is_read_only());
}

#[test]
fn a_buffer_that_is_mapped_from_the_start_may_be_written() {
    let state = MapState::new(true);
    assert_eq!(parts(&state), (WGPUBufferMapState_Mapped as u32, true, 1));
    assert!(!state.is_read_only());
    let buffer = buffer(64, true);
    let mut ranges = MappedRanges::default();
    let start = find_range(&buffer, 1, 0, None).expect("mapped").data;
    let result = wgpuBufferGetMappedRange(&buffer, &state, &mut ranges, 8, 16);
    assert!(matches!(result, Ok(address) if address == start + 8));
}

#[test]
fn a_mapping_for_reading_refuses_writers() {
    let buffer = buffer(64, true);
    let mut state = MapState::new(false);
    state.map_requested(false);
    state.map_completed();
    let mut ranges = MappedRanges::default();
    assert!(matches!(
        find_mapped(&buffer, &state, 0, Some(16), true),
        Err(MapError::NotWritable)
    ));
    assert!(matches!(
        find_mapped(&buffer, &state, 0, Some(16), false),
        Ok(Mapping { count: 16, generation: 1, .. })
    ));
    assert!(matches!(
        wgpuBufferGetMappedRange(&buffer, &state, &mut ranges, 0, 16),
        Err(AccessError::Invalid(MapError::NotWritable))
    ));
    assert!(matches!(
        find_copy(&buffer, &state, &mut ranges, 0, 16, true),
        Err(AccessError::Invalid(MapError::NotWritable))
    ));
    assert!(wgpuBufferGetConstMappedRange(&buffer, &state, &mut ranges, 0, 16).is_ok());
}

#[test]
fn a_copy_is_asked_of_the_buffer() {
    let buffer = buffer(64, true);
    let mut ranges = MappedRanges::default();
    let state = MapState::new(true);
    let start = find_range(&buffer, 1, 0, None).expect("mapped").data;
    for writable in [false, true] {
        let mapping = find_copy(&buffer, &state, &mut ranges, 8, 12, writable).expect("mapped");
        assert_eq!((mapping.data, mapping.count, mapping.generation), (start + 8, 12, 1));
        assert!(matches!(
            find_copy(&buffer, &state, &mut ranges, 8, WGPU_WHOLE_MAP_SIZE, writable),
            Err(AccessError::WholeMapSize)
        ));
        assert!(matches!(
            find_copy(&buffer, &state, &mut ranges, 4, 4, writable),
            Err(AccessError::Invalid(MapError::Access(
                BufferAccessError::UnalignedOffset { offset: 4 }
            )))
        ));
    }
}

#[test]
fn ranges_that_may_be_written_never_overlap() {
    let buffer = buffer(64, true);
    let state = MapState::new(true);
    let mut ranges = MappedRanges::default();
    let mut granted: Vec<(usize, usize)> = Vec::new();
    for (offset, size) in [(16, 16), (8, 16), (0, 8), (24, 8), (40, WGPU_WHOLE_MAP_SIZE), (56, 8)] {
        let end = if size == WGPU_WHOLE_MAP_SIZE { 64 } else { offset + size };
        if wgpuBufferGetMappedRange(&buffer, &state, &mut ranges, offset, size).is_ok() {
            for (start, stop) in &granted {
                assert!(end <= *start || *stop <= offset);
            }
            granted.push((offset, end));
        }
    }
    assert_eq!(granted, [(16, 32), (0, 8), (40, 64)]);
}

#[test]
fn a_copy_is_refused_a_range_that_is_held() {
    let buffer = buffer(64, true);
    let state = MapState::new(true);
    let mut ranges = MappedRanges::default();
    assert!(wgpuBufferGetConstMappedRange(&buffer, &state, &mut ranges, 0, 16).is_ok());
    assert!(matches!(
        find_copy(&buffer, &state, &mut ranges, 8, 16, true),
        Err(AccessError::Overlap)
    ));
    assert!(find_copy(&buffer, &state, &mut ranges, 8, 16, false).is_ok());
    let found = find_copy(&buffer, &state, &mut ranges, 16, 4, true).expect("free");
    let mut memory: [u8; 4] = [0; 4];
    let mapped: Answer<&mut [u8]> = Ok(Mapping {
        data: &mut memory,
        count: found.count,
        generation: found.generation,
    });
    assert!(wgpuBufferWriteMappedRange(&mut ranges, 16, Some(&[1; 4]), 4, mapped).is_ok());
    assert!(find_copy(&buffer, &state, &mut ranges, 16, 4, true).is_ok());
}

#[test]
fn the_operation_runs_once_where_access_is_granted_and_never_else() {
    let buffer = buffer(64, true);
    let mut state = MapState::new(true);
    let mut ranges = MappedRanges::default();
    let mut runs: usize = 0;
    let whole = WGPU_WHOLE_MAP_SIZE;
    assert!(access(&buffer, &state, &mut ranges, 0, 16, true, true, |_, _| runs += 1).is_ok());
    assert_eq!(runs, 1);
    for (offset, size, writable) in [(0, whole, false), (8, 8, false), (3, 8, true), (64, 8, true)] {
        let result = access(&buffer, &state, &mut ranges, offset, size, writable, false, |_, _| {
            runs += 1
        });
        assert!(result.is_err());
        assert_eq!(runs, 1);
    }
    state.map_requested(false);
    state.map_completed();
    let result = access(&buffer, &state, &mut ranges, 16, 8, true, true, |_, _| runs += 1);
    assert!(matches!(result, Err(AccessError::Invalid(MapError::NotWritable))));
    let refused: Answer<&'static str> = Err("not mapped");
    let result = access_mapped(&mut ranges, 0, 16, false, true, refused, |_, _| runs += 1);
    assert!(result.is_err());
    assert_eq!(runs, 1);
}
