use parking_lot::Mutex;
use std::any::Any;
use std::sync::{Arc, Weak};

use wgpu_native::native::WGPUGlobalReport;
use wgpu_native::report::{Kind, Slot};

type Reference = Weak<dyn Any + Send + Sync>;

/// Tracks handles that are shared.
#[derive(Default)]
struct Tracker {
    inner: Mutex<wgpu_native::report::Tracker<Reference>>,
}

impl Tracker {
    fn track<T: Any + Send + Sync>(&self, kind: Kind, handle: &Arc<T>) {
        let erased: Arc<dyn Any + Send + Sync> = handle.clone();
        let weak = Arc::downgrade(&erased);
        let address = Arc::as_ptr(handle).cast::<()>() as usize;
        drop(erased);
        self.inner
            .lock()
            .track_counted(kind, address, weak, |weak: &Reference| weak.strong_count());
    }

    fn untrack<T>(&self, kind: Kind, handle: &T) {
        let address = std::ptr::from_ref(handle).cast::<()>() as usize;
        self.inner.lock().untrack(kind, address);
    }

    fn snapshot(&self) -> WGPUGlobalReport {
        self.inner
            .lock()
            .snapshot_counted(|weak: &Reference| weak.strong_count())
    }
}

#[test]
fn reports_live_handles_and_reuses_released_slots() {
    let tracker = Tracker::default();
    let first = Arc::new(1_u32);
    let second = Arc::new(2_u32);
    tracker.track(Kind::Buffers, &first);
    tracker.track(Kind::Buffers, &first);
    tracker.track(Kind::Buffers, &second);
    let report = tracker.snapshot().hub.buffers;
    assert_eq!(
        (
            report.numAllocated,
            report.numKeptFromUser,
            report.numReleasedFromUser
        ),
        (2, 2, 0)
    );

    let retained = first.clone();
    drop(first);
    assert_eq!(tracker.snapshot().hub.buffers.numAllocated, 2);
    drop(retained);
    let report = tracker.snapshot().hub.buffers;
    assert_eq!(
        (
            report.numAllocated,
            report.numKeptFromUser,
            report.numReleasedFromUser
        ),
        (1, 1, 1)
    );

    let third = Arc::new(3_u32);
    tracker.track(Kind::Buffers, &third);
    let report = tracker.snapshot().hub.buffers;
    assert_eq!(
        (
            report.numAllocated,
            report.numKeptFromUser,
            report.numReleasedFromUser
        ),
        (2, 2, 0)
    );
    assert_eq!(tracker.snapshot().hub.textures.numAllocated, 0);
    drop(second);
    drop(third);
    assert_eq!(tracker.snapshot().hub.buffers.numReleasedFromUser, 2);
}

#[test]
fn tracking_does_not_keep_handles_alive_and_instances_are_independent() {
    let tracker = Tracker::default();
    let other = Tracker::default();
    let handle = Arc::new(5_u32);
    tracker.track(Kind::Devices, &handle);
    assert_eq!(Arc::strong_count(&handle), 1);
    assert_eq!(other.snapshot().hub.devices.numAllocated, 0);
    drop(handle);
    assert_eq!(tracker.snapshot().hub.devices.numAllocated, 0);
}

#[test]
fn consumed_handles_release_their_slot_before_the_wrapper_is_dropped() {
    let tracker = Tracker::default();
    let handle = Arc::new(5_u32);
    tracker.track(Kind::CommandBuffers, &handle);
    tracker.untrack(Kind::CommandBuffers, handle.as_ref());
    let report = tracker.snapshot().hub.commandBuffers;
    assert_eq!(report.numAllocated, 0);
    assert_eq!(report.numReleasedFromUser, 1);
    assert_eq!(Arc::strong_count(&handle), 1);
    tracker.untrack(Kind::CommandBuffers, handle.as_ref());
    assert_eq!(tracker.snapshot().hub.commandBuffers.numReleasedFromUser, 1);
}

#[test]
fn interleaved_registration_and_release_preserve_occupancy() {
    let tracker = Tracker::default();
    let mut owners: [Option<Arc<usize>>; 4] = [None, None, None, None];
    for index in 0..1000 {
        let owner = (index * 7 + index / 3) % 4;
        owners[owner] = None;
        let handle = Arc::new(index);
        tracker.track(Kind::Textures, &handle);
        let report = tracker.snapshot().hub.textures;
        assert!(report.numAllocated >= 1);
        assert_eq!(report.numAllocated, report.numKeptFromUser);
        owners[owner] = Some(handle);
    }
    for owner in owners.iter_mut() {
        *owner = None;
    }
    let report = tracker.snapshot().hub.textures;
    assert_eq!(report.numAllocated, 0);
    assert!((1..=4).contains(&report.numReleasedFromUser));
}

#[test]
fn every_kind_has_its_own_report() {
    let kinds = [
        Kind::Surfaces,
        Kind::Adapters,
        Kind::Devices,
        Kind::Queues,
        Kind::PipelineLayouts,
        Kind::ShaderModules,
        Kind::BindGroupLayouts,
        Kind::BindGroups,
        Kind::CommandBuffers,
        Kind::RenderBundles,
        Kind::RenderPipelines,
        Kind::ComputePipelines,
        Kind::PipelineCaches,
        Kind::QuerySets,
        Kind::Buffers,
        Kind::Textures,
        Kind::TextureViews,
        Kind::Samplers,
    ];
    let tracker = Tracker::default();
    let mut handles: Vec<Arc<usize>> = Vec::new();
    for (place, kind) in kinds.iter().enumerate() {
        assert_eq!(kind.index(), place);
        for _ in 0..=place {
            let handle = Arc::new(place);
            tracker.track(*kind, &handle);
            handles.push(handle);
        }
    }
    let report = tracker.snapshot();
    let reported = [
        report.surfaces,
        report.hub.adapters,
        report.hub.devices,
        report.hub.queues,
        report.hub.pipelineLayouts,
        report.hub.shaderModules,
        report.hub.bindGroupLayouts,
        report.hub.bindGroups,
        report.hub.commandBuffers,
        report.hub.renderBundles,
        report.hub.renderPipelines,
        report.hub.computePipelines,
        report.hub.pipelineCaches,
        report.hub.querySets,
        report.hub.buffers,
        report.hub.textures,
        report.hub.textureViews,
        report.hub.samplers,
    ];
    for (place, report) in reported.iter().enumerate() {
        assert_eq!(report.numAllocated, place + 1);
        assert_eq!(report.numKeptFromUser, place + 1);
        assert_eq!(report.numReleasedFromUser, 0);
        assert_eq!(report.elementSize, std::mem::size_of::<Reference>());
    }
}

#[test]
fn the_first_vacant_slot_is_taken() {
    let mut tracker: wgpu_native::report::Tracker<char> = Default::default();
    tracker.track(Kind::Queues, 10, 'a', &[]);
    tracker.track(Kind::Queues, 20, 'b', &[1]);
    tracker.track(Kind::Queues, 30, 'c', &[1, 1]);
    tracker.track(Kind::Queues, 40, 'd', &[1, 0, 0]);
    assert!(matches!(
        tracker.slots(Kind::Queues)[..],
        [
            Slot::Given { address: 10, weak: 'a' },
            Slot::Given { address: 40, weak: 'd' },
            Slot::Given { address: 30, weak: 'c' },
        ]
    ));
    tracker.untrack(Kind::Queues, 10);
    tracker.untrack(Kind::Queues, 99);
    assert!(matches!(tracker.slots(Kind::Queues)[0], Slot::Released));
    tracker.track(Kind::Queues, 50, 'e', &[7, 1, 1]);
    assert!(tracker.slots(Kind::Queues)[0].is_at(50));
    assert!(tracker.slots(Kind::Queues)[0].is_occupied(1));
    assert!(!tracker.slots(Kind::Queues)[0].is_occupied(0));
    assert_eq!(tracker.slots(Kind::Queues).len(), 3);
    assert_eq!(tracker.slots(Kind::Devices).len(), 0);
}

#[test]
fn a_given_up_slot_serves_the_next_handle() {
    let tracker = Tracker::default();
    let first = Arc::new('1');
    let second = Arc::new('2');
    tracker.track(Kind::Samplers, &first);
    tracker.untrack(Kind::Samplers, first.as_ref());
    tracker.track(Kind::Samplers, &second);
    let report = tracker.snapshot().hub.samplers;
    assert_eq!((report.numAllocated, report.numReleasedFromUser), (1, 0));
    tracker.track(Kind::Samplers, &first);
    let report = tracker.snapshot().hub.samplers;
    assert_eq!((report.numAllocated, report.numReleasedFromUser), (2, 0));
}

#[test]
fn there_are_as_many_slots_as_handles_were_ever_live() {
    let tracker = Tracker::default();
    let mut owned: Vec<Arc<usize>> = Vec::new();
    let mut given_up: Vec<Arc<usize>> = Vec::new();
    let mut peak: usize = 0;
    for step in 0..300 {
        match (step * step + step / 5) % 7 {
            0 => {
                owned.pop();
            }
            1 if !owned.is_empty() => {
                let handle = owned.remove(0);
                tracker.untrack(Kind::Samplers, handle.as_ref());
                given_up.push(handle);
            }
            2 if !owned.is_empty() => tracker.track(Kind::Samplers, &owned[0]),
            3 => given_up.clear(),
            _ => {
                let handle = Arc::new(step);
                tracker.track(Kind::Samplers, &handle);
                owned.push(handle);
            }
        }
        peak = peak.max(owned.len());
        if step % 60 == 59 {
            owned.clear();
        }
        let report = tracker.snapshot().hub.samplers;
        assert_eq!(report.numAllocated, owned.len());
        assert_eq!(report.numKeptFromUser, owned.len());
        assert_eq!(report.numAllocated + report.numReleasedFromUser, peak);
    }
    assert!(peak > 1);
}
