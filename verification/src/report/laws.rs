//! What tracking and reporting amount to, slot by slot.

use vstd::prelude::*;

use super::{Kind, Slot, Tracker};
use crate::native::{WGPUGlobalReport, WGPURegistryReport};

verus! {

/// The slots that were given to a handle that is alive.
pub open spec fn live_slots<W>(slots: Seq<Slot<W>>, alive: spec_fn(int) -> bool) -> Set<int> {
    Set::new(|i: int| 0 <= i < slots.len() && slots[i] is Given && alive(i))
}

/// What a line of the report tells: each slot of a live handle counts as allocated and as kept, and
/// each other slot as released.
pub open spec fn tells<W>(
    line: WGPURegistryReport,
    slots: Seq<Slot<W>>,
    alive: spec_fn(int) -> bool,
) -> bool {
    &&& live_slots(slots, alive).finite()
    &&& line.numAllocated == live_slots(slots, alive).len()
    &&& line.numKeptFromUser == live_slots(slots, alive).len()
    &&& line.numReleasedFromUser == slots.len() - live_slots(slots, alive).len()
    &&& line.elementSize == vstd::layout::size_of::<W>()
}

/// The occupancy is the number of the slots of live handles.
proof fn lemma_occupancy_is_live<W>(
    slots: Seq<Slot<W>>,
    strong: Seq<usize>,
    alive: spec_fn(int) -> bool,
)
    requires
        forall|i: int|
            0 <= i < slots.len() && #[trigger] slots[i] is Given ==> (strong[i] != 0) == alive(i),
    ensures
        live_slots(slots, alive).finite(),
        super::occupancy(slots, strong) == live_slots(slots, alive).len(),
    decreases slots.len(),
{
    let live = live_slots(slots, alive);
    if slots.len() == 0 {
        assert(live =~= Set::empty());
    } else {
        let last = slots.len() - 1;
        let shorter = slots.drop_last();
        assert forall|i: int| 0 <= i < shorter.len() && #[trigger] shorter[i] is Given implies (
        strong[i] != 0) == alive(i) by {
            assert(slots[i] == shorter[i]);
        }
        lemma_occupancy_is_live(shorter, strong, alive);
        assert(slots[last] is Given ==> (strong[last] != 0) == alive(last));
        if slots[last] is Given && alive(last) {
            assert(live =~= live_slots(shorter, alive).insert(last));
        } else {
            assert(live =~= live_slots(shorter, alive));
        }
    }
}

/// A line that reports slots tells of the live ones.
proof fn lemma_tells<W>(
    line: WGPURegistryReport,
    slots: Seq<Slot<W>>,
    strong: Seq<usize>,
    alive: spec_fn(int) -> bool,
)
    requires
        super::reports(line, slots, strong),
        forall|i: int|
            0 <= i < slots.len() && #[trigger] slots[i] is Given ==> (strong[i] != 0) == alive(i),
    ensures
        tells(line, slots, alive),
{
    lemma_occupancy_is_live(slots, strong, alive);
}

/// A line that reports slots by their owners tells of those that have owners.
proof fn lemma_tells_counted<W, F: Fn(&W) -> usize>(
    strong_count: F,
    line: WGPURegistryReport,
    slots: Seq<Slot<W>>,
    alive: spec_fn(int) -> bool,
)
    requires
        super::reports_counted(strong_count, line, slots),
        forall|i: int, owners: usize|
            #![trigger slots[i], strong_count.ensures((&slots[i]->weak,), owners)]
            0 <= i < slots.len() && slots[i] is Given && strong_count.ensures(
                (&slots[i]->weak,),
                owners,
            ) ==> (owners != 0) == alive(i),
    ensures
        tells(line, slots, alive),
{
    let strong = choose|strong: Seq<usize>| #[trigger]
        super::counted(strong_count, slots, strong) && super::reports(line, slots, strong);
    assert forall|i: int| 0 <= i < slots.len() && #[trigger] slots[i] is Given implies (strong[i]
        != 0) == alive(i) by {
        assert(strong_count.ensures((&slots[i]->weak,), strong[i]));
    }
    lemma_tells(line, slots, strong, alive);
}

/// What [`Tracker::snapshot`] reports of the handles of each kind.
#[verifier::rlimit(40)]
pub proof fn law_snapshot<W>(
    tracker: &Tracker<W>,
    strong: &[Vec<usize>],
    report: WGPUGlobalReport,
)
    requires
        Tracker::<W>::snapshot.ensures((tracker, strong), report),
    ensures
        tells(
            report.surfaces,
            tracker.registry(Kind::Surfaces),
            |i: int| strong@[0]@[i] != 0,
        ),
        tells(
            report.hub.adapters,
            tracker.registry(Kind::Adapters),
            |i: int| strong@[1]@[i] != 0,
        ),
        tells(
            report.hub.devices,
            tracker.registry(Kind::Devices),
            |i: int| strong@[2]@[i] != 0,
        ),
        tells(
            report.hub.queues,
            tracker.registry(Kind::Queues),
            |i: int| strong@[3]@[i] != 0,
        ),
        tells(
            report.hub.pipelineLayouts,
            tracker.registry(Kind::PipelineLayouts),
            |i: int| strong@[4]@[i] != 0,
        ),
        tells(
            report.hub.shaderModules,
            tracker.registry(Kind::ShaderModules),
            |i: int| strong@[5]@[i] != 0,
        ),
        tells(
            report.hub.bindGroupLayouts,
            tracker.registry(Kind::BindGroupLayouts),
            |i: int| strong@[6]@[i] != 0,
        ),
        tells(
            report.hub.bindGroups,
            tracker.registry(Kind::BindGroups),
            |i: int| strong@[7]@[i] != 0,
        ),
        tells(
            report.hub.commandBuffers,
            tracker.registry(Kind::CommandBuffers),
            |i: int| strong@[8]@[i] != 0,
        ),
        tells(
            report.hub.renderBundles,
            tracker.registry(Kind::RenderBundles),
            |i: int| strong@[9]@[i] != 0,
        ),
        tells(
            report.hub.renderPipelines,
            tracker.registry(Kind::RenderPipelines),
            |i: int| strong@[10]@[i] != 0,
        ),
        tells(
            report.hub.computePipelines,
            tracker.registry(Kind::ComputePipelines),
            |i: int| strong@[11]@[i] != 0,
        ),
        tells(
            report.hub.pipelineCaches,
            tracker.registry(Kind::PipelineCaches),
            |i: int| strong@[12]@[i] != 0,
        ),
        tells(
            report.hub.querySets,
            tracker.registry(Kind::QuerySets),
            |i: int| strong@[13]@[i] != 0,
        ),
        tells(
            report.hub.buffers,
            tracker.registry(Kind::Buffers),
            |i: int| strong@[14]@[i] != 0,
        ),
        tells(
            report.hub.textures,
            tracker.registry(Kind::Textures),
            |i: int| strong@[15]@[i] != 0,
        ),
        tells(
            report.hub.textureViews,
            tracker.registry(Kind::TextureViews),
            |i: int| strong@[16]@[i] != 0,
        ),
        tells(
            report.hub.samplers,
            tracker.registry(Kind::Samplers),
            |i: int| strong@[17]@[i] != 0,
        ),
{
    lemma_tells(
        report.of(Kind::Surfaces),
        tracker.registry(Kind::Surfaces),
        strong@[0]@,
        |i: int| strong@[0]@[i] != 0,
    );
    lemma_tells(
        report.of(Kind::Adapters),
        tracker.registry(Kind::Adapters),
        strong@[1]@,
        |i: int| strong@[1]@[i] != 0,
    );
    lemma_tells(
        report.of(Kind::Devices),
        tracker.registry(Kind::Devices),
        strong@[2]@,
        |i: int| strong@[2]@[i] != 0,
    );
    lemma_tells(
        report.of(Kind::Queues),
        tracker.registry(Kind::Queues),
        strong@[3]@,
        |i: int| strong@[3]@[i] != 0,
    );
    lemma_tells(
        report.of(Kind::PipelineLayouts),
        tracker.registry(Kind::PipelineLayouts),
        strong@[4]@,
        |i: int| strong@[4]@[i] != 0,
    );
    lemma_tells(
        report.of(Kind::ShaderModules),
        tracker.registry(Kind::ShaderModules),
        strong@[5]@,
        |i: int| strong@[5]@[i] != 0,
    );
    lemma_tells(
        report.of(Kind::BindGroupLayouts),
        tracker.registry(Kind::BindGroupLayouts),
        strong@[6]@,
        |i: int| strong@[6]@[i] != 0,
    );
    lemma_tells(
        report.of(Kind::BindGroups),
        tracker.registry(Kind::BindGroups),
        strong@[7]@,
        |i: int| strong@[7]@[i] != 0,
    );
    lemma_tells(
        report.of(Kind::CommandBuffers),
        tracker.registry(Kind::CommandBuffers),
        strong@[8]@,
        |i: int| strong@[8]@[i] != 0,
    );
    lemma_tells(
        report.of(Kind::RenderBundles),
        tracker.registry(Kind::RenderBundles),
        strong@[9]@,
        |i: int| strong@[9]@[i] != 0,
    );
    lemma_tells(
        report.of(Kind::RenderPipelines),
        tracker.registry(Kind::RenderPipelines),
        strong@[10]@,
        |i: int| strong@[10]@[i] != 0,
    );
    lemma_tells(
        report.of(Kind::ComputePipelines),
        tracker.registry(Kind::ComputePipelines),
        strong@[11]@,
        |i: int| strong@[11]@[i] != 0,
    );
    lemma_tells(
        report.of(Kind::PipelineCaches),
        tracker.registry(Kind::PipelineCaches),
        strong@[12]@,
        |i: int| strong@[12]@[i] != 0,
    );
    lemma_tells(
        report.of(Kind::QuerySets),
        tracker.registry(Kind::QuerySets),
        strong@[13]@,
        |i: int| strong@[13]@[i] != 0,
    );
    lemma_tells(
        report.of(Kind::Buffers),
        tracker.registry(Kind::Buffers),
        strong@[14]@,
        |i: int| strong@[14]@[i] != 0,
    );
    lemma_tells(
        report.of(Kind::Textures),
        tracker.registry(Kind::Textures),
        strong@[15]@,
        |i: int| strong@[15]@[i] != 0,
    );
    lemma_tells(
        report.of(Kind::TextureViews),
        tracker.registry(Kind::TextureViews),
        strong@[16]@,
        |i: int| strong@[16]@[i] != 0,
    );
    lemma_tells(
        report.of(Kind::Samplers),
        tracker.registry(Kind::Samplers),
        strong@[17]@,
        |i: int| strong@[17]@[i] != 0,
    );
}

/// What [`Tracker::snapshot_counted`] reports of the handles of each kind, where `alive` says of
/// each slot whether its handle has an owner: a slot counts as allocated exactly if it has one or
/// more.
#[verifier::rlimit(40)]
pub proof fn law_snapshot_counted<W, F: Fn(&W) -> usize>(
    tracker: &Tracker<W>,
    strong_count: F,
    report: WGPUGlobalReport,
    alive: spec_fn(Kind) -> spec_fn(int) -> bool,
)
    requires
        Tracker::<W>::snapshot_counted.ensures((tracker, strong_count), report),
        forall|kind: Kind, i: int, owners: usize|
            #![trigger strong_count.ensures((&tracker.registry(kind)[i]->weak,), owners)]
            0 <= i < tracker.registry(kind).len() && tracker.registry(kind)[i] is Given
                && strong_count.ensures((&tracker.registry(kind)[i]->weak,), owners) ==> (owners
                > 0) == alive(kind)(i),
    ensures
        tells(report.surfaces, tracker.registry(Kind::Surfaces), alive(Kind::Surfaces)),
        tells(report.hub.adapters, tracker.registry(Kind::Adapters), alive(Kind::Adapters)),
        tells(report.hub.devices, tracker.registry(Kind::Devices), alive(Kind::Devices)),
        tells(report.hub.queues, tracker.registry(Kind::Queues), alive(Kind::Queues)),
        tells(report.hub.pipelineLayouts, tracker.registry(Kind::PipelineLayouts), alive(Kind::PipelineLayouts)),
        tells(report.hub.shaderModules, tracker.registry(Kind::ShaderModules), alive(Kind::ShaderModules)),
        tells(report.hub.bindGroupLayouts, tracker.registry(Kind::BindGroupLayouts), alive(Kind::BindGroupLayouts)),
        tells(report.hub.bindGroups, tracker.registry(Kind::BindGroups), alive(Kind::BindGroups)),
        tells(report.hub.commandBuffers, tracker.registry(Kind::CommandBuffers), alive(Kind::CommandBuffers)),
        tells(report.hub.renderBundles, tracker.registry(Kind::RenderBundles), alive(Kind::RenderBundles)),
        tells(report.hub.renderPipelines, tracker.registry(Kind::RenderPipelines), alive(Kind::RenderPipelines)),
        tells(report.hub.computePipelines, tracker.registry(Kind::ComputePipelines), alive(Kind::ComputePipelines)),
        tells(report.hub.pipelineCaches, tracker.registry(Kind::PipelineCaches), alive(Kind::PipelineCaches)),
        tells(report.hub.querySets, tracker.registry(Kind::QuerySets), alive(Kind::QuerySets)),
        tells(report.hub.buffers, tracker.registry(Kind::Buffers), alive(Kind::Buffers)),
        tells(report.hub.textures, tracker.registry(Kind::Textures), alive(Kind::Textures)),
        tells(report.hub.textureViews, tracker.registry(Kind::TextureViews), alive(Kind::TextureViews)),
        tells(report.hub.samplers, tracker.registry(Kind::Samplers), alive(Kind::Samplers)),
{
    lemma_tells_counted(
        strong_count,
        report.of(Kind::Surfaces),
        tracker.registry(Kind::Surfaces),
        alive(Kind::Surfaces),
    );
    lemma_tells_counted(
        strong_count,
        report.of(Kind::Adapters),
        tracker.registry(Kind::Adapters),
        alive(Kind::Adapters),
    );
    lemma_tells_counted(
        strong_count,
        report.of(Kind::Devices),
        tracker.registry(Kind::Devices),
        alive(Kind::Devices),
    );
    lemma_tells_counted(
        strong_count,
        report.of(Kind::Queues),
        tracker.registry(Kind::Queues),
        alive(Kind::Queues),
    );
    lemma_tells_counted(
        strong_count,
        report.of(Kind::PipelineLayouts),
        tracker.registry(Kind::PipelineLayouts),
        alive(Kind::PipelineLayouts),
    );
    lemma_tells_counted(
        strong_count,
        report.of(Kind::ShaderModules),
        tracker.registry(Kind::ShaderModules),
        alive(Kind::ShaderModules),
    );
    lemma_tells_counted(
        strong_count,
        report.of(Kind::BindGroupLayouts),
        tracker.registry(Kind::BindGroupLayouts),
        alive(Kind::BindGroupLayouts),
    );
    lemma_tells_counted(
        strong_count,
        report.of(Kind::BindGroups),
        tracker.registry(Kind::BindGroups),
        alive(Kind::BindGroups),
    );
    lemma_tells_counted(
        strong_count,
        report.of(Kind::CommandBuffers),
        tracker.registry(Kind::CommandBuffers),
        alive(Kind::CommandBuffers),
    );
    lemma_tells_counted(
        strong_count,
        report.of(Kind::RenderBundles),
        tracker.registry(Kind::RenderBundles),
        alive(Kind::RenderBundles),
    );
    lemma_tells_counted(
        strong_count,
        report.of(Kind::RenderPipelines),
        tracker.registry(Kind::RenderPipelines),
        alive(Kind::RenderPipelines),
    );
    lemma_tells_counted(
        strong_count,
        report.of(Kind::ComputePipelines),
        tracker.registry(Kind::ComputePipelines),
        alive(Kind::ComputePipelines),
    );
    lemma_tells_counted(
        strong_count,
        report.of(Kind::PipelineCaches),
        tracker.registry(Kind::PipelineCaches),
        alive(Kind::PipelineCaches),
    );
    lemma_tells_counted(
        strong_count,
        report.of(Kind::QuerySets),
        tracker.registry(Kind::QuerySets),
        alive(Kind::QuerySets),
    );
    lemma_tells_counted(
        strong_count,
        report.of(Kind::Buffers),
        tracker.registry(Kind::Buffers),
        alive(Kind::Buffers),
    );
    lemma_tells_counted(
        strong_count,
        report.of(Kind::Textures),
        tracker.registry(Kind::Textures),
        alive(Kind::Textures),
    );
    lemma_tells_counted(
        strong_count,
        report.of(Kind::TextureViews),
        tracker.registry(Kind::TextureViews),
        alive(Kind::TextureViews),
    );
    lemma_tells_counted(
        strong_count,
        report.of(Kind::Samplers),
        tracker.registry(Kind::Samplers),
        alive(Kind::Samplers),
    );
}

/// The index of each kind.
pub proof fn law_kind_index(kind: Kind, index: usize)
    requires
        Kind::index.ensures((kind,), index),
    ensures
        index < 18,
        index == 0 <==> kind is Surfaces,
        index == 1 <==> kind is Adapters,
        index == 2 <==> kind is Devices,
        index == 3 <==> kind is Queues,
        index == 4 <==> kind is PipelineLayouts,
        index == 5 <==> kind is ShaderModules,
        index == 6 <==> kind is BindGroupLayouts,
        index == 7 <==> kind is BindGroups,
        index == 8 <==> kind is CommandBuffers,
        index == 9 <==> kind is RenderBundles,
        index == 10 <==> kind is RenderPipelines,
        index == 11 <==> kind is ComputePipelines,
        index == 12 <==> kind is PipelineCaches,
        index == 13 <==> kind is QuerySets,
        index == 14 <==> kind is Buffers,
        index == 15 <==> kind is Textures,
        index == 16 <==> kind is TextureViews,
        index == 17 <==> kind is Samplers,
{
}

/// Some slot was given to the handle at `address`.
pub open spec fn has_slot<W>(slots: Seq<Slot<W>>, address: usize) -> bool {
    exists|i: int| 0 <= i < slots.len() && #[trigger] slots[i] is Given && slots[i]->address == address
}

/// What tracking the handle at `address` makes of the slots, where `alive` says of each slot
/// whether its handle has an owner.
///
/// A handle that has a slot keeps it, and nothing changes. Any other takes the first slot that was
/// given up or whose handle has no owner, and a new one only if there is none. No other slot
/// changes.
pub open spec fn takes_a_slot<W>(
    before: Seq<Slot<W>>,
    alive: spec_fn(int) -> bool,
    address: usize,
    weak: W,
    after: Seq<Slot<W>>,
) -> bool {
    if has_slot(before, address) {
        after == before
    } else {
        &&& forall|i: int|
            0 <= i < before.len() && (#[trigger] before[i] is Released || !alive(i)) && (forall|
                j: int,
            |
                0 <= j < i ==> #[trigger] before[j] is Given && alive(j)) ==> after
                == before.update(i, Slot::Given { address, weak })
        &&& (forall|i: int|
            0 <= i < before.len() ==> #[trigger] before[i] is Given && alive(i)) ==> after
            == before.push(Slot::Given { address, weak })
    }
}

/// The slots after tracking are those in which the handle took its slot.
proof fn lemma_takes_a_slot<W>(
    before: Seq<Slot<W>>,
    strong: Seq<usize>,
    alive: spec_fn(int) -> bool,
    address: usize,
    weak: W,
)
    requires
        forall|i: int|
            0 <= i < before.len() && #[trigger] before[i] is Given ==> (strong[i] != 0) == alive(i),
    ensures
        takes_a_slot(
            before,
            alive,
            address,
            weak,
            super::after_track(before, strong, address, weak),
        ),
{
    if super::refers(before, address) {
        let i = choose|i: int| 0 <= i < before.len() && (#[trigger] before[i]).refers_to(address);
        assert(before[i] is Given && before[i]->address == address);
    }
    if has_slot(before, address) {
        let i = choose|i: int|
            0 <= i < before.len() && #[trigger] before[i] is Given && before[i]->address == address;
        assert(before[i].refers_to(address));
    } else {
        let after = super::after_track(before, strong, address, weak);
        assert forall|i: int|
            0 <= i < before.len() && (#[trigger] before[i] is Released || !alive(i)) && (forall|
                j: int,
            |
                0 <= j < i ==> #[trigger] before[j] is Given && alive(j)) implies after
            == before.update(i, Slot::Given { address, weak }) by {
            assert(super::first_vacant(before, strong, i)) by {
                assert forall|j: int| 0 <= j < before.take(i).len() implies (
                #[trigger] before.take(i)[j]).occupied(strong[j]) by {
                    assert(before[j] is Given && alive(j));
                }
            }
            super::lemma_first_vacant_unique(before, strong, i);
        }
        if forall|i: int| 0 <= i < before.len() ==> #[trigger] before[i] is Given && alive(i) {
            assert(super::all_occupied(before, strong));
        }
    }
}

/// What [`Tracker::track`] makes of the slots.
pub proof fn law_track<W>(
    before: Tracker<W>,
    kind: Kind,
    address: usize,
    weak: W,
    strong: &[usize],
    after: Tracker<W>,
)
    requires
        exists|tracker: &mut Tracker<W>| #[trigger]
            Tracker::<W>::track.ensures((tracker, kind, address, weak, strong), ()) && *tracker
                == before && *final(tracker) == after,
    ensures
        takes_a_slot(
            before.registry(kind),
            |i: int| strong@[i] != 0,
            address,
            weak,
            after.registry(kind),
        ),
        forall|other: Kind| other != kind ==> #[trigger] after.registry(other) == before.registry(
            other,
        ),
{
    lemma_takes_a_slot(
        before.registry(kind),
        strong@,
        |i: int| strong@[i] != 0,
        address,
        weak,
    );
}

/// What [`Tracker::track_counted`] makes of the slots: a slot whose handle has one owner or more
/// stays in place.
pub proof fn law_track_counted<W, F: Fn(&W) -> usize>(
    before: Tracker<W>,
    kind: Kind,
    address: usize,
    weak: W,
    strong_count: F,
    after: Tracker<W>,
    alive: spec_fn(int) -> bool,
)
    requires
        exists|tracker: &mut Tracker<W>| #[trigger]
            Tracker::<W>::track_counted.ensures((tracker, kind, address, weak, strong_count), ())
                && *tracker == before && *final(tracker) == after,
        forall|i: int, owners: usize|
            #![trigger strong_count.ensures((&before.registry(kind)[i]->weak,), owners)]
            0 <= i < before.registry(kind).len() && before.registry(kind)[i] is Given
                && strong_count.ensures((&before.registry(kind)[i]->weak,), owners) ==> (owners > 0)
                == alive(i),
    ensures
        takes_a_slot(before.registry(kind), alive, address, weak, after.registry(kind)),
        forall|other: Kind| other != kind ==> #[trigger] after.registry(other) == before.registry(
            other,
        ),
{
    let slots = before.registry(kind);
    let strong = choose|strong: Seq<usize>| #[trigger]
        super::counted(strong_count, slots, strong) && after.registry(kind) == super::after_track(
            slots,
            strong,
            address,
            weak,
        );
    assert forall|i: int| 0 <= i < slots.len() && #[trigger] slots[i] is Given implies (strong[i]
        != 0) == alive(i) by {
        assert(strong_count.ensures((&slots[i]->weak,), strong[i]));
    }
    lemma_takes_a_slot(slots, strong, alive, address, weak);
}

/// What [`Tracker::untrack`] makes of the slots: that of the handle is released, and no other
/// changes.
pub proof fn law_untrack<W>(
    before: Tracker<W>,
    kind: Kind,
    address: usize,
    after: Tracker<W>,
)
    requires
        exists|tracker: &mut Tracker<W>| #[trigger]
            Tracker::<W>::untrack.ensures((tracker, kind, address), ()) && *tracker == before
                && *final(tracker) == after,
    ensures
        after.registry(kind).len() == before.registry(kind).len(),
        forall|i: int|
            0 <= i < before.registry(kind).len() ==> #[trigger] after.registry(kind)[i] == if
                before.registry(kind)[i] is Given && before.registry(kind)[i]->address == address {
                Slot::Released
            } else {
                before.registry(kind)[i]
            },
        forall|other: Kind| other != kind ==> #[trigger] after.registry(other) == before.registry(
            other,
        ),
{
}

/// What is asked of the handles, slot by slot. A slot that was given up counts as without owners.
pub proof fn law_strong_counts<W, F: Fn(&W) -> usize>(
    tracker: &Tracker<W>,
    kind: Kind,
    strong_count: F,
    strong: Vec<usize>,
    i: int,
)
    requires
        Tracker::<W>::strong_counts.ensures((tracker, kind, strong_count), strong),
        0 <= i < tracker.registry(kind).len(),
    ensures
        strong@.len() == tracker.registry(kind).len(),
        tracker.registry(kind)[i] is Released ==> strong@[i] == 0,
        tracker.registry(kind)[i] is Given ==> strong_count.ensures(
            (&tracker.registry(kind)[i]->weak,),
            strong@[i],
        ),
{
}

/// What is asked of the handles of all kinds, by the index of the kind and then slot by slot.
pub proof fn law_all_strong_counts<W, F: Fn(&W) -> usize>(
    tracker: &Tracker<W>,
    kind: Kind,
    index: usize,
    strong_count: F,
    strong: Vec<Vec<usize>>,
    i: int,
)
    requires
        Tracker::<W>::all_strong_counts.ensures((tracker, strong_count), strong),
        Kind::index.ensures((kind,), index),
        0 <= i < tracker.registry(kind).len(),
    ensures
        strong@.len() == 18,
        strong@[index as int]@.len() == tracker.registry(kind).len(),
        tracker.registry(kind)[i] is Released ==> strong@[index as int]@[i] == 0,
        tracker.registry(kind)[i] is Given ==> strong_count.ensures(
            (&tracker.registry(kind)[i]->weak,),
            strong@[index as int]@[i],
        ),
{
    let arguments = (tracker, strong_count);
    assert(super::counted(strong_count, arguments.0.registry(kind), strong@[kind.place()]@));
}

/// The slots of a kind can be looked at, and there are none at first.
pub proof fn law_slots<W>(
    tracker: &Tracker<W>,
    kind: Kind,
    slots: &Vec<Slot<W>>,
    fresh: Tracker<W>,
)
    requires
        Tracker::<W>::slots.ensures((tracker, kind), slots),
        <Tracker<W> as Default>::default.ensures((), fresh),
    ensures
        slots@ == tracker.registry(kind),
        fresh.registry(kind).len() == 0,
        fresh.wf(),
{
}

/// No two slots of one kind were given to handles at the same address.
pub proof fn law_addresses_differ<W>(tracker: Tracker<W>, kind: Kind, i: int, j: int)
    requires
        tracker.wf(),
        0 <= i < j < tracker.registry(kind).len(),
        tracker.registry(kind)[i] is Given,
        tracker.registry(kind)[j] is Given,
    ensures
        tracker.registry(kind)[i]->address != tracker.registry(kind)[j]->address,
{
    let slots = tracker.registry(kind);
    assert(slots[i].refers_to(slots[i]->address));
    assert(!slots[j].refers_to(slots[i]->address));
}

/// What a slot tells of itself.
pub proof fn law_slot<W>(
    slot: &Slot<W>,
    address: usize,
    at: bool,
    strong: usize,
    occupied: bool,
)
    requires
        Slot::<W>::is_at.ensures((slot, address), at),
        Slot::<W>::is_occupied.ensures((slot, strong), occupied),
    ensures
        at <==> *slot is Given && slot->address == address,
        occupied <==> *slot is Given && strong > 0,
{
}

/// Any handle can be tracked and given up at any time, and the handles can be reported at any time.
pub proof fn law_any_handle_can_be_tracked<W, F: Fn(&W) -> usize>(
    kind: Kind,
    address: usize,
    weak: W,
    strong_count: F,
    tracker: &Tracker<W>,
    fresh: Tracker<W>,
)
    requires
        forall|any: &W| #[trigger] strong_count.requires((any,)),
        tracker.wf(),
        <Tracker<W> as Default>::default.ensures((), fresh),
    ensures
        fresh.wf(),
        Tracker::<W>::slots.requires((tracker, kind)),
        Tracker::<W>::strong_counts.requires((tracker, kind, strong_count)),
        Tracker::<W>::all_strong_counts.requires((tracker, strong_count)),
        Tracker::<W>::snapshot_counted.requires((tracker, strong_count)),
        forall|any: &mut Tracker<W>|
            any.wf() ==> #[trigger] Tracker::<W>::track_counted.requires(
                (any, kind, address, weak, strong_count),
            ),
        forall|any: &mut Tracker<W>| #[trigger]
            Tracker::<W>::track_counted.ensures((any, kind, address, weak, strong_count), ())
                ==> final(any).wf(),
        forall|any: &mut Tracker<W>|
            any.wf() ==> #[trigger] Tracker::<W>::untrack.requires((any, kind, address)),
        forall|any: &mut Tracker<W>| #[trigger]
            Tracker::<W>::untrack.ensures((any, kind, address), ()) ==> final(any).wf(),
{
}

} // verus!
