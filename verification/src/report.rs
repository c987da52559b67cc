//! Counts of the handles that the user of the library holds.

pub mod laws;

use vstd::prelude::*;

use crate::native::{WGPUGlobalReport, WGPUHubReport, WGPURegistryReport};

verus! {

/// What a handle stands for.
#[derive(Clone, Copy, Debug)]
pub enum Kind {
    Surfaces,
    Adapters,
    Devices,
    Queues,
    PipelineLayouts,
    ShaderModules,
    BindGroupLayouts,
    BindGroups,
    CommandBuffers,
    RenderBundles,
    RenderPipelines,
    ComputePipelines,
    PipelineCaches,
    QuerySets,
    Buffers,
    Textures,
    TextureViews,
    Samplers,
}

/// The number of kinds of handles.
pub const KINDS: usize = 18;

impl Kind {
    /// The place of the kind among all kinds.
    pub open spec fn place(self) -> int {
        match self {
            Kind::Surfaces => 0,
            Kind::Adapters => 1,
            Kind::Devices => 2,
            Kind::Queues => 3,
            Kind::PipelineLayouts => 4,
            Kind::ShaderModules => 5,
            Kind::BindGroupLayouts => 6,
            Kind::BindGroups => 7,
            Kind::CommandBuffers => 8,
            Kind::RenderBundles => 9,
            Kind::RenderPipelines => 10,
            Kind::ComputePipelines => 11,
            Kind::PipelineCaches => 12,
            Kind::QuerySets => 13,
            Kind::Buffers => 14,
            Kind::Textures => 15,
            Kind::TextureViews => 16,
            Kind::Samplers => 17,
        }
    }

    /// The index of the kind among all kinds.
    pub fn index(self) -> (index: usize)
        ensures
            index == self.place(),
            index < KINDS,
    {
        match self {
            Kind::Surfaces => 0,
            Kind::Adapters => 1,
            Kind::Devices => 2,
            Kind::Queues => 3,
            Kind::PipelineLayouts => 4,
            Kind::ShaderModules => 5,
            Kind::BindGroupLayouts => 6,
            Kind::BindGroups => 7,
            Kind::CommandBuffers => 8,
            Kind::RenderBundles => 9,
            Kind::RenderPipelines => 10,
            Kind::ComputePipelines => 11,
            Kind::PipelineCaches => 12,
            Kind::QuerySets => 13,
            Kind::Buffers => 14,
            Kind::Textures => 15,
            Kind::TextureViews => 16,
            Kind::Samplers => 17,
        }
    }
}

/// A place for one handle.
///
/// `W` is a reference to the handle that does not keep it alive, but keeps its address from being
/// given to another handle.
pub enum Slot<W> {
    /// The handle was given up.
    Released,
    /// The handle at `address` was tracked.
    Given { address: usize, weak: W },
}

impl<W> Slot<W> {
    /// The slot was given to the handle at `address`.
    pub open spec fn refers_to(self, address: usize) -> bool {
        self matches Slot::Given { address: own, .. } && own == address
    }

    /// The slot refers to a handle of which `strong` owners are left, and that is at least one.
    pub open spec fn occupied(self, strong: usize) -> bool {
        self is Given && strong != 0
    }
}

/// Some slot was given to the handle at `address`.
pub open spec fn refers<W>(slots: Seq<Slot<W>>, address: usize) -> bool {
    exists|i: int| 0 <= i < slots.len() && (#[trigger] slots[i]).refers_to(address)
}

/// No two slots were given to the same handle.
pub open spec fn distinct<W>(slots: Seq<Slot<W>>) -> bool {
    forall|i: int, j: int, address: usize|
        0 <= i < j < slots.len() && #[trigger] slots[i].refers_to(address)
            ==> !#[trigger] slots[j].refers_to(address)
}

/// `index` is the first slot that is not occupied.
pub open spec fn first_vacant<W>(slots: Seq<Slot<W>>, strong: Seq<usize>, index: int) -> bool {
    &&& 0 <= index < slots.len()
    &&& !slots[index].occupied(strong[index])
    &&& all_occupied(slots.take(index), strong)
}

/// Every slot is occupied.
pub open spec fn all_occupied<W>(slots: Seq<Slot<W>>, strong: Seq<usize>) -> bool {
    forall|i: int| 0 <= i < slots.len() ==> (#[trigger] slots[i]).occupied(strong[i])
}

/// The number of slots that are occupied.
pub open spec fn occupancy<W>(slots: Seq<Slot<W>>, strong: Seq<usize>) -> nat
    decreases slots.len(),
{
    if slots.len() == 0 {
        0
    } else {
        let last = slots.len() - 1;
        occupancy(slots.drop_last(), strong) + if slots[last].occupied(strong[last]) {
            1nat
        } else {
            0nat
        }
    }
}

/// The slots once the handle at `address` is tracked.
///
/// A handle that has a slot keeps it. Any other takes the first slot that is not occupied, and
/// only if there is none a new one.
pub open spec fn after_track<W>(
    slots: Seq<Slot<W>>,
    strong: Seq<usize>,
    address: usize,
    weak: W,
) -> Seq<Slot<W>> {
    let slot = Slot::Given { address, weak };
    if refers(slots, address) {
        slots
    } else if all_occupied(slots, strong) {
        slots.push(slot)
    } else {
        slots.update(choose|index: int| first_vacant(slots, strong, index), slot)
    }
}

/// The slots once the handle at `address` is given up.
pub open spec fn after_untrack<W>(slots: Seq<Slot<W>>, address: usize) -> Seq<Slot<W>> {
    slots.map_values(
        |slot: Slot<W>|
            if slot.refers_to(address) {
                Slot::Released
            } else {
                slot
            },
    )
}

/// `strong` holds what `strong_count` answered for each slot.
pub open spec fn counted<W, F: Fn(&W) -> usize>(
    strong_count: F,
    slots: Seq<Slot<W>>,
    strong: Seq<usize>,
) -> bool {
    &&& strong.len() == slots.len()
    &&& forall|i: int|
        0 <= i < slots.len() ==> match #[trigger] slots[i] {
            Slot::Released => strong[i] == 0,
            Slot::Given { weak, .. } => strong_count.ensures((&weak,), strong[i]),
        }
}

/// What is reported of slots: the occupied ones as allocated and kept, the others as released.
pub open spec fn reports<W>(
    report: WGPURegistryReport,
    slots: Seq<Slot<W>>,
    strong: Seq<usize>,
) -> bool {
    &&& report.numAllocated == occupancy(slots, strong)
    &&& report.numKeptFromUser == occupancy(slots, strong)
    &&& report.numReleasedFromUser == slots.len() - occupancy(slots, strong)
    &&& report.elementSize == vstd::layout::size_of::<W>()
}

/// What is reported of slots by what `strong_count` answered for them.
pub open spec fn reports_counted<W, F: Fn(&W) -> usize>(
    strong_count: F,
    report: WGPURegistryReport,
    slots: Seq<Slot<W>>,
) -> bool {
    exists|strong: Seq<usize>| #[trigger]
        counted(strong_count, slots, strong) && reports(report, slots, strong)
}

impl WGPUGlobalReport {
    /// What is reported of the handles of one kind.
    pub open spec fn of(self, kind: Kind) -> WGPURegistryReport {
        match kind {
            Kind::Surfaces => self.surfaces,
            Kind::Adapters => self.hub.adapters,
            Kind::Devices => self.hub.devices,
            Kind::Queues => self.hub.queues,
            Kind::PipelineLayouts => self.hub.pipelineLayouts,
            Kind::ShaderModules => self.hub.shaderModules,
            Kind::BindGroupLayouts => self.hub.bindGroupLayouts,
            Kind::BindGroups => self.hub.bindGroups,
            Kind::CommandBuffers => self.hub.commandBuffers,
            Kind::RenderBundles => self.hub.renderBundles,
            Kind::RenderPipelines => self.hub.renderPipelines,
            Kind::ComputePipelines => self.hub.computePipelines,
            Kind::PipelineCaches => self.hub.pipelineCaches,
            Kind::QuerySets => self.hub.querySets,
            Kind::Buffers => self.hub.buffers,
            Kind::Textures => self.hub.textures,
            Kind::TextureViews => self.hub.textureViews,
            Kind::Samplers => self.hub.samplers,
        }
    }
}

/// The slots of all handles, by kind.
pub struct Tracker<W> {
    registries: Vec<Vec<Slot<W>>>,
}

impl<W> Tracker<W> {
    /// The slots of the handles of one kind.
    pub closed spec fn registry(self, kind: Kind) -> Seq<Slot<W>> {
        self.registries@[kind.place()]@
    }

    /// There are slots for each kind, and no handle has two slots of one kind.
    pub closed spec fn wf(self) -> bool {
        &&& self.registries@.len() == KINDS
        &&& forall|kind: Kind| distinct(#[trigger] self.registry(kind))
    }

    /// The slots of the handles of one kind.
    pub fn slots(&self, kind: Kind) -> (slots: &Vec<Slot<W>>)
        requires
            self.wf(),
        ensures
            slots@ == self.registry(kind),
    {
        &self.registries[kind.index()]
    }

    /// Asks for each slot of one kind how many owners its handle has left.
    pub fn strong_counts<F: Fn(&W) -> usize>(&self, kind: Kind, strong_count: F) -> (strong: Vec<
        usize,
    >)
        requires
            self.wf(),
            forall|weak: &W| #[trigger] strong_count.requires((weak,)),
        ensures
            counted(strong_count, self.registry(kind), strong@),
    {
        count_owners(&self.registries[kind.index()], &strong_count)
    }

    /// Asks for each slot of each kind how many owners its handle has left. The answers are
    /// listed by the index of the kind.
    pub fn all_strong_counts<F: Fn(&W) -> usize>(&self, strong_count: F) -> (strong: Vec<
        Vec<usize>,
    >)
        requires
            self.wf(),
            forall|weak: &W| #[trigger] strong_count.requires((weak,)),
        ensures
            strong@.len() == KINDS,
            forall|kind: Kind|
                counted(
                    strong_count,
                    #[trigger] self.registry(kind),
                    strong@[kind.place()]@,
                ),
    {
        let mut strong: Vec<Vec<usize>> = Vec::new();
        for i in 0..KINDS
            invariant
                self.registries@.len() == KINDS,
                forall|weak: &W| #[trigger] strong_count.requires((weak,)),
                strong@.len() == i,
                forall|j: int|
                    0 <= j < i ==> counted(
                        strong_count,
                        self.registries@[j]@,
                        (#[trigger] strong@[j])@,
                    ),
        {
            strong.push(count_owners(&self.registries[i], &strong_count));
        }
        proof {
            assert forall|kind: Kind| counted(
                strong_count,
                #[trigger] self.registry(kind),
                strong@[kind.place()]@,
            ) by {
                assert(0 <= kind.place() < KINDS);
            }
        }
        strong
    }

    /// Gives the handle at `address` a slot, unless it has one.
    ///
    /// `strong` says for each slot of the kind how many owners its handle has left.
    pub fn track(&mut self, kind: Kind, address: usize, weak: W, strong: &[usize])
        requires
            old(self).wf(),
            strong@.len() == old(self).registry(kind).len(),
        ensures
            final(self).wf(),
            final(self).registry(kind) == after_track(
                old(self).registry(kind),
                strong@,
                address,
                weak,
            ),
            forall|other: Kind|
                other != kind ==> #[trigger] final(self).registry(other) == old(self).registry(
                    other,
                ),
    {
        let index = kind.index();
        let found = find(&self.registries[index], address);
        if found.is_some() {
            return ;
        }
        let vacant = find_vacant(&self.registries[index], strong);
        let slot = Slot::Given { address, weak };
        let ghost before = self.registry(kind);
        let slots = &mut self.registries[index];
        match vacant {
            Some(i) => {
                proof {
                    lemma_first_vacant_unique(before, strong@, i as int);
                }
                slots[i] = slot;
            },
            None => slots.push(slot),
        }
        proof {
            lemma_track_keeps_distinct(before, strong@, address, weak);
            assert forall|other: Kind| other != kind implies #[trigger] self.registry(other)
                == old(self).registry(other) by {
                assert(other.place() != kind.place());
            }
            assert forall|other: Kind| distinct(#[trigger] self.registry(other)) by {
                assert(distinct(old(self).registry(other)));
                if other != kind {
                    assert(self.registry(other) == old(self).registry(other));
                }
            }
        }
    }

    /// Gives the handle at `address` a slot, unless it has one, after asking for each slot of the
    /// kind how many owners its handle has left.
    pub fn track_counted<F: Fn(&W) -> usize>(
        &mut self,
        kind: Kind,
        address: usize,
        weak: W,
        strong_count: F,
    )
        requires
            old(self).wf(),
            forall|any: &W| #[trigger] strong_count.requires((any,)),
        ensures
            final(self).wf(),
            exists|strong: Seq<usize>| #[trigger]
                counted(strong_count, old(self).registry(kind), strong) && final(self).registry(
                    kind,
                ) == after_track(old(self).registry(kind), strong, address, weak),
            forall|other: Kind|
                other != kind ==> #[trigger] final(self).registry(other) == old(self).registry(
                    other,
                ),
    {
        let strong = self.strong_counts(kind, strong_count);
        self.track(kind, address, weak, &strong);
    }

    /// Gives up the slot of the handle at `address`, if it has one.
    pub fn untrack(&mut self, kind: Kind, address: usize)
        requires
            old(self).wf(),
        ensures
            final(self).wf(),
            final(self).registry(kind) == after_untrack(old(self).registry(kind), address),
            forall|other: Kind|
                other != kind ==> #[trigger] final(self).registry(other) == old(self).registry(
                    other,
                ),
    {
        let index = kind.index();
        let ghost before = self.registry(kind);
        let found = find(&self.registries[index], address);
        assert(distinct(before));
        if let Some(i) = found {
            let slots = &mut self.registries[index];
            slots[i] = Slot::Released;
        }
        proof {
            assert(self.registry(kind) =~= after_untrack(before, address));
            assert forall|other: Kind| other != kind implies #[trigger] self.registry(other)
                == old(self).registry(other) by {
                assert(other.place() != kind.place());
            }
            assert forall|other: Kind| distinct(#[trigger] self.registry(other)) by {
                assert(distinct(old(self).registry(other)));
                if other != kind {
                    assert(self.registry(other) == old(self).registry(other));
                }
            }
        }
    }

    /// Reports how many handles of each kind are left.
    ///
    /// `strong` says for each kind, by its index, and for each slot of the kind how many owners
    /// the handle of the slot has left.
    pub fn snapshot(&self, strong: &[Vec<usize>]) -> (report: WGPUGlobalReport)
        requires
            self.wf(),
            strong@.len() == KINDS,
            forall|kind: Kind|
                (#[trigger] self.registry(kind)).len() == strong@[kind.place()]@.len(),
        ensures
            forall|kind: Kind|
                reports(
                    #[trigger] report.of(kind),
                    self.registry(kind),
                    strong@[kind.place()]@,
                ),
    {
        WGPUGlobalReport {
            surfaces: self.report(Kind::Surfaces, strong),
            hub: WGPUHubReport {
                adapters: self.report(Kind::Adapters, strong),
                devices: self.report(Kind::Devices, strong),
                queues: self.report(Kind::Queues, strong),
                pipelineLayouts: self.report(Kind::PipelineLayouts, strong),
                shaderModules: self.report(Kind::ShaderModules, strong),
                bindGroupLayouts: self.report(Kind::BindGroupLayouts, strong),
                bindGroups: self.report(Kind::BindGroups, strong),
                commandBuffers: self.report(Kind::CommandBuffers, strong),
                renderBundles: self.report(Kind::RenderBundles, strong),
                renderPipelines: self.report(Kind::RenderPipelines, strong),
                computePipelines: self.report(Kind::ComputePipelines, strong),
                pipelineCaches: self.report(Kind::PipelineCaches, strong),
                querySets: self.report(Kind::QuerySets, strong),
                buffers: self.report(Kind::Buffers, strong),
                textures: self.report(Kind::Textures, strong),
                textureViews: self.report(Kind::TextureViews, strong),
                samplers: self.report(Kind::Samplers, strong),
            },
        }
    }

    /// Reports how many handles of each kind are left, after asking for each slot how many owners
    /// its handle has left.
    pub fn snapshot_counted<F: Fn(&W) -> usize>(
        &self,
        strong_count: F,
    ) -> (report: WGPUGlobalReport)
        requires
            self.wf(),
            forall|any: &W| #[trigger] strong_count.requires((any,)),
        ensures
            forall|kind: Kind|
                reports_counted(
                    strong_count,
                    #[trigger] report.of(kind),
                    self.registry(kind),
                ),
    {
        let ghost asked = strong_count;
        let strong = self.all_strong_counts(strong_count);
        proof {
            assert forall|kind: Kind| (#[trigger] self.registry(kind)).len()
                == strong@[kind.place()]@.len() by {
                assert(counted(asked, self.registry(kind), strong@[kind.place()]@));
            }
        }
        let report = self.snapshot(&strong);
        proof {
            assert forall|kind: Kind| reports_counted(
                asked,
                #[trigger] report.of(kind),
                self.registry(kind),
            ) by {
                assert(counted(asked, self.registry(kind), strong@[kind.place()]@));
            }
        }
        report
    }

    /// Reports how many handles of one kind are left.
    fn report(&self, kind: Kind, strong: &[Vec<usize>]) -> (report: WGPURegistryReport)
        requires
            self.wf(),
            strong@.len() == KINDS,
            self.registry(kind).len() == strong@[kind.place()]@.len(),
        ensures
            reports(report, self.registry(kind), strong@[kind.place()]@),
    {
        let slots = &self.registries[kind.index()];
        let counts = &strong[kind.index()];
        let mut occupied: usize = 0;
        for i in 0..slots.len()
            invariant
                slots@.len() == counts@.len(),
                occupied == occupancy(slots@.take(i as int), counts@),
                occupied <= i,
        {
            assert(slots@.take(i + 1).drop_last() =~= slots@.take(i as int));
            if slots[i].is_occupied(counts[i]) {
                occupied = occupied + 1;
            }
        }
        assert(slots@.take(slots@.len() as int) =~= slots@);
        WGPURegistryReport {
            numAllocated: occupied,
            numKeptFromUser: occupied,
            numReleasedFromUser: slots.len() - occupied,
            elementSize: core::mem::size_of::<W>(),
        }
    }
}

impl<W> Default for Tracker<W> {
    /// No handle has a slot.
    fn default() -> (tracker: Self)
        ensures
            tracker.wf(),
            forall|kind: Kind| #[trigger] tracker.registry(kind) == Seq::<Slot<W>>::empty(),
    {
        let mut registries: Vec<Vec<Slot<W>>> = Vec::new();
        for i in 0..KINDS
            invariant
                registries@.len() == i,
                forall|j: int|
                    0 <= j < i ==> (#[trigger] registries@[j])@ == Seq::<Slot<W>>::empty(),
        {
            registries.push(Vec::new());
        }
        Tracker { registries }
    }
}

/// Asks for each slot how many owners its handle has left.
///
/// A slot that was given up has no handle, and so no owners.
fn count_owners<W, F: Fn(&W) -> usize>(slots: &Vec<Slot<W>>, strong_count: &F) -> (strong: Vec<
    usize,
>)
    requires
        forall|weak: &W| #[trigger] strong_count.requires((weak,)),
    ensures
        counted(*strong_count, slots@, strong@),
{
    let mut strong: Vec<usize> = Vec::new();
    for i in 0..slots.len()
        invariant
            forall|weak: &W| #[trigger] strong_count.requires((weak,)),
            counted(*strong_count, slots@.take(i as int), strong@),
    {
        let count: usize = match &slots[i] {
            Slot::Released => 0,
            Slot::Given { weak, .. } => strong_count(weak),
        };
        strong.push(count);
        assert(slots@.take(i + 1).drop_last() =~= slots@.take(i as int));
    }
    assert(slots@.take(slots@.len() as int) =~= slots@);
    strong
}

/// The first slot that was given to the handle at `address`.
fn find<W>(slots: &Vec<Slot<W>>, address: usize) -> (index: Option<usize>)
    ensures
        match index {
            Some(i) => i < slots@.len() && slots@[i as int].refers_to(address),
            None => !refers(slots@, address),
        },
{
    for i in 0..slots.len()
        invariant
            forall|j: int| 0 <= j < i ==> !(#[trigger] slots@[j]).refers_to(address),
    {
        if slots[i].is_at(address) {
            return Some(i);
        }
    }
    None
}

/// The first slot that is not occupied.
fn find_vacant<W>(slots: &Vec<Slot<W>>, strong: &[usize]) -> (index: Option<usize>)
    requires
        strong@.len() == slots@.len(),
    ensures
        match index {
            Some(i) => first_vacant(slots@, strong@, i as int),
            None => all_occupied(slots@, strong@),
        },
{
    for i in 0..slots.len()
        invariant
            strong@.len() == slots@.len(),
            forall|j: int| 0 <= j < i ==> (#[trigger] slots@[j]).occupied(strong@[j]),
    {
        if !slots[i].is_occupied(strong[i]) {
            return Some(i);
        }
    }
    None
}

/// Unless every slot is occupied, there is a first one that is not.
proof fn lemma_first_vacant_exists<W>(slots: Seq<Slot<W>>, strong: Seq<usize>)
    requires
        !all_occupied(slots, strong),
    ensures
        first_vacant(slots, strong, choose|i: int| first_vacant(slots, strong, i)),
    decreases slots.len(),
{
    let vacant = choose|i: int| 0 <= i < slots.len() && !(#[trigger] slots[i]).occupied(strong[i]);
    let before = slots.take(vacant);
    if all_occupied(before, strong) {
        assert(first_vacant(slots, strong, vacant));
    } else {
        lemma_first_vacant_exists(before, strong);
        let first = choose|i: int| first_vacant(before, strong, i);
        assert(before.take(first) =~= slots.take(first));
        assert(first_vacant(slots, strong, first));
    }
}

/// There is only one first slot that is not occupied.
proof fn lemma_first_vacant_unique<W>(slots: Seq<Slot<W>>, strong: Seq<usize>, index: int)
    requires
        first_vacant(slots, strong, index),
    ensures
        !all_occupied(slots, strong),
        (choose|i: int| first_vacant(slots, strong, i)) == index,
{
    let other = choose|i: int| first_vacant(slots, strong, i);
    if other < index {
        assert(slots.take(index)[other] == slots[other]);
    }
    if index < other {
        assert(slots.take(other)[index] == slots[index]);
    }
}

/// Tracking a handle gives it no second slot.
proof fn lemma_track_keeps_distinct<W>(
    slots: Seq<Slot<W>>,
    strong: Seq<usize>,
    address: usize,
    weak: W,
)
    requires
        distinct(slots),
    ensures
        distinct(after_track(slots, strong, address, weak)),
{
    if !refers(slots, address) {
        if !all_occupied(slots, strong) {
            lemma_first_vacant_exists(slots, strong);
        }
        let after = after_track(slots, strong, address, weak);
        assert forall|i: int, j: int, any: usize|
            0 <= i < j < after.len() && #[trigger] after[i].refers_to(
                any,
            ) implies !#[trigger] after[j].refers_to(any) by {
            assert(i < slots.len() ==> slots[i].refers_to(any) || any == address);
            assert(j < slots.len() ==> !slots[j].refers_to(address));
            assert(!slots[i].refers_to(address));
        }
    }
}

impl<W> Slot<W> {
    /// Tells whether the slot was given to the handle at `address`.
    pub fn is_at(&self, address: usize) -> (same: bool)
        ensures
            same == self.refers_to(address),
    {
        match self {
            Slot::Released => false,
            Slot::Given { address: own, .. } => *own == address,
        }
    }

    /// Tells whether the slot refers to a handle of which `strong` owners are left.
    pub fn is_occupied(&self, strong: usize) -> (occupied: bool)
        ensures
            occupied == self.occupied(strong),
    {
        match self {
            Slot::Released => false,
            Slot::Given { .. } => strong != 0,
        }
    }
}

/// No more slots are occupied than there are.
proof fn lemma_occupancy_bounded<W>(slots: Seq<Slot<W>>, strong: Seq<usize>)
    ensures
        occupancy(slots, strong) <= slots.len(),
    decreases slots.len(),
{
    if slots.len() > 0 {
        lemma_occupancy_bounded(slots.drop_last(), strong);
    }
}

/// Occupancy depends on the owners of the handles in the slots only.
proof fn lemma_occupancy_congruent<W>(
    slots: Seq<Slot<W>>,
    strong: Seq<usize>,
    other_slots: Seq<Slot<W>>,
    other_strong: Seq<usize>,
)
    requires
        slots.len() == other_slots.len(),
        forall|i: int|
            0 <= i < slots.len() ==> (#[trigger] slots[i]).occupied(strong[i])
                == other_slots[i].occupied(other_strong[i]),
    ensures
        occupancy(slots, strong) == occupancy(other_slots, other_strong),
    decreases slots.len(),
{
    if slots.len() > 0 {
        let last = slots.len() - 1;
        assert(slots[last].occupied(strong[last]) == other_slots[last].occupied(
            other_strong[last],
        ));
        assert forall|i: int| 0 <= i < slots.drop_last().len() implies (
        #[trigger] slots.drop_last()[i]).occupied(strong[i])
            == other_slots.drop_last()[i].occupied(other_strong[i]) by {
            assert(slots[i].occupied(strong[i]) == other_slots[i].occupied(other_strong[i]));
        }
        lemma_occupancy_congruent(
            slots.drop_last(),
            strong,
            other_slots.drop_last(),
            other_strong,
        );
    }
}

/// Replacing one slot changes the occupancy by that slot alone.
proof fn lemma_occupancy_update<W>(
    slots: Seq<Slot<W>>,
    strong: Seq<usize>,
    index: int,
    slot: Slot<W>,
    own: usize,
)
    requires
        0 <= index < slots.len(),
        slots.len() == strong.len(),
    ensures
        occupancy(slots.update(index, slot), strong.update(index, own)) == occupancy(slots, strong)
            - (if slots[index].occupied(strong[index]) {
            1int
        } else {
            0int
        }) + (if slot.occupied(own) {
            1int
        } else {
            0int
        }),
    decreases slots.len(),
{
    let last = slots.len() - 1;
    let shorter = slots.drop_last();
    let after = slots.update(index, slot);
    if index == last {
        assert(after.drop_last() =~= shorter);
        lemma_occupancy_congruent(shorter, strong, shorter, strong.update(index, own));
    } else {
        let counts = strong.drop_last();
        lemma_occupancy_update(shorter, counts, index, slot, own);
        lemma_occupancy_congruent(shorter, strong, shorter, counts);
        lemma_occupancy_congruent(
            shorter.update(index, slot),
            strong.update(index, own),
            shorter.update(index, slot),
            counts.update(index, own),
        );
        assert(after.drop_last() =~= shorter.update(index, slot));
    }
}

/// Where every slot is occupied, the occupancy is the number of slots.
proof fn lemma_occupancy_full<W>(slots: Seq<Slot<W>>, strong: Seq<usize>)
    ensures
        all_occupied(slots, strong) <==> occupancy(slots, strong) == slots.len(),
    decreases slots.len(),
{
    if slots.len() > 0 {
        let last = slots.len() - 1;
        let shorter = slots.drop_last();
        lemma_occupancy_full(shorter, strong);
        lemma_occupancy_bounded(shorter, strong);
        if all_occupied(slots, strong) {
            assert(slots[last].occupied(strong[last]));
            assert forall|i: int| 0 <= i < shorter.len() implies (#[trigger] shorter[i]).occupied(
                strong[i],
            ) by {
                assert(slots[i].occupied(strong[i]));
            }
        }
        if all_occupied(shorter, strong) && slots[last].occupied(strong[last]) {
            assert forall|i: int| 0 <= i < slots.len() implies (#[trigger] slots[i]).occupied(
                strong[i],
            ) by {
                if i < last {
                    assert(shorter[i].occupied(strong[i]));
                }
            }
        }
    }
}

/// The owners that are left, by slot, once a handle with `own` owners has been given a slot.
pub open spec fn strong_after_track<W>(
    slots: Seq<Slot<W>>,
    strong: Seq<usize>,
    own: usize,
) -> Seq<usize> {
    if all_occupied(slots, strong) {
        strong.push(own)
    } else {
        strong.update(choose|index: int| first_vacant(slots, strong, index), own)
    }
}

/// A handle that had no slot is counted once it is tracked, and no other count changes. The
/// number of slots grows only if all of them were occupied.
pub proof fn law_tracking_counts_the_handle<W>(
    slots: Seq<Slot<W>>,
    strong: Seq<usize>,
    address: usize,
    weak: W,
    own: usize,
)
    requires
        slots.len() == strong.len(),
        !refers(slots, address),
        own > 0,
    ensures
        ({
            let after = after_track(slots, strong, address, weak);
            let counts = strong_after_track(slots, strong, own);
            &&& counts.len() == after.len()
            &&& occupancy(after, counts) == occupancy(slots, strong) + 1
            &&& after.len() == if occupancy(slots, strong) == slots.len() {
                slots.len() + 1
            } else {
                slots.len()
            }
        }),
{
    lemma_occupancy_full(slots, strong);
    let slot = Slot::Given { address, weak };
    if all_occupied(slots, strong) {
        let after = slots.push(slot);
        assert(after.drop_last() =~= slots);
        lemma_occupancy_congruent(slots, strong, slots, strong.push(own));
    } else {
        lemma_first_vacant_exists(slots, strong);
        let index = choose|index: int| first_vacant(slots, strong, index);
        lemma_occupancy_update(slots, strong, index, slot, own);
    }
}

/// A handle that was tracked has a slot, and tracking it again changes nothing.
pub proof fn law_tracking_twice_is_tracking_once<W>(
    slots: Seq<Slot<W>>,
    strong: Seq<usize>,
    address: usize,
    weak: W,
    later_strong: Seq<usize>,
    later_weak: W,
)
    ensures
        ({
            let once = after_track(slots, strong, address, weak);
            &&& refers(once, address)
            &&& after_track(once, later_strong, address, later_weak) == once
        }),
{
    if !refers(slots, address) {
        let once = after_track(slots, strong, address, weak);
        if all_occupied(slots, strong) {
            assert(once[slots.len() as int].refers_to(address));
        } else {
            lemma_first_vacant_exists(slots, strong);
            let index = choose|index: int| first_vacant(slots, strong, index);
            assert(once[index].refers_to(address));
        }
    }
}

/// There are never more slots than there were before or than handles are alive, the one being
/// added included.
pub proof fn law_slots_are_reused<W>(
    slots: Seq<Slot<W>>,
    strong: Seq<usize>,
    address: usize,
    weak: W,
)
    ensures
        ({
            let after = after_track(slots, strong, address, weak);
            ||| after.len() == slots.len()
            ||| after.len() == occupancy(slots, strong) + 1
        }),
{
    lemma_occupancy_full(slots, strong);
    if !refers(slots, address) && !all_occupied(slots, strong) {
        lemma_first_vacant_exists(slots, strong);
    }
}

/// Giving up a handle that is alive makes its slot count as released, though the handle lives on.
pub proof fn law_untracking_releases_the_slot<W>(
    slots: Seq<Slot<W>>,
    strong: Seq<usize>,
    index: int,
    address: usize,
)
    requires
        slots.len() == strong.len(),
        distinct(slots),
        0 <= index < slots.len(),
        slots[index].refers_to(address),
        strong[index] > 0,
    ensures
        after_untrack(slots, address).len() == slots.len(),
        occupancy(after_untrack(slots, address), strong) == occupancy(slots, strong) - 1,
        !refers(after_untrack(slots, address), address),
{
    assert(after_untrack(slots, address) =~= slots.update(index, Slot::Released));
    assert(strong.update(index, strong[index]) =~= strong);
    lemma_occupancy_update(slots, strong, index, Slot::Released, strong[index]);
}

/// Giving up a handle that has no slot changes nothing; in particular giving it up twice is
/// giving it up once.
pub proof fn law_untracking_needs_a_slot<W>(slots: Seq<Slot<W>>, address: usize)
    ensures
        !refers(slots, address) ==> after_untrack(slots, address) == slots,
        after_untrack(after_untrack(slots, address), address) == after_untrack(slots, address),
{
    if !refers(slots, address) {
        assert(after_untrack(slots, address) =~= slots);
    }
    assert(after_untrack(after_untrack(slots, address), address) =~= after_untrack(
        slots,
        address,
    ));
}

/// The slot of a handle that was given up serves the next handle: no slot is added.
pub proof fn law_given_up_slot_is_reused<W>(
    slots: Seq<Slot<W>>,
    strong: Seq<usize>,
    address: usize,
    next: usize,
    weak: W,
)
    requires
        refers(slots, address),
    ensures
        after_track(after_untrack(slots, address), strong, next, weak).len() == slots.len(),
{
    let released = after_untrack(slots, address);
    let index = choose|i: int| 0 <= i < slots.len() && (#[trigger] slots[i]).refers_to(address);
    assert(!released[index].occupied(strong[index]));
    if !refers(released, next) {
        lemma_first_vacant_exists(released, strong);
    }
}

/// Each slot is reported once, as allocated or as released, and what is allocated is what is
/// kept.
pub proof fn law_report_counts_each_slot_once<W>(
    report: WGPURegistryReport,
    slots: Seq<Slot<W>>,
    strong: Seq<usize>,
)
    requires
        reports(report, slots, strong),
    ensures
        report.numKeptFromUser == report.numAllocated,
        report.numAllocated + report.numReleasedFromUser == slots.len(),
{
}

/// Handles without owners are reported as released: tracking keeps no handle alive.
pub proof fn law_dead_handles_are_released<W>(
    report: WGPURegistryReport,
    slots: Seq<Slot<W>>,
    strong: Seq<usize>,
)
    requires
        reports(report, slots, strong),
        forall|i: int| 0 <= i < slots.len() ==> #[trigger] strong[i] == 0,
    ensures
        report.numAllocated == 0,
        report.numReleasedFromUser == slots.len(),
{
    lemma_no_occupancy(slots, strong);
}

/// Where no handle has an owner, no slot is occupied.
proof fn lemma_no_occupancy<W>(slots: Seq<Slot<W>>, strong: Seq<usize>)
    requires
        forall|i: int| 0 <= i < slots.len() ==> #[trigger] strong[i] == 0,
    ensures
        occupancy(slots, strong) == 0,
    decreases slots.len(),
{
    if slots.len() > 0 {
        assert(strong[slots.len() - 1] == 0);
        lemma_no_occupancy(slots.drop_last(), strong);
    }
}

/// As long as a tracked handle has an owner, it is reported.
pub proof fn law_live_handle_is_reported<W>(
    report: WGPURegistryReport,
    slots: Seq<Slot<W>>,
    strong: Seq<usize>,
    index: int,
    address: usize,
)
    requires
        reports(report, slots, strong),
        0 <= index < slots.len(),
        slots[index].refers_to(address),
        strong[index] > 0,
    ensures
        report.numAllocated >= 1,
{
    lemma_some_occupancy(slots, strong, index);
}

/// An occupied slot is counted.
proof fn lemma_some_occupancy<W>(slots: Seq<Slot<W>>, strong: Seq<usize>, index: int)
    requires
        0 <= index < slots.len(),
        slots[index].occupied(strong[index]),
    ensures
        occupancy(slots, strong) >= 1,
    decreases slots.len(),
{
    if index < slots.len() - 1 {
        lemma_some_occupancy(slots.drop_last(), strong, index);
    }
}

/// What happens to the handles of one kind.
pub enum Event<W> {
    /// The handle at `address` has `owners` owners from now on.
    Owners { address: usize, owners: usize },
    /// The handle at `address` is tracked.
    Track { address: usize, weak: W },
    /// The handle at `address` is given up.
    Untrack { address: usize },
}

/// The number of owners that the handle at `address` has after the events.
pub open spec fn owners_left<W>(events: Seq<Event<W>>, address: usize) -> usize
    decreases events.len(),
{
    if events.len() == 0 {
        0
    } else {
        match events.last() {
            Event::Owners { address: changed, owners } if changed == address => owners,
            _ => owners_left(events.drop_last(), address),
        }
    }
}

/// The owners that are left after the events, by slot.
pub open spec fn strong_after<W>(events: Seq<Event<W>>) -> Seq<usize> {
    owners_by_slot(slots_after(events), events)
}

/// The owners that the handles in the slots have after the events.
pub open spec fn owners_by_slot<W>(slots: Seq<Slot<W>>, events: Seq<Event<W>>) -> Seq<usize> {
    Seq::new(
        slots.len(),
        |i: int|
            match slots[i] {
                Slot::Released => 0,
                Slot::Given { address, .. } => owners_left(events, address),
            },
    )
}

/// The slots after the events, if there were none before them.
pub open spec fn slots_after<W>(events: Seq<Event<W>>) -> Seq<Slot<W>>
    decreases events.len(),
{
    if events.len() == 0 {
        Seq::empty()
    } else {
        let earlier = events.drop_last();
        let slots = slots_after(earlier);
        match events.last() {
            Event::Owners { .. } => slots,
            Event::Track { address, weak } => after_track(
                slots,
                owners_by_slot(slots, earlier),
                address,
                weak,
            ),
            Event::Untrack { address } => after_untrack(slots, address),
        }
    }
}

/// The events can happen in this order.
///
/// Whoever tracks a handle owns it. A handle that has lost its owners gets none again, and its
/// address goes to no other handle as long as a slot refers to it.
pub open spec fn possible<W>(events: Seq<Event<W>>) -> bool
    decreases events.len(),
{
    if events.len() == 0 {
        true
    } else {
        let earlier = events.drop_last();
        &&& possible(earlier)
        &&& match events.last() {
            Event::Owners { address, owners } => refers(slots_after(earlier), address)
                && owners_left(earlier, address) == 0 ==> owners == 0,
            Event::Track { address, .. } => owners_left(earlier, address) > 0,
            Event::Untrack { .. } => true,
        }
    }
}

/// The handles that were tracked, were not given up since and have had an owner ever since.
pub open spec fn live<W>(events: Seq<Event<W>>) -> Set<usize>
    decreases events.len(),
{
    if events.len() == 0 {
        Set::empty()
    } else {
        let earlier = live(events.drop_last());
        match events.last() {
            Event::Owners { address, owners } => if owners == 0 {
                earlier.remove(address)
            } else {
                earlier
            },
            Event::Track { address, .. } => earlier.insert(address),
            Event::Untrack { address } => earlier.remove(address),
        }
    }
}

/// The largest number of handles that were live at one time.
pub open spec fn peak<W>(events: Seq<Event<W>>) -> nat
    decreases events.len(),
{
    if events.len() == 0 {
        0
    } else {
        let earlier = peak(events.drop_last());
        if earlier < live(events).len() {
            live(events).len()
        } else {
            earlier
        }
    }
}

/// Each call is one event: it takes the slots from those after the earlier events to those after
/// it as well.
pub proof fn law_each_call_is_one_event<W>(events: Seq<Event<W>>, address: usize, weak: W)
    ensures
        slots_after(events.push(Event::Track { address, weak })) == after_track(
            slots_after(events),
            strong_after(events),
            address,
            weak,
        ),
        slots_after(events.push(Event::Untrack { address })) == after_untrack(
            slots_after(events),
            address,
        ),
{
    assert(events.push(Event::Track { address, weak }).drop_last() =~= events);
    assert(events.push(Event::Untrack { address }).drop_last() =~= events);
}

/// Whatever happens to the handles of one kind, those that are live are reported as allocated and
/// kept, each of them once, and there are as many slots as handles were ever live at one time.
pub proof fn law_slots_are_the_peak<W>(events: Seq<Event<W>>, report: WGPURegistryReport)
    requires
        possible(events),
        reports(report, slots_after(events), strong_after(events)),
    ensures
        report.numAllocated == live(events).len(),
        report.numKeptFromUser == live(events).len(),
        report.numAllocated + report.numReleasedFromUser == peak(events),
{
    lemma_run(events);
}

/// The largest number of live handles is reached, and never exceeded.
pub proof fn law_peak_is_the_largest_number_of_live_handles<W>(events: Seq<Event<W>>)
    ensures
        forall|k: int|
            0 <= k <= events.len() ==> live(#[trigger] events.take(k)).len() <= peak(events),
        exists|k: int|
            0 <= k <= events.len() && live(#[trigger] events.take(k)).len() == peak(events),
    decreases events.len(),
{
    let all = events.len() as int;
    assert(events.take(all) =~= events);
    if events.len() > 0 {
        let earlier = events.drop_last();
        law_peak_is_the_largest_number_of_live_handles(earlier);
        assert forall|k: int| 0 <= k <= events.len() implies live(
            #[trigger] events.take(k),
        ).len() <= peak(events) by {
            if k < events.len() {
                assert(events.take(k) =~= earlier.take(k));
            }
        }
        if peak(events) == peak(earlier) {
            let k = choose|k: int|
                0 <= k <= earlier.len() && live(#[trigger] earlier.take(k)).len() == peak(earlier);
            assert(events.take(k) =~= earlier.take(k));
        }
    }
}

/// What holds of the slots after any events.
proof fn lemma_run<W>(events: Seq<Event<W>>)
    requires
        possible(events),
    ensures
        distinct(slots_after(events)),
        live(events).finite(),
        forall|address: usize| #[trigger]
            live(events).contains(address) <==> refers(slots_after(events), address)
                && owners_left(events, address) > 0,
        occupancy(slots_after(events), strong_after(events)) == live(events).len(),
        slots_after(events).len() == peak(events),
    decreases events.len(),
{
    if events.len() > 0 {
        let earlier = events.drop_last();
        lemma_run(earlier);
        let before = slots_after(earlier);
        let strong = owners_by_slot(before, earlier);
        let slots = slots_after(events);
        match events.last() {
            Event::Owners { address, owners } => {},
            Event::Track { address, weak } => {
                lemma_track_keeps_distinct(before, strong, address, weak);
                lemma_track_refers(before, strong, address, weak);
                lemma_occupancy_full(before, strong);
                lemma_occupancy_bounded(before, strong);
                if !refers(before, address) && !all_occupied(before, strong) {
                    lemma_first_vacant_exists(before, strong);
                }
                assert forall|any: usize| #[trigger] live(events).contains(any) <==> refers(
                    slots,
                    any,
                ) && owners_left(events, any) > 0 by {
                    assert(owners_left(events, any) == owners_left(earlier, any));
                    if refers(before, any) && owners_left(earlier, any) > 0 {
                        let i = choose|i: int|
                            0 <= i < before.len() && (#[trigger] before[i]).refers_to(any);
                        assert(before[i].occupied(strong[i]));
                    }
                }
            },
            Event::Untrack { address } => {
                lemma_untrack_refers(before, address);
            },
        }
        lemma_occupancy_counts_addresses(slots, strong_after(events), live(events), events);
        lemma_occupancy_bounded(slots, strong_after(events));
    } else {
        assert(!exists|address: usize| refers(slots_after(events), address));
    }
}

/// Tracking a handle gives it a slot, and takes none from a handle that is alive.
proof fn lemma_track_refers<W>(
    slots: Seq<Slot<W>>,
    strong: Seq<usize>,
    address: usize,
    weak: W,
)
    requires
        slots.len() == strong.len(),
    ensures
        refers(after_track(slots, strong, address, weak), address),
        forall|any: usize| #[trigger]
            refers(after_track(slots, strong, address, weak), any) ==> any == address || refers(
                slots,
                any,
            ),
        forall|i: int|
            0 <= i < slots.len() && (#[trigger] slots[i]).occupied(strong[i]) ==> after_track(
                slots,
                strong,
                address,
                weak,
            )[i] == slots[i],
{
    law_tracking_twice_is_tracking_once(slots, strong, address, weak, strong, weak);
    let after = after_track(slots, strong, address, weak);
    if !refers(slots, address) && !all_occupied(slots, strong) {
        lemma_first_vacant_exists(slots, strong);
    }
    assert forall|any: usize| #[trigger] refers(after, any) implies any == address || refers(
        slots,
        any,
    ) by {
        let i = choose|i: int| 0 <= i < after.len() && (#[trigger] after[i]).refers_to(any);
        if any != address {
            assert(slots[i].refers_to(any));
        }
    }
}

/// Giving up a handle takes its slot from it and from no other.
proof fn lemma_untrack_refers<W>(slots: Seq<Slot<W>>, address: usize)
    requires
        distinct(slots),
    ensures
        distinct(after_untrack(slots, address)),
        forall|any: usize| #[trigger]
            refers(after_untrack(slots, address), any) <==> any != address && refers(slots, any),
{
    let after = after_untrack(slots, address);
    assert forall|any: usize| #[trigger] refers(after, any) <==> any != address && refers(
        slots,
        any,
    ) by {
        if refers(after, any) {
            let i = choose|i: int| 0 <= i < after.len() && (#[trigger] after[i]).refers_to(any);
            assert(slots[i].refers_to(any));
        }
        if any != address && refers(slots, any) {
            let i = choose|i: int| 0 <= i < slots.len() && (#[trigger] slots[i]).refers_to(any);
            assert(after[i].refers_to(any));
        }
    }
    assert forall|i: int, j: int, any: usize|
        0 <= i < j < after.len() && #[trigger] after[i].refers_to(
            any,
        ) implies !#[trigger] after[j].refers_to(any) by {
        assert(slots[i].refers_to(any));
        assert(!slots[j].refers_to(any));
    }
}

/// The occupied slots are as many as the handles that they refer to.
proof fn lemma_occupancy_counts_addresses<W>(
    slots: Seq<Slot<W>>,
    strong: Seq<usize>,
    addresses: Set<usize>,
    events: Seq<Event<W>>,
)
    requires
        distinct(slots),
        strong.len() >= slots.len(),
        forall|i: int|
            0 <= i < slots.len() ==> (#[trigger] slots[i] matches Slot::Given { address, .. }
                ==> strong[i] == owners_left(events, address)),
        forall|address: usize| #[trigger]
            addresses.contains(address) <==> refers(slots, address) && owners_left(events, address)
                > 0,
    ensures
        addresses.finite(),
        occupancy(slots, strong) == addresses.len(),
    decreases slots.len(),
{
    if slots.len() == 0 {
        assert(addresses =~= Set::empty());
    } else {
        let last = slots.len() - 1;
        let shorter = slots.drop_last();
        let own = slots[last];
        let rest = match own {
            Slot::Released => addresses,
            Slot::Given { address, .. } => addresses.remove(address),
        };
        assert forall|i: int| 0 <= i < shorter.len() implies (
        #[trigger] shorter[i] matches Slot::Given { address, .. } ==> strong[i] == owners_left(
            events,
            address,
        )) by {
            assert(slots[i] == shorter[i]);
        }
        assert(distinct(shorter)) by {
            assert forall|i: int, j: int, any: usize|
                0 <= i < j < shorter.len() && #[trigger] shorter[i].refers_to(
                    any,
                ) implies !#[trigger] shorter[j].refers_to(any) by {
                assert(slots[i].refers_to(any));
                assert(!slots[j].refers_to(any));
            }
        }
        assert forall|any: usize| #[trigger] rest.contains(any) <==> refers(shorter, any)
            && owners_left(events, any) > 0 by {
            if refers(shorter, any) {
                let i = choose|i: int|
                    0 <= i < shorter.len() && (#[trigger] shorter[i]).refers_to(any);
                assert(slots[i].refers_to(any));
                assert(!slots[last].refers_to(any));
            }
            if refers(slots, any) && !slots[last].refers_to(any) {
                let i = choose|i: int| 0 <= i < slots.len() && (#[trigger] slots[i]).refers_to(any);
                assert(shorter[i].refers_to(any));
            }
            assert(addresses.contains(any) <==> refers(slots, any) && owners_left(events, any) > 0);
        }
        lemma_occupancy_counts_addresses(shorter, strong, rest, events);
        match own {
            Slot::Released => {},
            Slot::Given { address, .. } => {
                assert(slots[last].refers_to(address));
                assert(refers(slots, address));
                assert(addresses.contains(address) <==> strong[last] > 0);
                if addresses.contains(address) {
                    assert(rest.insert(address) =~= addresses);
                } else {
                    assert(rest =~= addresses);
                }
            },
        }
    }
}

/// No handle has two slots of one kind.
pub proof fn law_each_handle_has_one_slot<W>(tracker: Tracker<W>, kind: Kind)
    requires
        tracker.wf(),
    ensures
        distinct(tracker.registry(kind)),
{
}

} // verus!
