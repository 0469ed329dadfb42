//! Ownership of published insert-effect controls.
//!
//! The running graph and the drum rack each own a set of effect identities.
//! A control stays registered while either owner holds its identity, so one
//! owner clearing or replacing its effects never strands the other's.

use std::collections::BTreeMap;
use vstd::prelude::*;

verus! {

/// Kinds of insert effect.
#[derive(Clone, Copy, Debug, PartialEq, Eq, Structural)]
pub enum EffectKind {
    Utility,
    Eq,
    Compressor,
    Distortion,
    Delay,
    Chorus,
    Flanger,
    Phaser,
    TremoloPan,
    Reverb,
    Crusher,
    Gate,
    Filter,
}

/// Why an effect control request was refused.
#[derive(Clone, Debug, PartialEq, Eq)]
pub struct EffectError(String);

impl View for EffectError {
    type V = Seq<char>;

    closed spec fn view(&self) -> Seq<char> {
        self.0@
    }
}

impl EffectError {
    fn new(message: &str) -> (error: EffectError)
        ensures
            error@ == message@,
    {
        EffectError(String::from_str(message))
    }

    /// The error's text.
    pub fn message(&self) -> (message: String)
        ensures
            message@ == self@,
    {
        self.0.clone()
    }
}

/// Parameters a running effect can publish, one dirty bit each.
pub const MAX_RUNTIME_PARAMETERS: usize = 32;

/// The dirty bit that announces a new bypass switch.
pub const BYPASS_DIRTY_BIT: u64 = 0x8000_0000_0000_0000;

/// The published state of one running effect: the identity it was prepared
/// for, the parameter values (as `f32` bit patterns), the bypass switch, and
/// a dirty word whose bit `i` announces a new value for parameter `i` and whose
/// top bit announces a new bypass switch. A deactivated control refuses every
/// publication.
#[derive(Clone, Copy)]
pub struct EffectControl {
    id: u64,
    kind: EffectKind,
    version: u32,
    active: bool,
    values: [u32; MAX_RUNTIME_PARAMETERS],
    bypass: bool,
    dirty: u64,
}

impl EffectControl {
    pub closed spec fn spec_id(&self) -> u64 {
        self.id
    }

    pub closed spec fn spec_kind(&self) -> EffectKind {
        self.kind
    }

    pub closed spec fn spec_version(&self) -> u32 {
        self.version
    }

    pub closed spec fn spec_active(&self) -> bool {
        self.active
    }

    pub closed spec fn spec_values(&self) -> Seq<u32> {
        self.values@
    }

    pub closed spec fn spec_bypass(&self) -> bool {
        self.bypass
    }

    pub closed spec fn spec_dirty(&self) -> u64 {
        self.dirty
    }

    /// An active control for effect `id`, with its initial parameter values
    /// and bypass switch, and nothing announced yet.
    pub fn new(id: u64, kind: EffectKind, version: u32, values: [u32; MAX_RUNTIME_PARAMETERS], bypass: bool) -> (control:
        EffectControl)
        ensures
            control.spec_id() == id,
            control.spec_kind() == kind,
            control.spec_version() == version,
            control.spec_active(),
            control.spec_values() == values@,
            control.spec_bypass() == bypass,
            control.spec_dirty() == 0,
    {
        EffectControl { id, kind, version, active: true, values, bypass, dirty: 0 }
    }

    pub fn id(&self) -> (id: u64)
        ensures
            id == self.spec_id(),
    {
        self.id
    }

    pub fn kind(&self) -> (kind: EffectKind)
        ensures
            kind == self.spec_kind(),
    {
        self.kind
    }

    pub fn version(&self) -> (version: u32)
        ensures
            version == self.spec_version(),
    {
        self.version
    }

    /// The bit pattern published for parameter `index`.
    pub fn value_bits(&self, index: usize) -> (bits: u32)
        requires
            index < MAX_RUNTIME_PARAMETERS,
        ensures
            bits == self.spec_values()[index as int],
    {
        self.values[index]
    }

    /// The published bypass switch.
    pub fn bypass(&self) -> (bypass: bool)
        ensures
            bypass == self.spec_bypass(),
    {
        self.bypass
    }

    /// Publish a bypass switch and announce it; a deactivated control is stale.
    pub fn publish_bypass(&mut self, bypass: bool) -> (result: Result<(), EffectError>)
        ensures
            old(self).spec_active() <==> result is Ok,
            result matches Err(error) ==> error@ == "effect control target is stale"@ && *final(self) == *old(self),
            result is Ok ==> final(self).spec_bypass() == bypass && final(self).spec_dirty() == (old(self).spec_dirty()
                | BYPASS_DIRTY_BIT) && final(self).spec_values() == old(self).spec_values(),
            final(self).spec_id() == old(self).spec_id() && final(self).spec_kind() == old(self).spec_kind()
                && final(self).spec_version() == old(self).spec_version() && final(self).spec_active() == old(
                self,
            ).spec_active(),
    {
        if !self.active {
            return Err(EffectError::new("effect control target is stale"));
        }
        self.bypass = bypass;
        self.dirty = self.dirty | BYPASS_DIRTY_BIT;
        Ok(())
    }

    /// Publish the bit pattern of a prepared value for parameter `index` and
    /// announce it; a deactivated control is stale, and an index past the
    /// runtime bound is refused.
    pub fn publish_value_bits(&mut self, index: usize, bits: u32) -> (result: Result<(), EffectError>)
        ensures
            result is Ok <==> old(self).spec_active() && index < MAX_RUNTIME_PARAMETERS,
            !old(self).spec_active() ==> (result matches Err(error) && error@ == "effect control target is stale"@),
            old(self).spec_active() && index >= MAX_RUNTIME_PARAMETERS ==> (result matches Err(error) && error@
                == "effect parameter exceeds runtime control bound"@),
            result is Err ==> *final(self) == *old(self),
            result is Ok ==> final(self).spec_values() == old(self).spec_values().update(index as int, bits)
                && final(self).spec_dirty() == (old(self).spec_dirty() | (1u64 << index)) && final(self).spec_bypass()
                == old(self).spec_bypass(),
            final(self).spec_id() == old(self).spec_id() && final(self).spec_kind() == old(self).spec_kind()
                && final(self).spec_version() == old(self).spec_version() && final(self).spec_active() == old(
                self,
            ).spec_active(),
    {
        if !self.active {
            return Err(EffectError::new("effect control target is stale"));
        }
        if index >= MAX_RUNTIME_PARAMETERS {
            return Err(EffectError::new("effect parameter exceeds runtime control bound"));
        }
        self.values[index] = bits;
        self.dirty = self.dirty | (1u64 << index);
        Ok(())
    }

    /// Take every announcement made since the last call, leaving none.
    pub fn take_dirty(&mut self) -> (dirty: u64)
        ensures
            dirty == old(self).spec_dirty(),
            final(self).spec_dirty() == 0,
            final(self).spec_values() == old(self).spec_values(),
            final(self).spec_bypass() == old(self).spec_bypass(),
            final(self).spec_active() == old(self).spec_active(),
            final(self).spec_id() == old(self).spec_id() && final(self).spec_kind() == old(self).spec_kind()
                && final(self).spec_version() == old(self).spec_version(),
    {
        let dirty = self.dirty;
        self.dirty = 0;
        dirty
    }

    /// Retire the control when its effect stops running: it refuses every
    /// later publication, and what was announced is dropped.
    pub fn deactivate(&mut self)
        ensures
            !final(self).spec_active(),
            final(self).spec_dirty() == 0,
            final(self).spec_values() == old(self).spec_values(),
            final(self).spec_bypass() == old(self).spec_bypass(),
            final(self).spec_id() == old(self).spec_id() && final(self).spec_kind() == old(self).spec_kind()
                && final(self).spec_version() == old(self).spec_version(),
    {
        self.active = false;
        self.dirty = 0;
    }
}

/// Setting a bit announces it: a publication leaves its bit set in the dirty
/// word until it is taken, whatever was announced before.
pub proof fn lemma_announcement_is_seen(dirty: u64, index: u64)
    requires
        index < 64,
    ensures
        (dirty | (1u64 << index)) & (1u64 << index) != 0,
        (dirty | BYPASS_DIRTY_BIT) & BYPASS_DIRTY_BIT != 0,
        (dirty | (1u64 << index)) & dirty == dirty,
{
    assert((dirty | (1u64 << index)) & (1u64 << index) != 0) by (bit_vector)
        requires
            index < 64,
    ;
    assert((dirty | 0x8000_0000_0000_0000u64) & 0x8000_0000_0000_0000u64 != 0) by (bit_vector);
    assert((dirty | (1u64 << index)) & dirty == dirty) by (bit_vector);
}

/// A published control, with the identity and schema it was prepared for.
#[derive(Debug)]
pub struct RegisteredControl<C> {
    pub id: u64,
    pub kind: EffectKind,
    pub version: u32,
    pub control: C,
}

/// A parameter value prepared for a running effect: the parameter's place in
/// the effect's schema and the bit pattern of the value it converts to.
#[derive(Clone, Copy, Debug, PartialEq, Eq, Structural)]
pub struct PreparedValue {
    pub index: usize,
    pub bits: u32,
}

/// Why publishing to `control` is refused, if it is: a retired control is
/// stale, and a parameter past the runtime bound cannot be published.
pub open spec fn publish_refusal(control: EffectControl, parameter: Option<PreparedValue>) -> Option<Seq<char>> {
    if !control.spec_active() {
        Some("effect control target is stale"@)
    } else if parameter matches Some(p) && p.index >= MAX_RUNTIME_PARAMETERS {
        Some("effect parameter exceeds runtime control bound"@)
    } else {
        None
    }
}

/// `after` is `before` with the automation value published: a prepared
/// parameter value is stored and its bit announced; without a parameter,
/// the upper half of the range turns bypass on and the bypass bit is announced.
pub open spec fn published(before: EffectControl, after: EffectControl, parameter: Option<PreparedValue>, value: u16) -> bool {
    &&& after.spec_id() == before.spec_id()
    &&& after.spec_kind() == before.spec_kind()
    &&& after.spec_version() == before.spec_version()
    &&& after.spec_active() == before.spec_active()
    &&& match parameter {
        Some(p) => {
            &&& after.spec_values() == before.spec_values().update(p.index as int, p.bits)
            &&& after.spec_dirty() == (before.spec_dirty() | (1u64 << p.index))
            &&& after.spec_bypass() == before.spec_bypass()
        },
        None => {
            &&& after.spec_values() == before.spec_values()
            &&& after.spec_dirty() == (before.spec_dirty() | BYPASS_DIRTY_BIT)
            &&& after.spec_bypass() == (value >= 32768)
        },
    }
}

/// The controls that `entries` register: a later entry for an identity
/// replaces an earlier one.
pub open spec fn control_map<C>(entries: Seq<RegisteredControl<C>>) -> Map<u64, RegisteredControl<C>>
    decreases entries.len(),
{
    if entries.len() == 0 {
        Map::empty()
    } else {
        control_map(entries.drop_last()).insert(entries.last().id, entries.last())
    }
}

/// What the hub holds: the registered controls and the two owners' identities.
pub struct HubState<C> {
    pub controls: Map<u64, RegisteredControl<C>>,
    pub graph_ids: Set<u64>,
    pub drum_ids: Set<u64>,
}

/// Published effect controls of the running graph and the drum rack.
#[derive(Debug)]
pub struct EffectControlHub<C> {
    controls: BTreeMap<u64, RegisteredControl<C>>,
    graph_ids: Vec<u64>,
    drum_ids: Vec<u64>,
}

impl<C> View for EffectControlHub<C> {
    type V = HubState<C>;

    closed spec fn view(&self) -> HubState<C> {
        HubState {
            controls: self.controls@,
            graph_ids: self.graph_ids@.to_set(),
            drum_ids: self.drum_ids@.to_set(),
        }
    }
}

/// The controls with the identities in `ids` removed.
pub open spec fn without<C>(controls: Map<u64, RegisteredControl<C>>, ids: Set<u64>) -> Map<
    u64,
    RegisteredControl<C>,
> {
    controls.remove_keys(ids)
}

/// Effect identities compare as plain integers, so the registry's map behaves as one.
proof fn lemma_identities_are_ordered()
    ensures
        vstd::laws_cmp::obeys_cmp::<u64>(),
{
    broadcast use vstd::laws_cmp::group_laws_cmp;

}

/// Whether `id` occurs in `ids`.
fn contains_id(ids: &Vec<u64>, id: u64) -> (found: bool)
    ensures
        found == ids@.contains(id),
{
    let mut i: usize = 0;
    while i < ids.len()
        invariant
            i <= ids@.len(),
            forall|k: int| 0 <= k < i ==> ids@[k] != id,
        decreases ids@.len() - i,
    {
        if ids[i] == id {
            assert(ids@[i as int] == id);
            return true;
        }
        i += 1;
    }
    false
}

/// Remove the controls of `released` identities that `kept` does not also own.
fn release_ids<C>(controls: &mut BTreeMap<u64, RegisteredControl<C>>, released: &Vec<u64>, kept: &Vec<u64>)
    ensures
        final(controls)@ == without(old(controls)@, released@.to_set().difference(kept@.to_set())),
{
    broadcast use vstd::std_specs::btree::group_btree_axioms;

    proof {
        lemma_identities_are_ordered();
    }

    let mut i: usize = 0;
    while i < released.len()
        invariant
            i <= released@.len(),
            controls@ == without(old(controls)@, released@.subrange(0, i as int).to_set().difference(kept@.to_set())),
        decreases released@.len() - i,
    {
        let id = released[i];
        if !contains_id(kept, id) {
            controls.remove(&id);
        }
        i += 1;
        proof {
            assert(released@.subrange(0, i as int).to_set() =~= released@.subrange(0, i - 1).to_set().insert(id)) by {
                assert(released@.subrange(0, i as int) =~= released@.subrange(0, i - 1).push(id));
                released@.subrange(0, i - 1).lemma_push_to_set_commute(id);
            }
            assert(controls@ =~= without(
                old(controls)@,
                released@.subrange(0, i as int).to_set().difference(kept@.to_set()),
            ));
        }
    }
    assert(released@.subrange(0, released@.len() as int) =~= released@);
}

/// The identities of `batch`, in order.
fn batch_ids<C>(batch: &Vec<RegisteredControl<C>>) -> (ids: Vec<u64>)
    ensures
        ids@.to_set() == control_map(batch@).dom(),
{
    let mut ids: Vec<u64> = Vec::new();
    let mut i: usize = 0;
    while i < batch.len()
        invariant
            i <= batch@.len(),
            ids@.to_set() == control_map(batch@.subrange(0, i as int)).dom(),
        decreases batch@.len() - i,
    {
        let ghost before = ids@;
        ids.push(batch[i].id);
        i += 1;
        proof {
            assert(batch@.subrange(0, i as int).drop_last() =~= batch@.subrange(0, i - 1));
            before.lemma_push_to_set_commute(batch@[i - 1].id);
            assert(batch@.subrange(0, i as int).last() == batch@[i - 1]);
            assert(control_map(batch@.subrange(0, i as int)).dom() =~= control_map(batch@.subrange(0, i - 1)).dom().insert(
                batch@[i - 1].id,
            ));
            assert(ids@.to_set() =~= control_map(batch@.subrange(0, i as int)).dom());
        }
    }
    assert(batch@.subrange(0, batch@.len() as int) =~= batch@);
    ids
}

/// Register every entry of `batch` in order, a later one replacing an
/// earlier one of its identity.
fn register_all<C>(controls: &mut BTreeMap<u64, RegisteredControl<C>>, batch: Vec<RegisteredControl<C>>)
    ensures
        final(controls)@ == old(controls)@.union_prefer_right(control_map(batch@)),
{
    broadcast use vstd::std_specs::btree::group_btree_axioms;

    proof {
        lemma_identities_are_ordered();
    }

    let ghost initial = batch@;
    let mut rest = batch;
    let ghost mut taken: int = 0;
    while rest.len() > 0
        invariant
            0 <= taken <= initial.len(),
            rest@ == initial.subrange(taken, initial.len() as int),
            controls@ == old(controls)@.union_prefer_right(control_map(initial.subrange(0, taken))),
        decreases rest@.len(),
    {
        let entry = rest.remove(0);
        proof {
            assert(entry == initial[taken]);
            assert(initial.subrange(0, taken + 1).drop_last() =~= initial.subrange(0, taken));
        }
        let id = entry.id;
        controls.insert(id, entry);
        proof {
            taken = taken + 1;
            assert(rest@ =~= initial.subrange(taken, initial.len() as int));
            assert(controls@ =~= old(controls)@.union_prefer_right(control_map(initial.subrange(0, taken))));
        }
    }
    assert(initial.subrange(0, initial.len() as int) =~= initial);
}

/// The hub registers exactly the identities its two owners hold.
pub open spec fn owned_exactly<C>(state: HubState<C>) -> bool {
    state.controls.dom() == state.graph_ids.union(state.drum_ids)
}

/// The hub after the graph's controls are replaced by `batch`: the graph's
/// old controls that the drums do not also own go, then `batch` is registered.
pub open spec fn graph_replaced<C>(state: HubState<C>, batch: Map<u64, RegisteredControl<C>>) -> HubState<C> {
    HubState {
        controls: without(state.controls, state.graph_ids.difference(state.drum_ids)).union_prefer_right(batch),
        graph_ids: batch.dom(),
        drum_ids: state.drum_ids,
    }
}

/// The hub after the drums' controls are replaced by `batch`.
pub open spec fn drums_replaced<C>(state: HubState<C>, batch: Map<u64, RegisteredControl<C>>) -> HubState<C> {
    HubState {
        controls: without(state.controls, state.drum_ids.difference(state.graph_ids)).union_prefer_right(batch),
        graph_ids: state.graph_ids,
        drum_ids: batch.dom(),
    }
}

/// The hub after the graph releases its controls.
pub open spec fn graph_cleared<C>(state: HubState<C>) -> HubState<C> {
    HubState {
        controls: without(state.controls, state.graph_ids.difference(state.drum_ids)),
        graph_ids: Set::empty(),
        drum_ids: state.drum_ids,
    }
}

/// The hub after the drums release their controls.
pub open spec fn drums_cleared<C>(state: HubState<C>) -> HubState<C> {
    HubState {
        controls: without(state.controls, state.drum_ids.difference(state.graph_ids)),
        graph_ids: state.graph_ids,
        drum_ids: Set::empty(),
    }
}

/// The control an automation value reaches, or why it reaches none.
pub open spec fn automation_target<C>(state: HubState<C>, id: u64, kind: EffectKind, version: u32) -> Result<
    RegisteredControl<C>,
    Seq<char>,
> {
    if !state.controls.contains_key(id) {
        Err("effect automation target is stale or missing"@)
    } else if state.controls[id].kind != kind || state.controls[id].version != version {
        Err("effect automation schema is incompatible"@)
    } else {
        Ok(state.controls[id])
    }
}

impl<C> EffectControlHub<C> {
    /// A hub with no controls.
    pub fn new() -> (hub: EffectControlHub<C>)
        ensures
            hub@.controls == Map::<u64, RegisteredControl<C>>::empty(),
            hub@.graph_ids == Set::<u64>::empty(),
            hub@.drum_ids == Set::<u64>::empty(),
            owned_exactly(hub@),
    {
        let hub = EffectControlHub { controls: BTreeMap::new(), graph_ids: Vec::new(), drum_ids: Vec::new() };
        proof {
            assert(hub@.controls =~= Map::<u64, RegisteredControl<C>>::empty());
            assert(hub@.graph_ids =~= Set::<u64>::empty());
            assert(hub@.drum_ids =~= Set::<u64>::empty());
            assert(hub@.controls.dom() =~= hub@.graph_ids.union(hub@.drum_ids));
        }
        hub
    }

    /// Make `batch` the running graph's controls.
    pub fn replace_graph(&mut self, batch: Vec<RegisteredControl<C>>)
        ensures
            final(self)@ == graph_replaced(old(self)@, control_map(batch@)),
    {
        let ids = batch_ids(&batch);
        let mut released: Vec<u64> = Vec::new();
        std::mem::swap(&mut released, &mut self.graph_ids);
        release_ids(&mut self.controls, &released, &self.drum_ids);
        register_all(&mut self.controls, batch);
        self.graph_ids = ids;
    }

    /// Make `batch` the drum rack's controls.
    pub fn replace_drums(&mut self, batch: Vec<RegisteredControl<C>>)
        ensures
            final(self)@ == drums_replaced(old(self)@, control_map(batch@)),
    {
        let ids = batch_ids(&batch);
        let mut released: Vec<u64> = Vec::new();
        std::mem::swap(&mut released, &mut self.drum_ids);
        release_ids(&mut self.controls, &released, &self.graph_ids);
        register_all(&mut self.controls, batch);
        self.drum_ids = ids;
    }

    /// Release the running graph's controls.
    pub fn clear_graph(&mut self)
        ensures
            final(self)@ == graph_cleared(old(self)@),
    {
        let mut released: Vec<u64> = Vec::new();
        std::mem::swap(&mut released, &mut self.graph_ids);
        release_ids(&mut self.controls, &released, &self.drum_ids);
        proof {
            assert(self.graph_ids@.to_set() =~= Set::<u64>::empty());
        }
    }

    /// Release the drum rack's controls.
    pub fn clear_drums(&mut self)
        ensures
            final(self)@ == drums_cleared(old(self)@),
    {
        let mut released: Vec<u64> = Vec::new();
        std::mem::swap(&mut released, &mut self.drum_ids);
        release_ids(&mut self.controls, &released, &self.graph_ids);
        proof {
            assert(self.drum_ids@.to_set() =~= Set::<u64>::empty());
        }
    }
}

impl EffectControlHub<EffectControl> {
    /// Publish an automation value to the running effect `id`, prepared for
    /// `kind` and `version`: a prepared parameter value is stored in the
    /// control, and without a parameter the upper half of the range turns
    /// bypass on. A missing identity, another schema, a retired control or a
    /// parameter past the runtime bound is refused and nothing changes.
    pub fn publish_normalized(
        &mut self,
        id: u64,
        kind: EffectKind,
        version: u32,
        parameter: Option<PreparedValue>,
        value: u16,
    ) -> (result: Result<(), EffectError>)
        ensures
            match automation_target(old(self)@, id, kind, version) {
                Err(message) => (result matches Err(error) && error@ == message) && final(self)@ == old(self)@,
                Ok(target) => match publish_refusal(target.control, parameter) {
                    Some(message) => (result matches Err(error) && error@ == message) && final(self)@ == old(self)@,
                    None => {
                        &&& result is Ok
                        &&& final(self)@.graph_ids == old(self)@.graph_ids
                        &&& final(self)@.drum_ids == old(self)@.drum_ids
                        &&& final(self)@.controls.dom() == old(self)@.controls.dom()
                        &&& forall|other: u64| #[trigger]
                            old(self)@.controls.contains_key(other) && other != id ==> final(self)@.controls[other]
                                == old(self)@.controls[other]
                        &&& final(self)@.controls[id].id == id
                        &&& final(self)@.controls[id].kind == target.kind
                        &&& final(self)@.controls[id].version == target.version
                        &&& published(target.control, final(self)@.controls[id].control, parameter, value)
                    },
                },
            },
    {
        broadcast use vstd::std_specs::btree::group_btree_axioms;

    proof {
        lemma_identities_are_ordered();
    }

        let (entry_kind, entry_version, mut control) = match self.controls.get(&id) {
            Some(entry) => (entry.kind, entry.version, entry.control),
            None => {
                return Err(EffectError::new("effect automation target is stale or missing"));
            },
        };
        if entry_kind != kind || entry_version != version {
            return Err(EffectError::new("effect automation schema is incompatible"));
        }
        let outcome = match parameter {
            Some(prepared) => control.publish_value_bits(prepared.index, prepared.bits),
            None => control.publish_bypass(value >= 32768),
        };
        match outcome {
            Err(error) => {
                return Err(error);
            },
            Ok(()) => {},
        }
        self.controls.insert(id, RegisteredControl { id, kind: entry_kind, version: entry_version, control });
        Ok(())
    }
}

impl<C> Default for EffectControlHub<C> {
    fn default() -> (hub: EffectControlHub<C>)
        ensures
            hub@.controls == Map::<u64, RegisteredControl<C>>::empty(),
            hub@.graph_ids == Set::<u64>::empty(),
            hub@.drum_ids == Set::<u64>::empty(),
    {
        EffectControlHub::new()
    }
}

/// Every operation keeps the hub registering exactly what its owners hold.
pub proof fn lemma_ownership_is_kept<C>(state: HubState<C>, batch: Map<u64, RegisteredControl<C>>)
    requires
        owned_exactly(state),
    ensures
        owned_exactly(graph_replaced(state, batch)),
        owned_exactly(drums_replaced(state, batch)),
        owned_exactly(graph_cleared(state)),
        owned_exactly(drums_cleared(state)),
{
    assert(graph_replaced(state, batch).controls.dom() =~= batch.dom().union(state.drum_ids));
    assert(drums_replaced(state, batch).controls.dom() =~= state.graph_ids.union(batch.dom()));
    assert(graph_cleared(state).controls.dom() =~= Set::<u64>::empty().union(state.drum_ids));
    assert(drums_cleared(state).controls.dom() =~= state.graph_ids.union(Set::<u64>::empty()));
}

/// The graph and the drums release their controls independently: clearing
/// one owner leaves every control of the other registered and unchanged,
/// and clearing both leaves nothing registered.
pub proof fn lemma_owners_clear_independently<C>(state: HubState<C>)
    requires
        owned_exactly(state),
    ensures
        graph_cleared(state).controls.dom() == state.drum_ids,
        drums_cleared(state).controls.dom() == state.graph_ids,
        forall|id: u64| #[trigger]
            state.drum_ids.contains(id) ==> graph_cleared(state).controls[id] == state.controls[id],
        forall|id: u64| #[trigger]
            state.graph_ids.contains(id) ==> drums_cleared(state).controls[id] == state.controls[id],
        drums_cleared(graph_cleared(state)).controls == Map::<u64, RegisteredControl<C>>::empty(),
{
    assert(graph_cleared(state).controls.dom() =~= state.drum_ids);
    assert(drums_cleared(state).controls.dom() =~= state.graph_ids);
    assert(drums_cleared(graph_cleared(state)).controls =~= Map::<u64, RegisteredControl<C>>::empty());
}

} // verus!
