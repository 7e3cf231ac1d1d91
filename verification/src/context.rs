//! The audio engine: playback instances, the context that owns them, and the
//! global volume cascade.
//!
//! The context keeps every instance's state in a generation-counted slot
//! table, as the design notes of the engine suggest for a registry that must
//! never own the instances it tracks. A handle ([`Audio`]) is a slot index
//! plus the generation the slot had when the instance was created; resolving
//! a handle whose instance is gone is a cheap, safe no-op. The registry used
//! by the volume cascade is an ordered sequence of such handles, appended by
//! [`AudioContext::instance`] and pruned by [`AudioContext::tick`].
//!
//! The engine runs no scheduler and touches no hardware itself: every
//! operation is a synchronous decision over this table. Where a hardware
//! voice must act, the operation returns the decision (see [`PlayEffect`])
//! and the host performs it on its platform voice.
//!
//! Mutating operations go through `&mut AudioContext`, so they are serialized
//! by construction: no caller can observe a torn pair of voice and volume,
//! and the well-formedness invariant ([`AudioContext::wf`]) holds between any
//! two operations.

use vstd::prelude::*;

use crate::audio::AudioSource;
use crate::audio::decodable;
use crate::volume::VOLUME_UNIT;
use crate::volume::clamp_volume;
use crate::volume::clamped;
use crate::volume::gain_of;

verus! {

/// No audio output device is available. Fatal to [`AudioContext::new`] and
/// not recoverable at this layer.
#[derive(Clone, Copy, Debug, PartialEq, Eq, Structural)]
pub struct DeviceError;

/// The model of one hardware voice: it exists only while its instance is
/// playing or paused, and always carries the gain last applied to it, in
/// millionths of full scale.
#[derive(Clone, Copy, Debug, PartialEq, Eq, Structural)]
pub struct Sink {
    /// The applied gain: instance volume times global volume.
    pub gain: u32,
    /// Whether the voice is suspended without being discarded.
    pub paused: bool,
}

/// The volatile per-instance playback state: the instance's own volume, the
/// global volume it last observed, and its voice, if one is active. The own
/// volume persists across stop/play cycles even while no voice exists.
#[derive(Clone, Copy, Debug)]
pub struct PlaybackState {
    pub(crate) own_volume: u32,
    pub(crate) seen_global: u32,
    pub(crate) sink: Option<Sink>,
}

impl PlaybackState {
    /// Stores a newly observed global volume and, if a voice is active,
    /// re-applies the effective gain immediately, so no stale gain is ever
    /// observable.
    pub(crate) fn update_global_volume(&mut self, value: u32)
        requires
            old(self).own_volume <= VOLUME_UNIT,
            value <= VOLUME_UNIT,
        ensures
            final(self).own_volume == old(self).own_volume,
            final(self).seen_global == value,
            final(self).sink == (match old(self).sink {
                Some(s) => Some(
                    Sink { gain: (old(self).own_volume * value) as u32, paused: s.paused },
                ),
                None => None,
            }),
    {
        self.seen_global = value;
        match self.sink {
            Some(s) => {
                self.sink = Some(Sink { gain: gain_of(self.own_volume, value), paused: s.paused });
            },
            None => {},
        }
    }
}

/// One entry of the instance table. The generation grows each time the slot
/// is reused, so handles minted for an earlier occupant resolve to nothing.
#[derive(Clone, Copy, Debug)]
struct Slot {
    generation: u64,
    handles: u64,
    state: Option<PlaybackState>,
}

/// A shareable handle to one playback instance. Copies of a handle made with
/// [`AudioContext::clone_handle`] address the same underlying state; the
/// state lives until [`AudioContext::drop_handle`] returns the last of them.
#[derive(Debug, PartialEq, Eq, Structural, Hash)]
pub struct Audio {
    index: usize,
    generation: u64,
}

/// What one call to [`Audio::play`] decided, for the host to mirror on its
/// platform voice.
#[derive(Clone, Copy, Debug, PartialEq, Eq, Structural)]
pub enum PlayEffect {
    /// A fresh voice was created: the host decodes the instance's source
    /// anew and starts a voice at this gain (millionths of full scale).
    Started { gain: u32 },
    /// The suspended voice resumes in place; no new decode happens.
    Resumed,
    /// The instance was already playing; nothing changed.
    AlreadyPlaying,
}

/// Owns the global volume and the instance table, and cascades volume
/// changes to every live instance through a registry of non-owning handles.
#[derive(Debug)]
pub struct AudioContext {
    volume: u32,
    slots: Vec<Slot>,
    sources: Vec<Vec<u8>>,
    registry: Vec<Audio>,
}

impl Slot {
    /// The invariant of one occupied or free slot under global volume
    /// `global`: a live instance has at least one handle, a clamped own
    /// volume, the current global volume, and a voice gain that is exactly
    /// the product of the two volumes; a free slot has no handles.
    spec fn inv(self, global: u32) -> bool {
        match self.state {
            Some(ps) => {
                &&& self.handles >= 1
                &&& ps.own_volume <= VOLUME_UNIT
                &&& ps.seen_global == global
                &&& match ps.sink {
                    Some(s) => s.gain == ps.own_volume * global,
                    None => true,
                }
            },
            None => self.handles == 0,
        }
    }
}

impl AudioContext {
    /// The global volume, in thousandths of full scale.
    pub closed spec fn volume_spec(&self) -> u32 {
        self.volume
    }

    /// Whether `h` still addresses a live instance: its slot exists, was not
    /// reused since `h` was minted, and is occupied.
    pub closed spec fn is_live(&self, h: Audio) -> bool {
        &&& h.index < self.slots@.len()
        &&& self.slots@[h.index as int].generation == h.generation
        &&& self.slots@[h.index as int].state is Some
    }

    /// The own volume of the instance `h`, or `0` once it is gone.
    pub closed spec fn own_volume_of(&self, h: Audio) -> u32 {
        if self.is_live(h) {
            self.slots@[h.index as int].state->Some_0.own_volume
        } else {
            0
        }
    }

    /// The voice of the instance `h`, or `None` while it is stopped or gone.
    pub closed spec fn sink_of(&self, h: Audio) -> Option<Sink> {
        if self.is_live(h) {
            self.slots@[h.index as int].state->Some_0.sink
        } else {
            None
        }
    }

    /// How many handles to the instance `h` are outstanding; `0` once it is
    /// gone.
    pub closed spec fn handle_count(&self, h: Audio) -> u64 {
        if self.is_live(h) {
            self.slots@[h.index as int].handles
        } else {
            0
        }
    }

    /// The encoded bytes the instance `h` plays, or the empty sequence once
    /// it is gone.
    pub closed spec fn source_of(&self, h: Audio) -> Seq<u8> {
        if self.is_live(h) {
            self.sources@[h.index as int]@
        } else {
            Seq::empty()
        }
    }

    /// The registry of non-owning handles the volume cascade walks, in
    /// registration order.
    pub closed spec fn registry_spec(&self) -> Seq<Audio> {
        self.registry@
    }

    /// The instance `h` is playing: it has a voice and the voice is not
    /// suspended.
    pub open spec fn playing(&self, h: Audio) -> bool {
        self.sink_of(h) matches Some(s) && !s.paused
    }

    /// The instance `h` is paused: it has a voice and the voice is
    /// suspended.
    pub open spec fn paused(&self, h: Audio) -> bool {
        self.sink_of(h) matches Some(s) && s.paused
    }

    /// Well-formedness of the whole engine: the global volume is clamped,
    /// every slot satisfies its invariant, every live instance plays
    /// validated bytes, every registry entry points into the table at a
    /// generation the slot has reached, every live instance is registered,
    /// and no two registry entries are the same handle.
    pub closed spec fn wf(&self) -> bool {
        &&& self.volume <= VOLUME_UNIT
        &&& self.sources@.len() == self.slots@.len()
        &&& forall|i: int|
            0 <= i < self.slots@.len() ==> (#[trigger] self.slots@[i]).inv(self.volume)
        &&& forall|i: int|
            0 <= i < self.slots@.len() && (#[trigger] self.slots@[i]).state is Some ==> decodable(
                self.sources@[i]@,
            )
        &&& forall|j: int|
            0 <= j < self.registry@.len() ==> (#[trigger] self.registry@[j]).index
                < self.slots@.len() && self.registry@[j].generation
                <= self.slots@[self.registry@[j].index as int].generation
        &&& forall|i: int|
            0 <= i < self.slots@.len() && (#[trigger] self.slots@[i]).state is Some
                ==> registered(self.registry@, self.slots@, i)
        &&& forall|j: int, k: int|
            0 <= j < k < self.registry@.len() ==> #[trigger] self.registry@[j]
                != #[trigger] self.registry@[k]
    }

    /// Instance `g` looks the same in `self` and in `other`.
    pub open spec fn same_instance(&self, other: &AudioContext, g: Audio) -> bool {
        &&& other.is_live(g) == self.is_live(g)
        &&& other.own_volume_of(g) == self.own_volume_of(g)
        &&& other.sink_of(g) == self.sink_of(g)
        &&& other.handle_count(g) == self.handle_count(g)
        &&& other.source_of(g) == self.source_of(g)
    }

    /// Every instance except `h` looks the same in `self` and in `other`.
    pub open spec fn same_instances_except(&self, other: &AudioContext, h: Audio) -> bool {
        &&& forall|g: Audio| g != h ==> #[trigger] other.is_live(g) == self.is_live(g)
        &&& forall|g: Audio| g != h ==> #[trigger] other.own_volume_of(g) == self.own_volume_of(g)
        &&& forall|g: Audio| g != h ==> #[trigger] other.sink_of(g) == self.sink_of(g)
        &&& forall|g: Audio| g != h ==> #[trigger] other.handle_count(g) == self.handle_count(g)
        &&& forall|g: Audio| g != h ==> #[trigger] other.source_of(g) == self.source_of(g)
    }

    /// Acquires the engine over the host's default output device. The host
    /// reports whether such a device exists; without one the context cannot
    /// be built and `DeviceError` is surfaced. A fresh context is at full
    /// global volume and tracks no instances.
    pub fn new(has_output_device: bool) -> (r: Result<AudioContext, DeviceError>)
        ensures
            match r {
                Ok(ctx) => {
                    &&& has_output_device
                    &&& ctx.wf()
                    &&& ctx.volume_spec() == VOLUME_UNIT
                    &&& ctx.registry_spec() == Seq::<Audio>::empty()
                    &&& forall|h: Audio| !(#[trigger] ctx.is_live(h))
                },
                Err(e) => !has_output_device && e == DeviceError,
            },
    {
        if has_output_device {
            Ok(
                AudioContext {
                    volume: VOLUME_UNIT,
                    slots: Vec::new(),
                    sources: Vec::new(),
                    registry: Vec::new(),
                },
            )
        } else {
            Err(DeviceError)
        }
    }

    /// The global volume, in thousandths of full scale.
    pub fn volume(&self) -> (v: u32)
        ensures
            v == self.volume_spec(),
    {
        self.volume
    }

    /// Sets the global volume, clamped into `[0, VOLUME_UNIT]`, and cascades
    /// it to every live instance: the cascade scans the registry, resolves
    /// each entry, refreshes the global volume the instance observes and,
    /// where a voice is active, re-applies the effective gain immediately.
    /// Entries whose instance is gone are skipped; removing them is
    /// [`AudioContext::tick`]'s responsibility.
    pub fn set_volume(&mut self, value: i64)
        requires
            old(self).wf(),
        ensures
            final(self).wf(),
            final(self).volume_spec() == clamped(value as int),
            final(self).registry_spec() == old(self).registry_spec(),
            forall|h: Audio| #[trigger] final(self).is_live(h) == old(self).is_live(h),
            forall|h: Audio| #[trigger] final(self).handle_count(h) == old(self).handle_count(h),
            forall|h: Audio| #[trigger] final(self).own_volume_of(h) == old(self).own_volume_of(h),
            forall|h: Audio| #[trigger] final(self).source_of(h) == old(self).source_of(h),
            forall|h: Audio|
                #[trigger] final(self).sink_of(h) == (match old(self).sink_of(h) {
                    Some(s) => Some(
                        Sink {
                            gain: (old(self).own_volume_of(h) * clamped(value as int)) as u32,
                            paused: s.paused,
                        },
                    ),
                    None => None,
                }),
    {
        let ghost pre = *old(self);
        let v = clamp_volume(value);
        self.volume = v;
        let n = self.registry.len();
        let mut j: usize = 0;
        while j < n
            invariant
                pre.wf(),
                pre == *old(self),
                v == clamped(value as int),
                j <= n,
                n == pre.registry@.len(),
                self.volume == v,
                self.registry@ == pre.registry@,
                self.sources@ == pre.sources@,
                self.slots@.len() == pre.slots@.len(),
                forall|i: int|
                    0 <= i < pre.slots@.len() ==> #[trigger] cascade_inv(
                        pre,
                        self.slots@,
                        v,
                        i,
                        j as int,
                    ),
            decreases n - j,
        {
            let idx = self.registry[j].index;
            let gen = self.registry[j].generation;
            proof {
                assert(pre.registry@[j as int].index < pre.slots@.len());
            }
            let slot = self.slots[idx];
            let ghost slots0 = self.slots@;
            if slot.generation == gen {
                match slot.state {
                    Some(ps) => {
                        proof {
                            assert(cascade_inv(pre, slots0, v, idx as int, j as int));
                            assert(pre.slots@[idx as int].state is Some);
                            assert(pre.slots@[idx as int].inv(pre.volume));
                            assert(ps.own_volume == pre.slots@[
                                idx as int
                            ].state->Some_0.own_volume);
                        }
                        let mut ps2 = ps;
                        ps2.update_global_volume(v);
                        self.slots.set(
                            idx,
                            Slot {
                                generation: slot.generation,
                                handles: slot.handles,
                                state: Some(ps2),
                            },
                        );
                        proof {
                            assert(slot_cascaded(
                                pre.slots@[idx as int],
                                self.slots@[idx as int],
                                v,
                            ));
                            lemma_cascade_update(pre, slots0, self.slots@, v, j as int);
                        }
                    },
                    None => {
                        proof {
                            lemma_cascade_skip(pre, self.slots@, v, j as int);
                        }
                    },
                }
            } else {
                proof {
                    lemma_cascade_skip(pre, self.slots@, v, j as int);
                }
            }
            j = j + 1;
        }
        proof {
            let post = *self;
            assert forall|i: int|
                0 <= i < pre.slots@.len() && (#[trigger] pre.slots@[i]).state is Some implies {
                &&& processed(pre, i, n as int)
                &&& slot_cascaded(pre.slots@[i], post.slots@[i], v)
            } by {
                assert(registered(pre.registry@, pre.slots@, i));
                let k = choose|k: int|
                    0 <= k < pre.registry@.len() && resolves_to(
                        #[trigger] pre.registry@[k],
                        pre.slots@,
                        i,
                    );
                assert(resolves_to(pre.registry@[k], pre.slots@, i));
                assert(processed(pre, i, n as int));
                assert(cascade_inv(pre, post.slots@, v, i, n as int));
            }
            assert forall|i: int| 0 <= i < post.slots@.len() implies (#[trigger] post.slots@[
                i
            ]).inv(post.volume) by {
                assert(cascade_inv(pre, post.slots@, v, i, n as int));
                assert(pre.slots@[i].inv(pre.volume));
                if pre.slots@[i].state is Some {
                    let own = pre.slots@[i].state->Some_0.own_volume;
                    assert(own * v <= 1000 * 1000) by (nonlinear_arith)
                        requires
                            own <= 1000,
                            v <= 1000,
                    ;
                }
            }
            assert forall|i: int|
                0 <= i < post.slots@.len() && (#[trigger] post.slots@[i]).state is Some
                    implies registered(post.registry@, post.slots@, i) by {
                assert(cascade_inv(pre, post.slots@, v, i, n as int));
                assert(pre.slots@[i].state is Some);
                assert(post.slots@[i].generation == pre.slots@[i].generation);
                assert(registered(pre.registry@, pre.slots@, i));
                let k = choose|k: int|
                    0 <= k < pre.registry@.len() && resolves_to(
                        #[trigger] pre.registry@[k],
                        pre.slots@,
                        i,
                    );
                assert(resolves_to(post.registry@[k], post.slots@, i));
            }
            assert forall|jj: int|
                0 <= jj < post.registry@.len() implies (#[trigger] post.registry@[jj]).index
                < post.slots@.len() && post.registry@[jj].generation <= post.slots@[post.registry@[
                jj
            ].index as int].generation by {
                assert(pre.registry@[jj].index < pre.slots@.len());
                assert(cascade_inv(pre, post.slots@, v, pre.registry@[jj].index as int, n as int));
            }
            assert forall|i: int|
                0 <= i < post.slots@.len() && (#[trigger] post.slots@[i]).state is Some
                    implies decodable(post.sources@[i]@) by {
                assert(cascade_inv(pre, post.slots@, v, i, n as int));
                assert(pre.slots@[i].state is Some);
            }
            assert forall|jj: int, kk: int|
                0 <= jj < kk < post.registry@.len() implies #[trigger] post.registry@[jj]
                != #[trigger] post.registry@[kk] by {
                assert(pre.registry@[jj] != pre.registry@[kk]);
            }
            assert forall|h: Audio| #[trigger] post.is_live(h) == pre.is_live(h) && post
                .handle_count(h) == pre.handle_count(h) && post.own_volume_of(h) == pre
                .own_volume_of(h) && post.source_of(h) == pre.source_of(h) by {
                if (h.index as int) < pre.slots@.len() {
                    assert(cascade_inv(pre, post.slots@, v, h.index as int, n as int));
                }
            }
            assert forall|h: Audio|
                #[trigger] post.sink_of(h) == (match pre.sink_of(h) {
                    Some(s) => Some(
                        Sink { gain: (pre.own_volume_of(h) * v) as u32, paused: s.paused },
                    ),
                    None => None,
                }) by {
                if (h.index as int) < pre.slots@.len() {
                    assert(cascade_inv(pre, post.slots@, v, h.index as int, n as int));
                }
            }
        }
    }

    /// Prunes the registry: every entry whose instance has been destroyed
    /// is removed; entries of live instances stay, in order. Meant to run
    /// once per frame — without it the registry grows without bound as
    /// instances are created and discarded. Nothing else changes.
    pub fn tick(&mut self)
        requires
            old(self).wf(),
        ensures
            final(self).wf(),
            final(self).volume_spec() == old(self).volume_spec(),
            forall|h: Audio| #[trigger] final(self).is_live(h) == old(self).is_live(h),
            forall|h: Audio| #[trigger] final(self).handle_count(h) == old(self).handle_count(h),
            forall|h: Audio| #[trigger] final(self).own_volume_of(h) == old(self).own_volume_of(h),
            forall|h: Audio| #[trigger] final(self).sink_of(h) == old(self).sink_of(h),
            forall|h: Audio| #[trigger] final(self).source_of(h) == old(self).source_of(h),
            final(self).registry_spec() == old(self).registry_spec().filter(
                live_handles(old(self)),
            ),
    {
        let ghost pre = *old(self);
        let mut kept: Vec<Audio> = Vec::new();
        let n = self.registry.len();
        let mut j: usize = 0;
        while j < n
            invariant
                pre.wf(),
                pre == *old(self),
                *self == pre,
                j <= n,
                n == pre.registry@.len(),
                kept@ == pre.registry@.subrange(0, j as int).filter(live_handles(&pre)),
            decreases n - j,
        {
            let idx = self.registry[j].index;
            let gen = self.registry[j].generation;
            proof {
                assert(pre.registry@[j as int].index < pre.slots@.len());
            }
            let slot = self.slots[idx];
            let live = slot.generation == gen && slot.state.is_some();
            if live {
                kept.push(Audio { index: idx, generation: gen });
            }
            proof {
                let e = pre.registry@[j as int];
                assert(live == live_handles(&pre)(e));
                reveal(Seq::filter);
                assert(pre.registry@.subrange(0, j as int + 1).drop_last() =~= pre.registry@
                    .subrange(0, j as int));
                assert(pre.registry@.subrange(0, j as int + 1).last() == e);
                if live {
                    assert(Audio { index: idx, generation: gen } == e);
                }
            }
            j = j + 1;
        }
        proof {
            assert(pre.registry@.subrange(0, n as int) =~= pre.registry@);
        }
        self.registry = kept;
        proof {
            let post = *self;
            let pred = live_handles(&pre);
            assert(post.registry@ == pre.registry@.filter(pred));
            assert forall|jj: int|
                0 <= jj < post.registry@.len() implies (#[trigger] post.registry@[jj]).index
                < post.slots@.len() && post.registry@[jj].generation <= post.slots@[post.registry@[
                jj
            ].index as int].generation by {
                pre.registry@.lemma_filter_pred(pred, jj);
                assert(pre.is_live(post.registry@[jj]));
            }
            assert forall|i: int|
                0 <= i < post.slots@.len() && (#[trigger] post.slots@[i]).state is Some
                    implies registered(post.registry@, post.slots@, i) by {
                assert(pre.slots@[i].state is Some);
                assert(registered(pre.registry@, pre.slots@, i));
                let k = choose|k: int|
                    0 <= k < pre.registry@.len() && resolves_to(
                        #[trigger] pre.registry@[k],
                        pre.slots@,
                        i,
                    );
                let e = pre.registry@[k];
                assert(pre.is_live(e));
                assert(pred(e));
                pre.registry@.lemma_filter_contains(pred, k);
                assert(post.registry@.contains(e));
                let k2 = choose|k2: int|
                    0 <= k2 < post.registry@.len() && post.registry@[k2] == e;
                assert(resolves_to(post.registry@[k2], post.slots@, i));
            }
            lemma_filter_distinct(pre.registry@, pred);
        }
    }

    /// Hands out one more handle to the live instance `h`. The new handle
    /// addresses the same underlying state, and the instance now lives until
    /// one more handle is dropped.
    pub fn clone_handle(&mut self, h: &Audio) -> (h2: Audio)
        requires
            old(self).wf(),
            old(self).is_live(*h),
            old(self).handle_count(*h) < u64::MAX,
        ensures
            final(self).wf(),
            h2 == *h,
            final(self).volume_spec() == old(self).volume_spec(),
            final(self).registry_spec() == old(self).registry_spec(),
            old(self).same_instances_except(final(self), *h),
            final(self).is_live(*h),
            final(self).handle_count(*h) == old(self).handle_count(*h) + 1,
            final(self).own_volume_of(*h) == old(self).own_volume_of(*h),
            final(self).sink_of(*h) == old(self).sink_of(*h),
            final(self).source_of(*h) == old(self).source_of(*h),
    {
        let i = h.index;
        let slot = self.slots[i];
        self.slots.set(
            i,
            Slot { generation: slot.generation, handles: slot.handles + 1, state: slot.state },
        );
        proof {
            lemma_update_one_slot(old(self), self, *h);
        }
        Audio { index: h.index, generation: h.generation }
    }

    /// Gives one handle to the live instance `h` back. When it was the last
    /// one, the instance is destroyed on the spot — its voice is released
    /// and its state freed — and the call returns `true` so the host can
    /// release its platform voice too; the registry entry stays behind as a
    /// dangling reference until the next [`AudioContext::tick`].
    pub fn drop_handle(&mut self, h: Audio) -> (released: bool)
        requires
            old(self).wf(),
            old(self).is_live(h),
        ensures
            final(self).wf(),
            final(self).volume_spec() == old(self).volume_spec(),
            final(self).registry_spec() == old(self).registry_spec(),
            old(self).same_instances_except(final(self), h),
            released == (old(self).handle_count(h) == 1),
            released ==> !final(self).is_live(h),
            !released ==> final(self).is_live(h) && final(self).handle_count(h) == old(
                self,
            ).handle_count(h) - 1 && final(self).own_volume_of(h) == old(self).own_volume_of(h)
                && final(self).sink_of(h) == old(self).sink_of(h) && final(self).source_of(h)
                == old(self).source_of(h),
    {
        let i = h.index;
        let slot = self.slots[i];
        proof {
            assert(self.slots@[i as int].inv(self.volume));
        }
        if slot.handles == 1 {
            self.slots.set(i, Slot { generation: slot.generation, handles: 0, state: None });
            self.sources.set(i, Vec::new());
            proof {
                lemma_update_one_slot(old(self), self, h);
            }
            true
        } else {
            self.slots.set(
                i,
                Slot { generation: slot.generation, handles: slot.handles - 1, state: slot.state },
            );
            proof {
                lemma_update_one_slot(old(self), self, h);
            }
            false
        }
    }

    /// Resolves a handle: whether it still addresses a live instance.
    /// Resolving a handle whose instance is gone is a cheap, safe no-op.
    pub fn has_instance(&self, h: &Audio) -> (r: bool)
        ensures
            r == self.is_live(*h),
    {
        if h.index < self.slots.len() {
            let slot = self.slots[h.index];
            slot.generation == h.generation && slot.state.is_some()
        } else {
            false
        }
    }

    /// How many entries the registry currently holds, dangling ones
    /// included. Right after a [`AudioContext::tick`] this is the number of
    /// live instances.
    pub fn registry_len(&self) -> (n: usize)
        ensures
            n == self.registry_spec().len(),
    {
        self.registry.len()
    }

    /// Looks for a slot that can be reused for a new instance: one that is
    /// free and whose generation can still grow.
    fn find_free_slot(&self) -> (r: Option<usize>)
        ensures
            match r {
                Some(i) => i < self.slots@.len() && self.slots@[i as int].state is None
                    && self.slots@[i as int].generation < u64::MAX,
                None => true,
            },
    {
        let mut i: usize = 0;
        while i < self.slots.len()
            invariant
                i <= self.slots@.len(),
            decreases self.slots@.len() - i,
        {
            let slot = self.slots[i];
            if slot.state.is_none() && slot.generation < u64::MAX {
                return Some(i);
            }
            i = i + 1;
        }
        None
    }

    /// Builds a new instance of `source`, bound to this context's device and
    /// the current global volume, and appends a non-owning reference to it
    /// to the registry. The instance starts stopped, at full own volume,
    /// with one outstanding handle. Playback does not start.
    pub fn instance(&mut self, source: &AudioSource) -> (h: Audio)
        requires
            old(self).wf(),
            source.wf(),
        ensures
            final(self).wf(),
            final(self).is_live(h),
            !old(self).is_live(h),
            final(self).handle_count(h) == 1,
            final(self).own_volume_of(h) == VOLUME_UNIT,
            final(self).sink_of(h) is None,
            final(self).source_of(h) == source@,
            final(self).volume_spec() == old(self).volume_spec(),
            old(self).same_instances_except(final(self), h),
            final(self).registry_spec() == old(self).registry_spec().push(h),
    {
        let ps = PlaybackState {
            own_volume: VOLUME_UNIT,
            seen_global: self.volume,
            sink: None,
        };
        let bytes = vstd::slice::slice_to_vec(source.as_bytes());
        let (index, generation): (usize, u64) = match self.find_free_slot() {
            Some(i) => {
                let g = self.slots[i].generation + 1;
                self.slots.set(i, Slot { generation: g, handles: 1, state: Some(ps) });
                self.sources.set(i, bytes);
                (i, g)
            },
            None => {
                let i = self.slots.len();
                self.slots.push(Slot { generation: 0, handles: 1, state: Some(ps) });
                self.sources.push(bytes);
                (i, 0)
            },
        };
        let h = Audio { index, generation };
        self.registry.push(Audio { index, generation });
        proof {
            let olds = old(self);
            assert forall|g: Audio| g != h implies #[trigger] olds.same_instance(self, g) by {
                if g.index == h.index {
                    assert(g.generation != h.generation);
                    assert(!olds.is_live(g));
                    assert(!self.is_live(g));
                } else if (g.index as int) < self.slots@.len() {
                    assert(self.slots@[g.index as int] == olds.slots@[g.index as int]);
                    assert(self.sources@[g.index as int] == olds.sources@[g.index as int]);
                } else {
                    assert(!olds.is_live(g));
                    assert(!self.is_live(g));
                }
            }
            lemma_same_instances(olds, self, h);
            assert forall|i: int|
                0 <= i < self.slots@.len() && (#[trigger] self.slots@[i]).state is Some
                    implies registered(self.registry@, self.slots@, i) by {
                if i == h.index as int {
                    assert(resolves_to(
                        self.registry@[self.registry@.len() - 1],
                        self.slots@,
                        i,
                    ));
                } else {
                    assert(olds.slots@[i].state is Some);
                    assert(registered(olds.registry@, olds.slots@, i));
                    let j = choose|j: int|
                        0 <= j < olds.registry@.len() && resolves_to(
                            #[trigger] olds.registry@[j],
                            olds.slots@,
                            i,
                        );
                    assert(resolves_to(self.registry@[j], self.slots@, i));
                }
            }
            assert forall|j: int, k: int| 0 <= j < k < self.registry@.len() implies #[trigger] self
                .registry@[j] != #[trigger] self.registry@[k] by {
                if k == self.registry@.len() - 1 {
                    assert(self.registry@[j] == olds.registry@[j]);
                    assert(olds.registry@[j].index < olds.slots@.len());
                }
            }
            assert(self.registry_spec() =~= olds.registry_spec().push(h));
        }
        h
    }
}

/// The liveness test the registry pruning keeps entries by: whether a handle
/// still addresses a live instance of `ctx`.
pub open spec fn live_handles(ctx: &AudioContext) -> spec_fn(Audio) -> bool {
    |g: Audio| ctx.is_live(g)
}

/// An element of a filtered sequence is an element of the original sequence,
/// and satisfies the predicate.
proof fn lemma_filter_elem_of(s: Seq<Audio>, pred: spec_fn(Audio) -> bool, x: Audio)
    requires
        s.filter(pred).contains(x),
    ensures
        s.contains(x),
        pred(x),
    decreases s.len(),
{
    reveal(Seq::filter);
    if s.len() > 0 {
        let s0 = s.drop_last();
        if pred(s.last()) && x == s.last() {
            assert(s[s.len() - 1] == x);
        } else {
            assert(s0.filter(pred).contains(x)) by {
                let fi = choose|fi: int|
                    0 <= fi < s.filter(pred).len() && s.filter(pred)[fi] == x;
                assert(s0.filter(pred)[fi] == x);
            }
            lemma_filter_elem_of(s0, pred, x);
            let i = choose|i: int| 0 <= i < s0.len() && s0[i] == x;
            assert(s[i] == x);
        }
    }
}

/// Filtering a sequence of pairwise-distinct elements leaves its elements
/// pairwise distinct.
proof fn lemma_filter_distinct(s: Seq<Audio>, pred: spec_fn(Audio) -> bool)
    requires
        forall|j: int, k: int| 0 <= j < k < s.len() ==> #[trigger] s[j] != #[trigger] s[k],
    ensures
        forall|j: int, k: int|
            0 <= j < k < s.filter(pred).len() ==> #[trigger] s.filter(pred)[j]
                != #[trigger] s.filter(pred)[k],
    decreases s.len(),
{
    reveal(Seq::filter);
    if s.len() > 0 {
        let s0 = s.drop_last();
        lemma_filter_distinct(s0, pred);
        if pred(s.last()) {
            assert(!s0.filter(pred).contains(s.last())) by {
                if s0.filter(pred).contains(s.last()) {
                    lemma_filter_elem_of(s0, pred, s.last());
                    let i = choose|i: int| 0 <= i < s0.len() && s0[i] == s.last();
                    assert(s[i] == s[s.len() - 1]);
                }
            }
            assert forall|j: int, k: int|
                0 <= j < k < s.filter(pred).len() implies #[trigger] s.filter(pred)[j]
                != #[trigger] s.filter(pred)[k] by {
                if k < s.filter(pred).len() - 1 {
                    assert(s.filter(pred)[j] == s0.filter(pred)[j]);
                    assert(s.filter(pred)[k] == s0.filter(pred)[k]);
                } else {
                    assert(s.filter(pred)[j] == s0.filter(pred)[j]);
                    assert(s0.filter(pred).contains(s0.filter(pred)[j]));
                    assert(s.filter(pred)[k] == s.last());
                }
            }
        }
    }
}

/// The handle `e` addresses slot `i` at the slot's current generation.
spec fn resolves_to(e: Audio, slots: Seq<Slot>, i: int) -> bool {
    e.index as int == i && e.generation == slots[i].generation
}

/// Some entry of `reg` resolves to slot `i`.
spec fn registered(reg: Seq<Audio>, slots: Seq<Slot>, i: int) -> bool {
    exists|k: int| 0 <= k < reg.len() && resolves_to(#[trigger] reg[k], slots, i)
}

/// Some registry entry among the first `j` resolves to slot `i` at the
/// generation the slot had when the cascade began.
spec fn processed(pre: AudioContext, i: int, j: int) -> bool {
    exists|k: int| 0 <= k < j && resolves_to(#[trigger] pre.registry@[k], pre.slots@, i)
}

/// Slot `s1` is slot `s0` after the global volume cascade wrote the new
/// global volume `v` into it: identity, handle count, occupancy, own volume
/// and voice suspension are untouched, while the observed global volume and
/// the voice gain are refreshed.
spec fn slot_cascaded(s0: Slot, s1: Slot, v: u32) -> bool {
    &&& s1.generation == s0.generation
    &&& s1.handles == s0.handles
    &&& match (s0.state, s1.state) {
        (Some(p0), Some(p1)) => {
            &&& p1.own_volume == p0.own_volume
            &&& p1.seen_global == v
            &&& p1.sink == (match p0.sink {
                Some(s) => Some(Sink { gain: (p0.own_volume * v) as u32, paused: s.paused }),
                None => None,
            })
        },
        (None, None) => true,
        _ => false,
    }
}

/// Mid-cascade shape of slot `i` after the first `j` registry entries were
/// visited: a live slot whose entry was visited is refreshed, every other
/// slot is untouched.
spec fn cascade_inv(pre: AudioContext, slots: Seq<Slot>, v: u32, i: int, j: int) -> bool {
    if pre.slots@[i].state is Some && processed(pre, i, j) {
        slot_cascaded(pre.slots@[i], slots[i], v)
    } else {
        slots[i] == pre.slots@[i]
    }
}

/// Visiting a registry entry that resolves to no live slot changes nothing:
/// the mid-cascade shape simply extends to one more visited entry.
proof fn lemma_cascade_skip(pre: AudioContext, slots: Seq<Slot>, v: u32, j: int)
    requires
        pre.wf(),
        0 <= j < pre.registry@.len(),
        slots.len() == pre.slots@.len(),
        forall|i: int| 0 <= i < pre.slots@.len() ==> #[trigger] cascade_inv(pre, slots, v, i, j),
        !(slots[pre.registry@[j].index as int].generation == pre.registry@[j].generation
            && slots[pre.registry@[j].index as int].state is Some),
    ensures
        forall|i: int| 0 <= i < pre.slots@.len() ==> #[trigger] cascade_inv(pre, slots, v, i, j + 1),
{
    let e = pre.registry@[j];
    assert forall|i: int| 0 <= i < pre.slots@.len() implies #[trigger] cascade_inv(
        pre,
        slots,
        v,
        i,
        j + 1,
    ) by {
        assert(cascade_inv(pre, slots, v, i, j));
        if pre.slots@[i].state is Some && processed(pre, i, j + 1) && !processed(pre, i, j) {
            let k = choose|k: int|
                0 <= k < j + 1 && resolves_to(#[trigger] pre.registry@[k], pre.slots@, i);
            assert(k == j);
            assert(e.index as int == i);
            assert(slots[i].generation == pre.slots@[i].generation && slots[i].state is Some);
            assert(false);
        }
    }
}

/// Visiting a registry entry that resolves to a live slot refreshes exactly
/// that slot: the mid-cascade shape extends to one more visited entry.
proof fn lemma_cascade_update(
    pre: AudioContext,
    slots0: Seq<Slot>,
    slots1: Seq<Slot>,
    v: u32,
    j: int,
)
    requires
        pre.wf(),
        0 <= j < pre.registry@.len(),
        slots0.len() == pre.slots@.len(),
        forall|i: int| 0 <= i < pre.slots@.len() ==> #[trigger] cascade_inv(pre, slots0, v, i, j),
        slots0[pre.registry@[j].index as int].generation == pre.registry@[j].generation,
        slots0[pre.registry@[j].index as int].state is Some,
        slots1 == slots0.update(
            pre.registry@[j].index as int,
            slots1[pre.registry@[j].index as int],
        ),
        slot_cascaded(pre.slots@[pre.registry@[j].index as int], slots1[pre.registry@[j].index as int], v),
    ensures
        forall|i: int| 0 <= i < pre.slots@.len() ==> #[trigger] cascade_inv(pre, slots1, v, i, j + 1),
{
    let e = pre.registry@[j];
    let t = e.index as int;
    assert(cascade_inv(pre, slots0, v, t, j));
    assert(pre.slots@[t].state is Some);
    assert forall|i: int| 0 <= i < pre.slots@.len() implies #[trigger] cascade_inv(
        pre,
        slots1,
        v,
        i,
        j + 1,
    ) by {
        assert(cascade_inv(pre, slots0, v, i, j));
        if i == t {
            assert(resolves_to(pre.registry@[j], pre.slots@, i));
            assert(processed(pre, i, j + 1));
        } else {
            assert(slots1[i] == slots0[i]);
            if pre.slots@[i].state is Some && processed(pre, i, j + 1) && !processed(pre, i, j) {
                let k = choose|k: int|
                    0 <= k < j + 1 && resolves_to(#[trigger] pre.registry@[k], pre.slots@, i);
                assert(k == j);
                assert(e.index as int == i);
                assert(false);
            }
        }
    }
}

/// Whenever a voice is active, the gain applied to it is exactly the
/// instance's own volume times the global volume — there is no state in
/// which a stale gain is observable.
pub proof fn lemma_active_sink_gain(ctx: &AudioContext, h: Audio)
    requires
        ctx.wf(),
        ctx.sink_of(h) is Some,
    ensures
        ctx.sink_of(h)->Some_0.gain == ctx.own_volume_of(h) * ctx.volume_spec(),
{
    assert(ctx.is_live(h));
    assert(ctx.slots@[h.index as int].inv(ctx.volume));
}

/// Every live instance plays bytes that passed the validation decode, so a
/// fresh start can always decode them again: an internal decode fault after
/// successful validation cannot arise from the engine's own state.
pub proof fn lemma_live_source_decodable(ctx: &AudioContext, h: Audio)
    requires
        ctx.wf(),
        ctx.is_live(h),
    ensures
        decodable(ctx.source_of(h)),
{
    assert(ctx.slots@[h.index as int].state is Some);
}

/// Filtering keeps a sequence whole when every element satisfies the
/// predicate.
proof fn lemma_filter_all(s: Seq<Audio>, pred: spec_fn(Audio) -> bool)
    requires
        forall|i: int| 0 <= i < s.len() ==> pred(#[trigger] s[i]),
    ensures
        s.filter(pred) == s,
    decreases s.len(),
{
    reveal(Seq::filter);
    if s.len() > 0 {
        let s0 = s.drop_last();
        assert forall|i: int| 0 <= i < s0.len() implies pred(#[trigger] s0[i]) by {
            assert(s0[i] == s[i]);
        }
        lemma_filter_all(s0, pred);
        assert(pred(s.last()));
        assert(s0.push(s.last()) =~= s);
    } else {
        assert(s.filter(pred) =~= s);
    }
}

/// Filtering a sequence in which exactly the element at `jh` fails the
/// predicate drops exactly that element.
proof fn lemma_filter_except_one(s: Seq<Audio>, pred: spec_fn(Audio) -> bool, jh: int)
    requires
        0 <= jh < s.len(),
        !pred(s[jh]),
        forall|k: int| 0 <= k < s.len() && k != jh ==> pred(#[trigger] s[k]),
    ensures
        s.filter(pred).len() == s.len() - 1,
    decreases s.len(),
{
    reveal(Seq::filter);
    let s0 = s.drop_last();
    if jh == s.len() - 1 {
        assert forall|i: int| 0 <= i < s0.len() implies pred(#[trigger] s0[i]) by {
            assert(s0[i] == s[i]);
        }
        lemma_filter_all(s0, pred);
    } else {
        assert(pred(s.last()));
        assert(s0[jh] == s[jh]);
        assert forall|k: int| 0 <= k < s0.len() && k != jh implies pred(#[trigger] s0[k]) by {
            assert(s0[k] == s[k]);
        }
        lemma_filter_except_one(s0, pred, jh);
    }
}

/// After the last handle of one instance was dropped between two prunes,
/// the next prune shrinks the registry by exactly one entry: the dangling
/// one. (`drop_handle` leaves the registry untouched, so at that point the
/// registry holds the dead instance's entry plus one live entry per
/// remaining instance.)
pub proof fn lemma_prune_removes_exactly_one(ctx: &AudioContext, h: Audio)
    requires
        ctx.wf(),
        !ctx.is_live(h),
        ctx.registry_spec().contains(h),
        forall|j: int|
            0 <= j < ctx.registry_spec().len() && ctx.registry_spec()[j] != h ==> ctx.is_live(
                #[trigger] ctx.registry_spec()[j],
            ),
    ensures
        ctx.registry_spec().filter(live_handles(ctx)).len() == ctx.registry_spec().len() - 1,
{
    let s = ctx.registry_spec();
    let pred = live_handles(ctx);
    let jh = choose|j: int| 0 <= j < s.len() && s[j] == h;
    assert forall|k: int| 0 <= k < s.len() && k != jh implies pred(#[trigger] s[k]) by {
        if s[k] == h {
            if k < jh {
                assert(ctx.registry@[k] != ctx.registry@[jh]);
            } else {
                assert(ctx.registry@[jh] != ctx.registry@[k]);
            }
        }
    }
    lemma_filter_except_one(s, pred, jh);
}

/// Instance-by-instance sameness gives the framed form of sameness that
/// callers read from postconditions.
proof fn lemma_same_instances(pre: &AudioContext, post: &AudioContext, h: Audio)
    requires
        forall|g: Audio| g != h ==> #[trigger] pre.same_instance(post, g),
    ensures
        pre.same_instances_except(post, h),
{
    assert forall|g: Audio| g != h implies #[trigger] post.is_live(g) == pre.is_live(g) by {
        assert(pre.same_instance(post, g));
    }
    assert forall|g: Audio| g != h implies #[trigger] post.own_volume_of(g) == pre.own_volume_of(
        g,
    ) by {
        assert(pre.same_instance(post, g));
    }
    assert forall|g: Audio| g != h implies #[trigger] post.sink_of(g) == pre.sink_of(g) by {
        assert(pre.same_instance(post, g));
    }
    assert forall|g: Audio| g != h implies #[trigger] post.handle_count(g) == pre.handle_count(
        g,
    ) by {
        assert(pre.same_instance(post, g));
    }
    assert forall|g: Audio| g != h implies #[trigger] post.source_of(g) == pre.source_of(g) by {
        assert(pre.same_instance(post, g));
    }
}

/// After an update that rewrites the slot of the live instance `h` in place
/// — same generation, slot invariant re-established, occupancy not invented
/// — the whole engine is well-formed again and every other instance is
/// untouched.
proof fn lemma_update_one_slot(pre: &AudioContext, post: &AudioContext, h: Audio)
    requires
        pre.wf(),
        pre.is_live(h),
        post.volume == pre.volume,
        post.registry@ == pre.registry@,
        post.sources@.len() == pre.sources@.len(),
        forall|i: int|
            0 <= i < pre.sources@.len() && i != h.index as int ==> post.sources@[i]
                == #[trigger] pre.sources@[i],
        post.slots@[h.index as int].state is Some ==> post.sources@[h.index as int]
            == pre.sources@[h.index as int],
        post.slots@ == pre.slots@.update(h.index as int, post.slots@[h.index as int]),
        post.slots@[h.index as int].generation == h.generation,
        post.slots@[h.index as int].inv(post.volume),
        post.slots@[h.index as int].state is Some ==> pre.slots@[h.index as int].state is Some,
    ensures
        post.wf(),
        pre.same_instances_except(post, h),
{
    assert forall|i: int|
        0 <= i < post.slots@.len() && (#[trigger] post.slots@[i]).state is Some
            implies registered(post.registry@, post.slots@, i) by {
        assert(pre.slots@[i].generation == post.slots@[i].generation);
        assert(pre.slots@[i].state is Some);
        assert(registered(pre.registry@, pre.slots@, i));
        let k = choose|k: int|
            0 <= k < pre.registry@.len() && resolves_to(#[trigger] pre.registry@[k], pre.slots@, i);
        assert(resolves_to(post.registry@[k], post.slots@, i));
    }
    assert forall|g: Audio| g != h implies #[trigger] pre.same_instance(post, g) by {
        if g.index == h.index {
            assert(g.generation != h.generation);
            assert(!pre.is_live(g));
            assert(!post.is_live(g));
        } else if (g.index as int) < post.slots@.len() {
            assert(post.slots@[g.index as int] == pre.slots@[g.index as int]);
        } else {
            assert(!pre.is_live(g));
            assert(!post.is_live(g));
        }
    }
    lemma_same_instances(pre, post, h);
}

impl Audio {
    /// Plays or resumes the instance. From stopped, a fresh voice is
    /// created at the effective gain (own volume times global volume) and
    /// the host is told to decode the source anew; from paused, the
    /// existing voice resumes in place with no new decode; while already
    /// playing, nothing happens at all.
    pub fn play(&self, ctx: &mut AudioContext) -> (eff: PlayEffect)
        requires
            old(ctx).wf(),
            old(ctx).is_live(*self),
        ensures
            final(ctx).wf(),
            final(ctx).is_live(*self),
            final(ctx).volume_spec() == old(ctx).volume_spec(),
            final(ctx).registry_spec() == old(ctx).registry_spec(),
            old(ctx).same_instances_except(final(ctx), *self),
            final(ctx).handle_count(*self) == old(ctx).handle_count(*self),
            final(ctx).own_volume_of(*self) == old(ctx).own_volume_of(*self),
            final(ctx).source_of(*self) == old(ctx).source_of(*self),
            match old(ctx).sink_of(*self) {
                None => eff == (PlayEffect::Started {
                    gain: (old(ctx).own_volume_of(*self) * old(ctx).volume_spec()) as u32,
                }) && final(ctx).sink_of(*self) == Some(
                    Sink {
                        gain: (old(ctx).own_volume_of(*self) * old(ctx).volume_spec()) as u32,
                        paused: false,
                    },
                ),
                Some(s) => if s.paused {
                    eff == PlayEffect::Resumed && final(ctx).sink_of(*self) == Some(
                        Sink { gain: s.gain, paused: false },
                    )
                } else {
                    eff == PlayEffect::AlreadyPlaying && final(ctx).sink_of(*self) == Some(s)
                },
            },
    {
        let i = self.index;
        let slot = ctx.slots[i];
        let ps = slot.state.unwrap();
        proof {
            assert(ctx.slots@[i as int].inv(ctx.volume));
        }
        match ps.sink {
            Some(s) => {
                if s.paused {
                    let ps2 = PlaybackState {
                        own_volume: ps.own_volume,
                        seen_global: ps.seen_global,
                        sink: Some(Sink { gain: s.gain, paused: false }),
                    };
                    ctx.slots.set(
                        i,
                        Slot {
                            generation: slot.generation,
                            handles: slot.handles,
                            state: Some(ps2),
                        },
                    );
                    proof {
                        lemma_update_one_slot(old(ctx), ctx, *self);
                    }
                    PlayEffect::Resumed
                } else {
                    PlayEffect::AlreadyPlaying
                }
            },
            None => {
                let gain = gain_of(ps.own_volume, ctx.volume);
                let ps2 = PlaybackState {
                    own_volume: ps.own_volume,
                    seen_global: ps.seen_global,
                    sink: Some(Sink { gain, paused: false }),
                };
                ctx.slots.set(
                    i,
                    Slot { generation: slot.generation, handles: slot.handles, state: Some(ps2) },
                );
                proof {
                    lemma_update_one_slot(old(ctx), ctx, *self);
                }
                PlayEffect::Started { gain }
            },
        }
    }

    /// Stops the instance: its voice, if any, is discarded. The next play
    /// decodes the source afresh. The instance's own volume persists.
    pub fn stop(&self, ctx: &mut AudioContext)
        requires
            old(ctx).wf(),
            old(ctx).is_live(*self),
        ensures
            final(ctx).wf(),
            final(ctx).is_live(*self),
            final(ctx).volume_spec() == old(ctx).volume_spec(),
            final(ctx).registry_spec() == old(ctx).registry_spec(),
            old(ctx).same_instances_except(final(ctx), *self),
            final(ctx).handle_count(*self) == old(ctx).handle_count(*self),
            final(ctx).own_volume_of(*self) == old(ctx).own_volume_of(*self),
            final(ctx).source_of(*self) == old(ctx).source_of(*self),
            final(ctx).sink_of(*self) is None,
    {
        let i = self.index;
        let slot = ctx.slots[i];
        let ps = slot.state.unwrap();
        proof {
            assert(ctx.slots@[i as int].inv(ctx.volume));
        }
        let ps2 = PlaybackState {
            own_volume: ps.own_volume,
            seen_global: ps.seen_global,
            sink: None,
        };
        ctx.slots.set(
            i,
            Slot { generation: slot.generation, handles: slot.handles, state: Some(ps2) },
        );
        proof {
            lemma_update_one_slot(old(ctx), ctx, *self);
        }
    }

    /// Pauses the instance: its voice, if any, is suspended without being
    /// discarded. Pausing a stopped instance does nothing.
    pub fn pause(&self, ctx: &mut AudioContext)
        requires
            old(ctx).wf(),
            old(ctx).is_live(*self),
        ensures
            final(ctx).wf(),
            final(ctx).is_live(*self),
            final(ctx).volume_spec() == old(ctx).volume_spec(),
            final(ctx).registry_spec() == old(ctx).registry_spec(),
            old(ctx).same_instances_except(final(ctx), *self),
            final(ctx).handle_count(*self) == old(ctx).handle_count(*self),
            final(ctx).own_volume_of(*self) == old(ctx).own_volume_of(*self),
            final(ctx).source_of(*self) == old(ctx).source_of(*self),
            final(ctx).sink_of(*self) == (match old(ctx).sink_of(*self) {
                Some(s) => Some(Sink { gain: s.gain, paused: true }),
                None => None,
            }),
    {
        let i = self.index;
        let slot = ctx.slots[i];
        let ps = slot.state.unwrap();
        proof {
            assert(ctx.slots@[i as int].inv(ctx.volume));
        }
        match ps.sink {
            Some(s) => {
                let ps2 = PlaybackState {
                    own_volume: ps.own_volume,
                    seen_global: ps.seen_global,
                    sink: Some(Sink { gain: s.gain, paused: true }),
                };
                ctx.slots.set(
                    i,
                    Slot { generation: slot.generation, handles: slot.handles, state: Some(ps2) },
                );
                proof {
                    lemma_update_one_slot(old(ctx), ctx, *self);
                }
            },
            None => {},
        }
    }

    /// Stops the instance if it is playing, and plays (or resumes) it
    /// otherwise. Returns what the play decided, or `None` when the call
    /// stopped the instance.
    pub fn toggle_play(&self, ctx: &mut AudioContext) -> (eff: Option<PlayEffect>)
        requires
            old(ctx).wf(),
            old(ctx).is_live(*self),
        ensures
            final(ctx).wf(),
            final(ctx).is_live(*self),
            final(ctx).volume_spec() == old(ctx).volume_spec(),
            final(ctx).registry_spec() == old(ctx).registry_spec(),
            old(ctx).same_instances_except(final(ctx), *self),
            final(ctx).handle_count(*self) == old(ctx).handle_count(*self),
            final(ctx).own_volume_of(*self) == old(ctx).own_volume_of(*self),
            final(ctx).source_of(*self) == old(ctx).source_of(*self),
            match old(ctx).sink_of(*self) {
                Some(s) => if s.paused {
                    eff == Some(PlayEffect::Resumed) && final(ctx).sink_of(*self) == Some(
                        Sink { gain: s.gain, paused: false },
                    )
                } else {
                    eff is None && final(ctx).sink_of(*self) is None
                },
                None => eff == Some(
                    PlayEffect::Started {
                        gain: (old(ctx).own_volume_of(*self) * old(ctx).volume_spec()) as u32,
                    },
                ) && final(ctx).sink_of(*self) == Some(
                    Sink {
                        gain: (old(ctx).own_volume_of(*self) * old(ctx).volume_spec()) as u32,
                        paused: false,
                    },
                ),
            },
    {
        if self.is_playing(ctx) {
            self.stop(ctx);
            None
        } else {
            Some(self.play(ctx))
        }
    }

    /// Whether the instance currently has an active, unsuspended voice.
    pub fn is_playing(&self, ctx: &AudioContext) -> (r: bool)
        requires
            ctx.is_live(*self),
        ensures
            r == ctx.playing(*self),
    {
        let slot = ctx.slots[self.index];
        match slot.state.unwrap().sink {
            Some(s) => !s.paused,
            None => false,
        }
    }

    /// Whether the instance currently has a suspended voice.
    pub fn is_paused(&self, ctx: &AudioContext) -> (r: bool)
        requires
            ctx.is_live(*self),
        ensures
            r == ctx.paused(*self),
    {
        let slot = ctx.slots[self.index];
        match slot.state.unwrap().sink {
            Some(s) => s.paused,
            None => false,
        }
    }

    /// The instance's own volume, in thousandths of full scale.
    pub fn volume(&self, ctx: &AudioContext) -> (v: u32)
        requires
            ctx.is_live(*self),
        ensures
            v == ctx.own_volume_of(*self),
    {
        let slot = ctx.slots[self.index];
        slot.state.unwrap().own_volume
    }

    /// The gain currently applied to the instance's voice, or `None` while
    /// no voice is active.
    pub fn applied_gain(&self, ctx: &AudioContext) -> (g: Option<u32>)
        requires
            ctx.is_live(*self),
        ensures
            g == (match ctx.sink_of(*self) {
                Some(s) => Some(s.gain),
                None => None,
            }),
    {
        let slot = ctx.slots[self.index];
        match slot.state.unwrap().sink {
            Some(s) => Some(s.gain),
            None => None,
        }
    }

    /// The encoded bytes the instance plays: those of the source it was
    /// created from. The host decodes them anew on every fresh start.
    pub fn source_bytes<'a>(&self, ctx: &'a AudioContext) -> (b: &'a Vec<u8>)
        requires
            ctx.wf(),
            ctx.is_live(*self),
        ensures
            b@ == ctx.source_of(*self),
    {
        &ctx.sources[self.index]
    }

    /// Sets the instance's own volume, clamped into `[0, VOLUME_UNIT]`. If
    /// a voice is active its gain is re-applied immediately; otherwise the
    /// value is only stored for the next play.
    pub fn set_volume(&self, ctx: &mut AudioContext, value: i64)
        requires
            old(ctx).wf(),
            old(ctx).is_live(*self),
        ensures
            final(ctx).wf(),
            final(ctx).is_live(*self),
            final(ctx).volume_spec() == old(ctx).volume_spec(),
            final(ctx).registry_spec() == old(ctx).registry_spec(),
            old(ctx).same_instances_except(final(ctx), *self),
            final(ctx).handle_count(*self) == old(ctx).handle_count(*self),
            final(ctx).source_of(*self) == old(ctx).source_of(*self),
            final(ctx).own_volume_of(*self) == clamped(value as int),
            final(ctx).sink_of(*self) == (match old(ctx).sink_of(*self) {
                Some(s) => Some(
                    Sink {
                        gain: (clamped(value as int) * old(ctx).volume_spec()) as u32,
                        paused: s.paused,
                    },
                ),
                None => None,
            }),
    {
        let v = clamp_volume(value);
        let i = self.index;
        let slot = ctx.slots[i];
        let ps = slot.state.unwrap();
        proof {
            assert(ctx.slots@[i as int].inv(ctx.volume));
        }
        let sink = match ps.sink {
            Some(s) => Some(Sink { gain: gain_of(v, ps.seen_global), paused: s.paused }),
            None => None,
        };
        let ps2 = PlaybackState { own_volume: v, seen_global: ps.seen_global, sink };
        ctx.slots.set(
            i,
            Slot { generation: slot.generation, handles: slot.handles, state: Some(ps2) },
        );
        proof {
            lemma_update_one_slot(old(ctx), ctx, *self);
        }
    }
}

} // verus!
