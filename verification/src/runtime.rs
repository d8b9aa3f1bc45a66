use vstd::prelude::*;
use crate::strmap::StrMap;
use crate::text::{strings_view, str_eq};
use crate::types::{clamp, clamp_u32, HaState};
use crate::wled::{
    compute_wled_direct_targets, compute_wled_segment_targets, is_direct_targets_for,
    is_segment_targets_for, parse_segment_index, spec_parse_segment_index, WledDirectTarget,
};
use crate::types::HaEntityRegistryEntry;
use crate::import::on_off;
use crate::import::spec_on_off;
use crate::text::{has_prefix, str_starts_with};
use crate::ws::{RegistryQuery, SUBSCRIBE_COMMAND_ID};

verus! {

/// How long a light update waits for further updates to the same light
/// before it is sent, in milliseconds, when no buffer time is configured.
pub const UPDATE_DEBOUNCE_MS: u64 = 80;

/// The transition used when none is configured, in milliseconds.
pub const DEFAULT_TRANSITION_MS: u32 = 350;

/// The longest transition sent, in milliseconds.
pub const MAX_TRANSITION_MS: u32 = 30_000;

/// The first command id the backend hands out.
pub const FIRST_COMMAND_ID: u64 = 100;

/// How a gradient is spread over a light strip.
#[derive(Clone, Copy, Debug, PartialEq, Eq, Structural)]
pub enum GradientMode {
    InterpolatedPalette,
    InterpolatedPaletteMirrored,
    RandomPixelated,
}

/// A light update that waits to be sent to Home Assistant.
///
/// `V` is the type of brightness percentages and colour coordinates, which
/// the library stores and moves without computing on them. `deadline` is
/// the time (in milliseconds on the caller's clock) from which it is due.
pub struct PendingLightUpdate<V> {
    pub on: Option<bool>,
    pub brightness_pct: Option<V>,
    pub xy_color: Option<(V, V)>,
    pub color_temp_kelvin: Option<u32>,
    pub gradient_points: Option<Vec<(V, V)>>,
    pub gradient_mode: Option<GradientMode>,
    pub deadline: Option<u64>,
}

pub struct PendingView<V> {
    pub on: Option<bool>,
    pub brightness_pct: Option<V>,
    pub xy_color: Option<(V, V)>,
    pub color_temp_kelvin: Option<u32>,
    pub gradient_points: Option<Seq<(V, V)>>,
    pub gradient_mode: Option<GradientMode>,
    pub deadline: Option<u64>,
}

impl<V> View for PendingLightUpdate<V> {
    type V = PendingView<V>;

    open spec fn view(&self) -> PendingView<V> {
        PendingView {
            on: self.on,
            brightness_pct: self.brightness_pct,
            xy_color: self.xy_color,
            color_temp_kelvin: self.color_temp_kelvin,
            gradient_points: match self.gradient_points {
                Some(v) => Some(v@),
                None => None,
            },
            gradient_mode: self.gradient_mode,
            deadline: self.deadline,
        }
    }
}

/// An update with nothing in it.
pub open spec fn empty_pending<V>() -> PendingView<V> {
    PendingView {
        on: None,
        brightness_pct: None,
        xy_color: None,
        color_temp_kelvin: None,
        gradient_points: None,
        gradient_mode: None,
        deadline: None,
    }
}

/// A copy of a list of points.
pub fn copy_points<V: Copy>(v: &Vec<(V, V)>) -> (r: Vec<(V, V)>)
    ensures
        r@ == v@,
{
    let mut r: Vec<(V, V)> = Vec::new();
    let mut i: usize = 0;
    while i < v.len()
        invariant
            i <= v.len(),
            r@ == v@.subrange(0, i as int),
        decreases v.len() - i,
    {
        r.push(v[i]);
        i += 1;
    }
    assert(v@.subrange(0, v@.len() as int) =~= v@);
    r
}

impl<V: Copy> PendingLightUpdate<V> {
    /// An update with nothing in it.
    pub fn empty() -> (p: Self)
        ensures
            p@ == empty_pending::<V>(),
    {
        PendingLightUpdate {
            on: None,
            brightness_pct: None,
            xy_color: None,
            color_temp_kelvin: None,
            gradient_points: None,
            gradient_mode: None,
            deadline: None,
        }
    }

    /// A copy of this update.
    pub fn copy(&self) -> (p: Self)
        ensures
            p@ == self@,
    {
        PendingLightUpdate {
            on: self.on,
            brightness_pct: self.brightness_pct,
            xy_color: self.xy_color,
            color_temp_kelvin: self.color_temp_kelvin,
            gradient_points: match &self.gradient_points {
                Some(v) => Some(copy_points(v)),
                None => None,
            },
            gradient_mode: self.gradient_mode,
            deadline: self.deadline,
        }
    }
}

/// The views of a map of pending updates.
pub open spec fn pending_view<V>(m: Map<Seq<char>, PendingLightUpdate<V>>) -> Map<
    Seq<char>,
    PendingView<V>,
> {
    m.map_values(|p: PendingLightUpdate<V>| p@)
}

/// The update pending for `k`, or an empty one.
pub open spec fn current<V>(m: Map<Seq<char>, PendingView<V>>, k: Seq<char>) -> PendingView<V> {
    if m.dom().contains(k) {
        m[k]
    } else {
        empty_pending()
    }
}


/// A gradient asked for by the Hue side.
pub struct GradientRequest<V> {
    pub points: Vec<(V, V)>,
    pub mode: Option<GradientMode>,
}

/// The parts of a Hue light update that are passed on to Home Assistant.
///
/// `brightness_pct` is the requested percentage, which the library stores
/// and passes on as it is (callers clamp it into `0..=100`); `mirek` is the
/// requested colour temperature.
pub struct LightUpdateRequest<V> {
    pub on: Option<bool>,
    pub brightness_pct: Option<V>,
    pub color_xy: Option<(V, V)>,
    pub mirek: Option<u16>,
    pub gradient: Option<GradientRequest<V>>,
}

pub struct LightUpdateView<V> {
    pub on: Option<bool>,
    pub brightness_pct: Option<V>,
    pub color_xy: Option<(V, V)>,
    pub mirek: Option<u16>,
    pub gradient: Option<(Seq<(V, V)>, Option<GradientMode>)>,
}

impl<V> View for LightUpdateRequest<V> {
    type V = LightUpdateView<V>;

    open spec fn view(&self) -> LightUpdateView<V> {
        LightUpdateView {
            on: self.on,
            brightness_pct: self.brightness_pct,
            color_xy: self.color_xy,
            mirek: self.mirek,
            gradient: match self.gradient {
                Some(g) => Some((g.points@, g.mode)),
                None => None,
            },
        }
    }
}

/// The gradient points an update asks for (none when it asks for no gradient).
pub open spec fn requested_points<V>(upd: LightUpdateView<V>) -> Seq<(V, V)> {
    match upd.gradient {
        Some((points, _)) => points,
        None => Seq::empty(),
    }
}

/// The gradient mode an update asks for.
pub open spec fn requested_mode<V>(upd: LightUpdateView<V>) -> Option<GradientMode> {
    match upd.gradient {
        Some((_, mode)) => mode,
        None => None,
    }
}

/// Where a light update goes.
#[derive(Clone, Copy, Debug, PartialEq, Eq, Structural)]
pub enum EnqueueRoute {
    /// A gradient fanned out over the segment lights of a WLED device, one
    /// point (the last one repeated as needed) per segment.
    Segments,
    /// A gradient kept whole for a WLED light driven directly; the Hue light
    /// takes the patch that `gradient_light_patch` gives (see
    /// `apply_gradient_patch`).
    DirectGradient,
    /// An ordinary update of one Home Assistant light.
    Plain,
}

/// The Kelvin temperature sent for a mirek value, kept within what Home
/// Assistant lights accept.
pub open spec fn mirek_to_kelvin(mirek: u16) -> u32 {
    clamp(1_000_000int / (mirek as int), 2000, 6535) as u32
}

/// An update of a single light: later values replace earlier ones, turning
/// the light off drops the brightness, colour and colour temperature it
/// held, and any gradient is dropped.
pub open spec fn spec_plain_update<V>(p: PendingView<V>, upd: LightUpdateView<V>, deadline: u64) -> PendingView<V> {
    let p1 = PendingView { deadline: Some(deadline), gradient_points: None, gradient_mode: None, ..p };
    let p2 = match upd.on {
        Some(true) => PendingView { on: Some(true), ..p1 },
        Some(false) => PendingView {
            on: Some(false),
            brightness_pct: None,
            xy_color: None,
            color_temp_kelvin: None,
            ..p1
        },
        None => p1,
    };
    let p3 = match upd.brightness_pct {
        Some(b) => PendingView { brightness_pct: Some(b), ..p2 },
        None => p2,
    };
    let p4 = match upd.color_xy {
        Some(c) => PendingView { xy_color: Some(c), ..p3 },
        None => p3,
    };
    match upd.mirek {
        Some(m) => PendingView { color_temp_kelvin: Some(mirek_to_kelvin(m)), ..p4 },
        None => p4,
    }
}

/// An update of a WLED light driven directly: the whole gradient is kept.
pub open spec fn spec_direct_update<V>(
    p: PendingView<V>,
    upd: LightUpdateView<V>,
    points: Seq<(V, V)>,
    mode: Option<GradientMode>,
    deadline: u64,
) -> PendingView<V> {
    PendingView {
        deadline: Some(deadline),
        gradient_points: Some(points),
        gradient_mode: mode,
        on: match upd.on {
            Some(o) => Some(o),
            None => p.on,
        },
        brightness_pct: match upd.brightness_pct {
            Some(b) => Some(b),
            None => p.brightness_pct,
        },
        ..p
    }
}

/// An update of one segment light of a WLED device: it takes one gradient
/// point as its colour.
pub open spec fn spec_segment_update<V>(
    p: PendingView<V>,
    upd: LightUpdateView<V>,
    point: (V, V),
    deadline: u64,
) -> PendingView<V> {
    PendingView {
        deadline: Some(deadline),
        on: match upd.on {
            Some(o) => Some(o),
            None => p.on,
        },
        brightness_pct: match upd.brightness_pct {
            Some(b) => Some(b),
            None => p.brightness_pct,
        },
        xy_color: Some(point),
        ..p
    }
}

/// The pending updates after the first `k` segment lights take their
/// gradient points: segment `i` takes point `i`, or the last point when
/// there are fewer points than segments.
pub open spec fn fanout<V>(
    m: Map<Seq<char>, PendingView<V>>,
    segs: Seq<Seq<char>>,
    points: Seq<(V, V)>,
    upd: LightUpdateView<V>,
    deadline: u64,
    k: int,
) -> Map<Seq<char>, PendingView<V>>
    decreases k,
{
    if k <= 0 {
        m
    } else {
        let m1 = fanout(m, segs, points, upd, deadline, k - 1);
        let seg = segs[k - 1];
        let point = points[if k - 1 < points.len() - 1 {
            k - 1
        } else {
            points.len() - 1
        }];
        m1.insert(seg, spec_segment_update(current(m1, seg), upd, point, deadline))
    }
}

/// The segment lights of a WLED device are all real segment entities.
pub open spec fn real_segments(segs: Seq<Seq<char>>) -> bool {
    segs.len() > 0 && forall|i: int| 0 <= i < segs.len() ==> spec_parse_segment_index(#[trigger] segs[i]) is Some
}

/// The runtime state of the Home Assistant backend: the updates waiting
/// to be sent, the WLED routing tables and the command counter.
pub struct HaBackendState<V> {
    pub next_cmd_id: u64,
    pub transition_ms: Option<u32>,
    pub update_buffer_ms: u64,
    pub pending: StrMap<PendingLightUpdate<V>>,
    pub wled_segment_targets: StrMap<Vec<String>>,
    pub wled_segment_entities: StrMap<()>,
    pub wled_direct_targets: StrMap<WledDirectTarget>,
}

impl<V> HaBackendState<V> {
    pub open spec fn wf(&self) -> bool {
        &&& self.pending.wf()
        &&& self.wled_segment_targets.wf()
        &&& self.wled_segment_entities.wf()
        &&& self.wled_direct_targets.wf()
    }

    /// The segment lights that drive the gradient of `eid`, if any.
    pub open spec fn segments_of(&self, eid: Seq<char>) -> Option<Seq<Seq<char>>> {
        if self.wled_segment_targets@.dom().contains(eid) {
            Some(strings_view(self.wled_segment_targets@[eid]@))
        } else {
            None
        }
    }

    /// Where an update of `eid` goes.
    pub open spec fn spec_route(&self, eid: Seq<char>, upd: LightUpdateView<V>) -> EnqueueRoute {
        match upd.gradient {
            Some((points, _)) => {
                if self.segments_of(eid) is Some && real_segments(self.segments_of(eid)->0)
                    && points.len() > 0 {
                    EnqueueRoute::Segments
                } else if points.len() > 0 && self.wled_direct_targets@.dom().contains(eid) {
                    EnqueueRoute::DirectGradient
                } else {
                    EnqueueRoute::Plain
                }
            },
            None => EnqueueRoute::Plain,
        }
    }

    /// The pending updates after an update of `eid` is queued.
    pub open spec fn spec_enqueue(&self, eid: Seq<char>, upd: LightUpdateView<V>, deadline: u64) -> Map<
        Seq<char>,
        PendingView<V>,
    > {
        let m = pending_view(self.pending@);
        match self.spec_route(eid, upd) {
            EnqueueRoute::Segments => {
                let segs = self.segments_of(eid)->0;
                fanout(m, segs, requested_points(upd), upd, deadline, segs.len() as int)
            },
            EnqueueRoute::DirectGradient => m.insert(
                eid,
                spec_direct_update(
                    current(m, eid),
                    upd,
                    requested_points(upd),
                    requested_mode(upd),
                    deadline,
                ),
            ),
            EnqueueRoute::Plain => m.insert(eid, spec_plain_update(current(m, eid), upd, deadline)),
        }
    }
}

impl<V: Copy> HaBackendState<V> {
    /// A backend with nothing pending, no WLED tables, and the first command
    /// id; `transition_ms` is the configured transition and
    /// `light_update_buffer_ms` the configured time an update waits for
    /// further updates (`UPDATE_DEBOUNCE_MS` when not configured).
    pub fn new(transition_ms: Option<u32>, light_update_buffer_ms: Option<u64>) -> (s: Self)
        ensures
            s.wf(),
            s.next_cmd_id == FIRST_COMMAND_ID,
            s.transition_ms == transition_ms,
            s.update_buffer_ms == (match light_update_buffer_ms {
                Some(b) => b,
                None => UPDATE_DEBOUNCE_MS,
            }),
            s.pending@ == Map::<Seq<char>, PendingLightUpdate<V>>::empty(),
            s.wled_segment_targets@ == Map::<Seq<char>, Vec<String>>::empty(),
            s.wled_segment_entities@ == Map::<Seq<char>, ()>::empty(),
            s.wled_direct_targets@ == Map::<Seq<char>, WledDirectTarget>::empty(),
    {
        HaBackendState {
            next_cmd_id: FIRST_COMMAND_ID,
            transition_ms,
            update_buffer_ms: match light_update_buffer_ms {
                Some(b) => b,
                None => UPDATE_DEBOUNCE_MS,
            },
            pending: StrMap::new(),
            wled_segment_targets: StrMap::new(),
            wled_segment_entities: StrMap::new(),
            wled_direct_targets: StrMap::new(),
        }
    }

    /// Hands out the next command id; the counter stops at `u64::MAX`.
    pub fn next_id(&mut self) -> (id: u64)
        ensures
            id == old(self).next_cmd_id,
            final(self).next_cmd_id == (if old(self).next_cmd_id == u64::MAX {
                u64::MAX
            } else {
                (old(self).next_cmd_id + 1) as u64
            }),
            final(self).transition_ms == old(self).transition_ms,
            final(self).update_buffer_ms == old(self).update_buffer_ms,
            final(self).pending == old(self).pending,
            final(self).wled_segment_targets == old(self).wled_segment_targets,
            final(self).wled_segment_entities == old(self).wled_segment_entities,
            final(self).wled_direct_targets == old(self).wled_direct_targets,
    {
        let id = self.next_cmd_id;
        self.next_cmd_id = self.next_cmd_id.saturating_add(1);
        id
    }

    /// The entities whose pending update is due at `now_ms`.
    pub fn ready_entity_ids(&self, now_ms: u64) -> (ids: Vec<String>)
        requires
            self.pending.wf(),
        ensures
            strings_view(ids@).no_duplicates(),
            forall|k: Seq<char>| #[trigger]
                strings_view(ids@).contains(k) <==> (self.pending@.dom().contains(k) && is_due(
                    self.pending@[k]@,
                    now_ms,
                )),
    {
        let ghost keys = self.pending.key_list();
        proof {
            self.pending.lemma_lists();
        }
        let mut ids: Vec<String> = Vec::new();
        let mut i: usize = 0;
        while i < self.pending.len()
            invariant
                i <= keys.len(),
                keys == self.pending.key_list(),
                keys.no_duplicates(),
                self.pending.value_list().len() == keys.len(),
                forall|j: int| 0 <= j < keys.len() ==> #[trigger] self.pending@[keys[j]] == self.pending.value_list()[j],
                forall|k: Seq<char>| #[trigger] self.pending@.dom().contains(k) <==> keys.contains(k),
                strings_view(ids@).no_duplicates(),
                forall|k: Seq<char>| #[trigger]
                    strings_view(ids@).contains(k) <==> (exists|j: int| 0 <= j < i && keys[j] == k
                        && is_due(self.pending.value_list()[j]@, now_ms)),
            decreases keys.len() - i,
        {
            let p = self.pending.value_at(i);
            let due = match p.deadline {
                Some(d) => d <= now_ms,
                None => false,
            };
            if due {
                let ghost before = strings_view(ids@);
                let k = self.pending.key_at(i).clone();
                let ghost kv = k@;
                ids.push(k);
                proof {
                    assert(strings_view(ids@) =~= before.push(kv));
                    assert(!before.contains(kv)) by {
                        if before.contains(kv) {
                            let j = choose|j: int| 0 <= j < i && keys[j] == kv && is_due(self.pending.value_list()[j]@, now_ms);
                            assert(keys[i as int] == kv);
                        }
                    }
                    assert forall|k2: Seq<char>| #[trigger]
                        strings_view(ids@).contains(k2) <==> (exists|j: int| 0 <= j < i + 1 && keys[j] == k2
                            && is_due(self.pending.value_list()[j]@, now_ms)) by {
                        let now_ids = strings_view(ids@);
                        if now_ids.contains(k2) {
                            let u = choose|u: int| 0 <= u < now_ids.len() && now_ids[u] == k2;
                            if u < before.len() {
                                assert(before[u] == k2);
                                assert(before.contains(k2));
                            } else {
                                assert(k2 == kv);
                                assert(keys[i as int] == k2);
                            }
                        }
                        if exists|j: int| 0 <= j < i + 1 && keys[j] == k2 && is_due(self.pending.value_list()[j]@, now_ms) {
                            let j = choose|j: int| 0 <= j < i + 1 && keys[j] == k2 && is_due(self.pending.value_list()[j]@, now_ms);
                            if j == i {
                                assert(now_ids[before.len() as int] == kv);
                            } else {
                                assert(before.contains(k2));
                                let u = choose|u: int| 0 <= u < before.len() && before[u] == k2;
                                assert(now_ids[u] == k2);
                            }
                        }
                    }
                }
            } else {
                proof {
                    assert forall|k2: Seq<char>| #[trigger]
                        strings_view(ids@).contains(k2) <==> (exists|j: int| 0 <= j < i + 1 && keys[j] == k2
                            && is_due(self.pending.value_list()[j]@, now_ms)) by {
                        if exists|j: int| 0 <= j < i + 1 && keys[j] == k2 && is_due(self.pending.value_list()[j]@, now_ms) {
                            let j = choose|j: int| 0 <= j < i + 1 && keys[j] == k2 && is_due(self.pending.value_list()[j]@, now_ms);
                            assert(j != i);
                        }
                    }
                }
            }
            i += 1;
        }
        proof {
            assert forall|k: Seq<char>| #[trigger]
                strings_view(ids@).contains(k) <==> (self.pending@.dom().contains(k) && is_due(
                    self.pending@[k]@,
                    now_ms,
                )) by {
                if self.pending@.dom().contains(k) && is_due(self.pending@[k]@, now_ms) {
                    let j = choose|j: int| 0 <= j < keys.len() && keys[j] == k;
                    assert(self.pending@[keys[j]] == self.pending.value_list()[j]);
                }
                if strings_view(ids@).contains(k) {
                    let j = choose|j: int| 0 <= j < i && keys[j] == k && is_due(self.pending.value_list()[j]@, now_ms);
                    assert(keys.contains(k));
                    assert(self.pending@[keys[j]] == self.pending.value_list()[j]);
                }
            }
        }
        ids
    }

    /// Removes and hands back the update pending for `k`.
    pub fn take_pending(&mut self, k: &str) -> (r: Option<PendingLightUpdate<V>>)
        requires
            old(self).wf(),
        ensures
            final(self).wf(),
            r is Some <==> old(self).pending@.dom().contains(k@),
            r matches Some(p) ==> p@ == old(self).pending@[k@]@,
            pending_view(final(self).pending@) == pending_view(old(self).pending@).remove(k@),
            final(self).next_cmd_id == old(self).next_cmd_id,
            final(self).transition_ms == old(self).transition_ms,
            final(self).update_buffer_ms == old(self).update_buffer_ms,
            final(self).wled_segment_targets == old(self).wled_segment_targets,
            final(self).wled_segment_entities == old(self).wled_segment_entities,
            final(self).wled_direct_targets == old(self).wled_direct_targets,
    {
        match self.pending.index_of(k) {
            Some(i) => {
                proof {
                    self.pending.lemma_lists();
                }
                let (_key, p) = self.pending.remove_at(i);
                assert(pending_view(self.pending@) =~= pending_view(old(self).pending@).remove(k@));
                Some(p)
            },
            None => {
                assert(pending_view(self.pending@) =~= pending_view(old(self).pending@).remove(k@));
                None
            },
        }
    }

    /// The command that sends `cmd`, the update taken for `entity_id`: a
    /// WLED gradient when a gradient waits for a directly driven WLED
    /// light; a WLED brightness when only a brightness (maybe with on/off)
    /// waits for one; else a Home Assistant service call, which takes the
    /// next command id.
    pub fn plan_light_command(&mut self, entity_id: String, cmd: PendingLightUpdate<V>) -> (c:
        LightCommand<V>)
        requires
            old(self).wf(),
        ensures
            final(self).wf(),
            final(self).transition_ms == old(self).transition_ms,
            final(self).update_buffer_ms == old(self).update_buffer_ms,
            final(self).pending == old(self).pending,
            final(self).wled_segment_targets == old(self).wled_segment_targets,
            final(self).wled_segment_entities == old(self).wled_segment_entities,
            final(self).wled_direct_targets == old(self).wled_direct_targets,
            match c {
                LightCommand::WledGradient { ip, led_count, on, brightness_pct, mode, points } => {
                    &&& old(self).wled_direct_targets@.dom().contains(entity_id@)
                    &&& cmd.gradient_points is Some
                    &&& ip@ == old(self).wled_direct_targets@[entity_id@].ip@
                    &&& led_count == old(self).wled_direct_targets@[entity_id@].led_count
                    &&& on == cmd.on
                    &&& brightness_pct == cmd.brightness_pct
                    &&& mode == cmd.gradient_mode
                    &&& points@ == cmd@.gradient_points->0
                    &&& final(self).next_cmd_id == old(self).next_cmd_id
                },
                LightCommand::WledBrightness { ip, on, brightness_pct } => {
                    &&& old(self).wled_direct_targets@.dom().contains(entity_id@)
                    &&& cmd.gradient_points is None
                    &&& cmd.brightness_pct is Some
                    &&& cmd.xy_color is None
                    &&& cmd.color_temp_kelvin is None
                    &&& ip@ == old(self).wled_direct_targets@[entity_id@].ip@
                    &&& on == cmd.on
                    &&& brightness_pct == cmd.brightness_pct
                    &&& final(self).next_cmd_id == old(self).next_cmd_id
                },
                LightCommand::CallService(call) => {
                    &&& !(old(self).wled_direct_targets@.dom().contains(entity_id@) && (
                    cmd.gradient_points is Some || (cmd.brightness_pct is Some && cmd.xy_color is None
                        && cmd.color_temp_kelvin is None)))
                    &&& call.id == old(self).next_cmd_id
                    &&& final(self).next_cmd_id == (if old(self).next_cmd_id == u64::MAX {
                        u64::MAX
                    } else {
                        (old(self).next_cmd_id + 1) as u64
                    })
                    &&& call.turn_off == (cmd.on == Some(false))
                    &&& call.entity_id@ == entity_id@
                    &&& call.brightness_pct == cmd.brightness_pct
                    &&& call.xy_color == cmd.xy_color
                    &&& call.color_temp_kelvin == cmd.color_temp_kelvin
                    &&& call.solid_effect == (old(self).wled_segment_entities@.dom().contains(
                        entity_id@,
                    ) && cmd.xy_color is Some)
                    &&& call.transition_ms == spec_transition_ms(old(self).transition_ms)
                },
            },
    {
        if let Some(points) = &cmd.gradient_points {
            if let Some(target) = self.wled_direct_targets.get(entity_id.as_str()) {
                return LightCommand::WledGradient {
                    ip: target.ip.clone(),
                    led_count: target.led_count,
                    on: cmd.on,
                    brightness_pct: cmd.brightness_pct,
                    mode: cmd.gradient_mode,
                    points: copy_points(points),
                };
            }
        }
        if let Some(target) = self.wled_direct_targets.get(entity_id.as_str()) {
            if cmd.brightness_pct.is_some() && cmd.xy_color.is_none() && cmd.color_temp_kelvin.is_none() {
                return LightCommand::WledBrightness {
                    ip: target.ip.clone(),
                    on: cmd.on,
                    brightness_pct: cmd.brightness_pct,
                };
            }
        }
        let turn_off = match cmd.on {
            Some(false) => true,
            _ => false,
        };
        let solid_effect = self.wled_segment_entities.contains_key(entity_id.as_str())
            && cmd.xy_color.is_some();
        let configured = match self.transition_ms {
            Some(t) => t,
            None => DEFAULT_TRANSITION_MS,
        };
        let transition_ms = if configured > MAX_TRANSITION_MS {
            MAX_TRANSITION_MS
        } else {
            configured
        };
        let id = self.next_id();
        LightCommand::CallService(
            ServiceCall {
                id,
                turn_off,
                entity_id,
                brightness_pct: cmd.brightness_pct,
                xy_color: cmd.xy_color,
                color_temp_kelvin: cmd.color_temp_kelvin,
                solid_effect,
                transition_ms,
            },
        )
    }

    /// What a Home Assistant event does to the Hue model: only a
    /// `state_changed` event with a new `on`/`off` state of a `light.`
    /// entity changes anything. The colour is not taken over for WLED
    /// lights driven directly, whose Hue gradient stays as last requested.
    pub fn plan_state_change(&self, event_type: &str, new_state: Option<&HaState>) -> (r: Option<
        StateChange,
    >)
        requires
            self.wled_direct_targets.wf(),
        ensures
            r is Some <==> (event_type@ == "state_changed"@ && new_state is Some && has_prefix(
                new_state->0.entity_id@,
                "light."@,
            ) && spec_on_off(new_state->0.state@) is Some),
            r matches Some(c) ==> {
                let st = new_state->0;
                &&& c.entity_id@ == st.entity_id@
                &&& c.is_on == spec_on_off(st.state@)->0
                &&& c.brightness == (match st.attributes.brightness {
                    Some(b) => BrightnessChange::Reported(b),
                    None => if c.is_on {
                        BrightnessChange::Keep
                    } else {
                        BrightnessChange::Zero
                    },
                })
                &&& c.update_color == !self.wled_direct_targets@.dom().contains(st.entity_id@)
                &&& c.mirek == st.attributes.spec_current_mirek()
            },
    {
        if !crate::text::str_eq(event_type, "state_changed") {
            return None;
        }
        let st = match new_state {
            Some(st) => st,
            None => return None,
        };
        if !str_starts_with(st.entity_id.as_str(), "light.") {
            return None;
        }
        let is_on = match on_off(st.state.as_str()) {
            Some(b) => b,
            None => return None,
        };
        let brightness = match st.attributes.brightness {
            Some(b) => BrightnessChange::Reported(b),
            None => if is_on {
                BrightnessChange::Keep
            } else {
                BrightnessChange::Zero
            },
        };
        let update_color = !self.wled_direct_targets.contains_key(st.entity_id.as_str());
        Some(
            StateChange {
                entity_id: st.entity_id.clone(),
                is_on,
                brightness,
                update_color,
                mirek: st.attributes.current_mirek(),
            },
        )
    }

    /// Loads the WLED routing tables from the Home Assistant states and
    /// entity registry (`ip_candidates[i]` being the trimmed state of
    /// `states[i]` when it reads as an IP address).
    pub fn load_wled_targets(
        &mut self,
        states: &[HaState],
        entity_registry: &[HaEntityRegistryEntry],
        ip_candidates: &[Option<String>],
    )
        requires
            old(self).wf(),
            ip_candidates@.len() == states@.len(),
        ensures
            final(self).wf(),
            is_segment_targets_for(final(self).wled_segment_targets, states@, entity_registry@),
            forall|e: Seq<char>| #[trigger]
                final(self).wled_segment_entities@.dom().contains(e) <==> exists|k: Seq<char>|
                    final(self).wled_segment_targets@.dom().contains(k) && strings_view(
                        final(self).wled_segment_targets@[k]@,
                    ).contains(e),
            is_direct_targets_for(final(self).wled_direct_targets, states@, ip_candidates@),
            final(self).next_cmd_id == old(self).next_cmd_id,
            final(self).transition_ms == old(self).transition_ms,
            final(self).update_buffer_ms == old(self).update_buffer_ms,
            final(self).pending == old(self).pending,
    {
        let targets = compute_wled_segment_targets(states, entity_registry);
        let entities = segment_entities_of(&targets);
        self.wled_segment_targets = targets;
        self.wled_segment_entities = entities;
        self.wled_direct_targets = compute_wled_direct_targets(states, ip_candidates);
    }

    /// The update pending for `k`, or an empty one.
    fn pending_for(&self, k: &str) -> (p: PendingLightUpdate<V>)
        requires
            self.pending.wf(),
        ensures
            p@ == current(pending_view(self.pending@), k@),
    {
        match self.pending.get(k) {
            Some(p) => p.copy(),
            None => PendingLightUpdate::empty(),
        }
    }

    /// Stores `p` as the update pending for `k`.
    fn store_pending(&mut self, k: String, p: PendingLightUpdate<V>)
        requires
            old(self).wf(),
        ensures
            final(self).wf(),
            pending_view(final(self).pending@) == pending_view(old(self).pending@).insert(k@, p@),
            final(self).next_cmd_id == old(self).next_cmd_id,
            final(self).transition_ms == old(self).transition_ms,
            final(self).update_buffer_ms == old(self).update_buffer_ms,
            final(self).wled_segment_targets == old(self).wled_segment_targets,
            final(self).wled_segment_entities == old(self).wled_segment_entities,
            final(self).wled_direct_targets == old(self).wled_direct_targets,
    {
        let ghost kv = k@;
        let ghost pv = p@;
        self.pending.insert(k, p);
        assert(pending_view(self.pending@) =~= pending_view(old(self).pending@).insert(kv, pv));
    }

    /// Where an update of `entity_id` goes.
    pub fn route_of(&self, entity_id: &str, upd: &LightUpdateRequest<V>) -> (r: EnqueueRoute)
        requires
            self.wf(),
        ensures
            r == self.spec_route(entity_id@, upd@),
    {
        if let Some(grad) = &upd.gradient {
            if let Some(segs) = self.wled_segment_targets.get(entity_id) {
                if all_real_segments(segs) && grad.points.len() > 0 {
                    return EnqueueRoute::Segments;
                }
            }
            if grad.points.len() > 0 && self.wled_direct_targets.contains_key(entity_id) {
                return EnqueueRoute::DirectGradient;
            }
        }
        EnqueueRoute::Plain
    }

    /// Queues a Hue light update of `entity_id`, due the configured buffer
    /// time after `now_ms`, and says where it went.
    pub fn enqueue_light_update(
        &mut self,
        entity_id: String,
        upd: &LightUpdateRequest<V>,
        now_ms: u64,
    ) -> (route: EnqueueRoute)
        requires
            old(self).wf(),
            now_ms <= u64::MAX - old(self).update_buffer_ms,
            old(self).spec_route(entity_id@, upd@) == EnqueueRoute::Plain ==> upd.mirek != Some(0u16),
        ensures
            final(self).wf(),
            route == old(self).spec_route(entity_id@, upd@),
            pending_view(final(self).pending@) == old(self).spec_enqueue(
                entity_id@,
                upd@,
                (now_ms + old(self).update_buffer_ms) as u64,
            ),
            final(self).next_cmd_id == old(self).next_cmd_id,
            final(self).transition_ms == old(self).transition_ms,
            final(self).update_buffer_ms == old(self).update_buffer_ms,
            final(self).wled_segment_targets == old(self).wled_segment_targets,
            final(self).wled_segment_entities == old(self).wled_segment_entities,
            final(self).wled_direct_targets == old(self).wled_direct_targets,
    {
        let deadline = now_ms + self.update_buffer_ms;
        let ghost eid = entity_id@;
        let ghost uv = upd@;
        let ghost route = old(self).spec_route(eid, uv);
        if let Some(grad) = &upd.gradient {
            let segs_opt: Option<Vec<String>> = match self.wled_segment_targets.get(entity_id.as_str()) {
                Some(v) => Some(crate::text::clone_strings(v)),
                None => None,
            };
            if let Some(segs) = segs_opt {
                let all_real = all_real_segments(&segs);
                if all_real && grad.points.len() > 0 {
                    assert(route == EnqueueRoute::Segments);
                    let max_idx = grad.points.len() - 1;
                    let ghost m0 = pending_view(self.pending@);
                    let ghost sv = strings_view(segs@);
                    let mut idx: usize = 0;
                    while idx < segs.len()
                        invariant
                            idx <= segs.len(),
                            sv == strings_view(segs@),
                            max_idx == grad.points@.len() - 1,
                            grad.points@.len() > 0,
                            uv == upd@,
                            self.wf(),
                            pending_view(self.pending@) == fanout(m0, sv, grad.points@, uv, deadline, idx as int),
                            self.next_cmd_id == old(self).next_cmd_id,
                            self.transition_ms == old(self).transition_ms,
                            self.update_buffer_ms == old(self).update_buffer_ms,
                            self.wled_segment_targets == old(self).wled_segment_targets,
                            self.wled_segment_entities == old(self).wled_segment_entities,
                            self.wled_direct_targets == old(self).wled_direct_targets,
                        decreases segs.len() - idx,
                    {
                        let seg = &segs[idx];
                        let pi = if idx < max_idx {
                            idx
                        } else {
                            max_idx
                        };
                        let point = grad.points[pi];
                        let mut p = self.pending_for(seg.as_str());
                        p.deadline = Some(deadline);
                        if let Some(on) = upd.on {
                            p.on = Some(on);
                        }
                        if let Some(b) = upd.brightness_pct {
                            p.brightness_pct = Some(b);
                        }
                        p.xy_color = Some(point);
                        self.store_pending(seg.clone(), p);
                        idx += 1;
                    }
                    return EnqueueRoute::Segments;
                }
            }
            if grad.points.len() > 0 && self.wled_direct_targets.contains_key(entity_id.as_str()) {
                assert(route == EnqueueRoute::DirectGradient);
                let mut p = self.pending_for(entity_id.as_str());
                p.deadline = Some(deadline);
                p.gradient_points = Some(copy_points(&grad.points));
                p.gradient_mode = grad.mode;
                if let Some(on) = upd.on {
                    p.on = Some(on);
                }
                if let Some(b) = upd.brightness_pct {
                    p.brightness_pct = Some(b);
                }
                self.store_pending(entity_id, p);
                return EnqueueRoute::DirectGradient;
            }
        }
        assert(route == EnqueueRoute::Plain);
        let mut p = self.pending_for(entity_id.as_str());
        p.deadline = Some(deadline);
        p.gradient_points = None;
        p.gradient_mode = None;
        if let Some(on) = upd.on {
            p.on = Some(on);
            if !on {
                p.brightness_pct = None;
                p.xy_color = None;
                p.color_temp_kelvin = None;
            }
        }
        if let Some(b) = upd.brightness_pct {
            p.brightness_pct = Some(b);
        }
        if let Some(c) = upd.color_xy {
            p.xy_color = Some(c);
        }
        if let Some(ct) = upd.mirek {
            let kelvin = clamp_u32(1_000_000u32 / (ct as u32), 2000, 6535);
            p.color_temp_kelvin = Some(kelvin);
        }
        self.store_pending(entity_id, p);
        EnqueueRoute::Plain
    }
}

/// What a gradient for a WLED light driven directly does to its Hue light:
/// the requested on/off and brightness (when requested), the first point as
/// the light's colour, and the whole gradient with the requested mode
/// (interpolated palette when none is requested).
pub struct GradientLightPatch<V> {
    pub on: Option<bool>,
    pub brightness_pct: Option<V>,
    pub color_xy: (V, V),
    pub mode: GradientMode,
    pub points: Vec<(V, V)>,
}

pub struct GradientPatchView<V> {
    pub on: Option<bool>,
    pub brightness_pct: Option<V>,
    pub color_xy: (V, V),
    pub mode: GradientMode,
    pub points: Seq<(V, V)>,
}

impl<V> View for GradientLightPatch<V> {
    type V = GradientPatchView<V>;

    open spec fn view(&self) -> GradientPatchView<V> {
        GradientPatchView {
            on: self.on,
            brightness_pct: self.brightness_pct,
            color_xy: self.color_xy,
            mode: self.mode,
            points: self.points@,
        }
    }
}

/// The patch a gradient update makes to the Hue light, for an update that
/// carries a non-empty gradient.
pub open spec fn spec_gradient_patch<V>(upd: LightUpdateView<V>) -> Option<GradientPatchView<V>> {
    match upd.gradient {
        Some((points, mode)) => if points.len() > 0 {
            Some(
                GradientPatchView {
                    on: upd.on,
                    brightness_pct: upd.brightness_pct,
                    color_xy: points[0],
                    mode: match mode {
                        Some(m) => m,
                        None => GradientMode::InterpolatedPalette,
                    },
                    points,
                },
            )
        } else {
            None
        },
        None => None,
    }
}

/// The patch a gradient update makes to the Hue light of a WLED light
/// driven directly; `None` when the update carries no gradient point.
pub fn gradient_light_patch<V: Copy>(upd: &LightUpdateRequest<V>) -> (r: Option<GradientLightPatch<V>>)
    ensures
        r is Some <==> spec_gradient_patch(upd@) is Some,
        r matches Some(p) ==> spec_gradient_patch(upd@) == Some(p@),
{
    match &upd.gradient {
        Some(g) => {
            if g.points.len() == 0 {
                return None;
            }
            Some(
                GradientLightPatch {
                    on: upd.on,
                    brightness_pct: upd.brightness_pct,
                    color_xy: g.points[0],
                    mode: match g.mode {
                        Some(m) => m,
                        None => GradientMode::InterpolatedPalette,
                    },
                    points: copy_points(&g.points),
                },
            )
        },
        None => None,
    }
}

/// The state of a Hue light that a gradient patch touches. `brightness_pct`
/// is `Some` exactly when the light has dimming, `color_xy` when it has a
/// colour, `gradient` (mode and points) when it has a gradient.
pub struct HueLightState<V> {
    pub on: bool,
    pub brightness_pct: Option<V>,
    pub color_xy: Option<(V, V)>,
    pub gradient: Option<(GradientMode, Vec<(V, V)>)>,
}

pub struct HueLightView<V> {
    pub on: bool,
    pub brightness_pct: Option<V>,
    pub color_xy: Option<(V, V)>,
    pub gradient: Option<(GradientMode, Seq<(V, V)>)>,
}

impl<V> View for HueLightState<V> {
    type V = HueLightView<V>;

    open spec fn view(&self) -> HueLightView<V> {
        HueLightView {
            on: self.on,
            brightness_pct: self.brightness_pct,
            color_xy: self.color_xy,
            gradient: match self.gradient {
                Some((m, pts)) => Some((m, pts@)),
                None => None,
            },
        }
    }
}

/// A Hue light after a gradient patch: it takes the requested on/off, the
/// requested brightness if it has dimming, the first point as its colour if
/// it has a colour, and the gradient if it has one; it gains no capability.
pub open spec fn spec_apply_gradient_patch<V>(light: HueLightView<V>, patch: GradientPatchView<V>) -> HueLightView<V> {
    HueLightView {
        on: match patch.on {
            Some(o) => o,
            None => light.on,
        },
        brightness_pct: match (light.brightness_pct, patch.brightness_pct) {
            (Some(_), Some(b)) => Some(b),
            _ => light.brightness_pct,
        },
        color_xy: match light.color_xy {
            Some(_) => Some(patch.color_xy),
            None => None,
        },
        gradient: match light.gradient {
            Some(_) => Some((patch.mode, patch.points)),
            None => None,
        },
    }
}

/// Applies a gradient patch to the Hue light of a WLED light driven directly.
pub fn apply_gradient_patch<V: Copy>(light: &mut HueLightState<V>, patch: &GradientLightPatch<V>)
    ensures
        final(light)@ == spec_apply_gradient_patch(old(light)@, patch@),
{
    if let Some(on) = patch.on {
        light.on = on;
    }
    if let Some(b) = patch.brightness_pct {
        if light.brightness_pct.is_some() {
            light.brightness_pct = Some(b);
        }
    }
    if light.color_xy.is_some() {
        light.color_xy = Some(patch.color_xy);
    }
    if light.gradient.is_some() {
        light.gradient = Some((patch.mode, copy_points(&patch.points)));
    }
}

/// The Hue app's gradient intent is kept for a WLED light driven directly:
/// when an update takes that route, its Hue light takes the requested
/// on/off and brightness, the first requested point as its colour and the
/// whole requested gradient (interpolated palette when no mode is given).
pub proof fn lemma_direct_gradient_preserves_intent<V>(
    s: HaBackendState<V>,
    eid: Seq<char>,
    upd: LightUpdateView<V>,
    light: HueLightView<V>,
)
    requires
        s.spec_route(eid, upd) == EnqueueRoute::DirectGradient,
        light.color_xy is Some,
        light.gradient is Some,
    ensures
        spec_gradient_patch(upd) is Some,
        ({
            let l = spec_apply_gradient_patch(light, spec_gradient_patch(upd)->0);
            &&& l.color_xy == Some(requested_points(upd)[0])
            &&& l.gradient == Some(
                (
                    match requested_mode(upd) {
                        Some(m) => m,
                        None => GradientMode::InterpolatedPalette,
                    },
                    requested_points(upd),
                ),
            )
            &&& (upd.on matches Some(o) ==> l.on == o)
            &&& (light.brightness_pct is Some && upd.brightness_pct is Some ==> l.brightness_pct
                == upd.brightness_pct)
        }),
{
}

/// The update is due at `now`.
pub open spec fn is_due<V>(p: PendingView<V>, now: u64) -> bool {
    match p.deadline {
        Some(d) => d <= now,
        None => false,
    }
}

/// A command for one light, built from its pending update.
pub enum LightCommand<V> {
    /// Send the whole gradient to a WLED light over its JSON API.
    WledGradient {
        ip: String,
        led_count: u32,
        on: Option<bool>,
        brightness_pct: Option<V>,
        mode: Option<GradientMode>,
        points: Vec<(V, V)>,
    },
    /// Send only on/off and brightness to a WLED light over its JSON API.
    WledBrightness { ip: String, on: Option<bool>, brightness_pct: Option<V> },
    /// Call Home Assistant's `light.turn_on` or `light.turn_off`.
    CallService(ServiceCall<V>),
}

/// A `call_service` command for Home Assistant's `light` domain.
///
/// `turn_off` selects `turn_off` over `turn_on`; `solid_effect` asks for
/// the `Solid` effect; the transition is in milliseconds.
pub struct ServiceCall<V> {
    pub id: u64,
    pub turn_off: bool,
    pub entity_id: String,
    pub brightness_pct: Option<V>,
    pub xy_color: Option<(V, V)>,
    pub color_temp_kelvin: Option<u32>,
    pub solid_effect: bool,
    pub transition_ms: u32,
}

impl<V> ServiceCall<V> {
    /// The service called: `turn_off` or `turn_on` of the `light` domain.
    pub fn service(&self) -> (name: &'static str)
        ensures
            name@ == (if self.turn_off {
                "turn_off"@
            } else {
                "turn_on"@
            }),
    {
        if self.turn_off {
            "turn_off"
        } else {
            "turn_on"
        }
    }
}

/// The transition to send, given the configured one.
pub open spec fn spec_transition_ms(configured: Option<u32>) -> u32 {
    let t = match configured {
        Some(t) => t,
        None => DEFAULT_TRANSITION_MS,
    };
    if t > MAX_TRANSITION_MS {
        MAX_TRANSITION_MS
    } else {
        t
    }
}

/// How the brightness of a Hue light follows a Home Assistant state.
#[derive(Clone, Copy, Debug, PartialEq, Eq, Structural)]
pub enum BrightnessChange {
    /// Take the reported brightness (on the 0..=255 scale).
    Reported(u16),
    /// The light is off and reports no brightness: show zero.
    Zero,
    /// Leave the brightness as it is.
    Keep,
}

/// What a Home Assistant state change does to the Hue light of its entity.
///
/// The light takes `is_on`; if it has dimming, the brightness follows
/// `brightness`; if it has a colour and `update_color` holds, it takes the
/// reported colour (when one is reported); if it has a colour temperature,
/// it takes `mirek` (valid exactly when `Some`).
pub struct StateChange {
    pub entity_id: String,
    pub is_on: bool,
    pub brightness: BrightnessChange,
    pub update_color: bool,
    pub mirek: Option<u16>,
}

/// Turning a light off wins: an update that turns a light off and sets
/// nothing else leaves no brightness, colour or colour temperature pending
/// for it, and no gradient.
pub proof fn lemma_turning_off_wins<V>(p: PendingView<V>, upd: LightUpdateView<V>, deadline: u64)
    requires
        upd.on == Some(false),
        upd.brightness_pct is None,
        upd.color_xy is None,
        upd.mirek is None,
    ensures
        ({
            let q = spec_plain_update(p, upd, deadline);
            &&& q.on == Some(false)
            &&& q.brightness_pct is None
            &&& q.xy_color is None
            &&& q.color_temp_kelvin is None
            &&& q.gradient_points is None
            &&& q.gradient_mode is None
        }),
{
}

/// An update of a single light is due at the deadline it is queued with,
/// whatever was pending before, and replaces the values it sets.
pub proof fn lemma_plain_update_due_and_overrides<V>(
    p: PendingView<V>,
    upd: LightUpdateView<V>,
    deadline: u64,
)
    ensures
        ({
            let q = spec_plain_update(p, upd, deadline);
            &&& q.deadline == Some(deadline)
            &&& upd.brightness_pct is Some ==> q.brightness_pct == upd.brightness_pct
            &&& upd.color_xy is Some ==> q.xy_color == upd.color_xy
            &&& upd.on is Some ==> q.on == upd.on
            &&& (upd.mirek matches Some(m) ==> q.color_temp_kelvin == Some(mirek_to_kelvin(m)))
        }),
{
}

/// The gradient point that segment `i` of a fan-out takes: point `i`, or the
/// last point for segments past the last point.
pub open spec fn point_for_segment<V>(points: Seq<(V, V)>, i: int) -> (V, V) {
    points[if i < points.len() - 1 {
        i
    } else {
        points.len() - 1
    }]
}

/// The first `k` steps of a fan-out over distinct segments: each of the
/// first `k` segments takes its point, nothing else changes.
proof fn lemma_fanout_prefix<V>(
    m: Map<Seq<char>, PendingView<V>>,
    segs: Seq<Seq<char>>,
    points: Seq<(V, V)>,
    upd: LightUpdateView<V>,
    deadline: u64,
    k: int,
)
    requires
        segs.no_duplicates(),
        0 <= k <= segs.len(),
    ensures
        forall|i: int| #![trigger segs[i]]
            0 <= i < k ==> fanout(m, segs, points, upd, deadline, k).dom().contains(segs[i])
                && fanout(m, segs, points, upd, deadline, k)[segs[i]] == spec_segment_update(
                current(m, segs[i]),
                upd,
                point_for_segment(points, i),
                deadline,
            ),
        forall|x: Seq<char>| #[trigger]
            fanout(m, segs, points, upd, deadline, k).dom().contains(x) <==> (m.dom().contains(x)
                || segs.take(k).contains(x)),
        forall|x: Seq<char>|
            !segs.take(k).contains(x) && m.dom().contains(x) ==> #[trigger] fanout(
                m,
                segs,
                points,
                upd,
                deadline,
                k,
            )[x] == m[x],
    decreases k,
{
    if k > 0 {
        lemma_fanout_prefix(m, segs, points, upd, deadline, k - 1);
        let m1 = fanout(m, segs, points, upd, deadline, k - 1);
        let seg = segs[k - 1];
        let pre = segs.take(k - 1);
        let cur = segs.take(k);
        assert(!pre.contains(seg)) by {
            if pre.contains(seg) {
                let j = choose|j: int| 0 <= j < pre.len() && pre[j] == seg;
                assert(segs[j] == segs[k - 1]);
            }
        }
        assert(current(m1, seg) == current(m, seg));
        assert(cur =~= pre.push(seg));
        assert forall|x: Seq<char>| #[trigger] cur.contains(x) <==> (pre.contains(x) || x == seg) by {
            if cur.contains(x) && x != seg {
                let j = choose|j: int| 0 <= j < cur.len() && cur[j] == x;
                assert(pre[j] == x);
            }
            if x == seg {
                assert(cur[k - 1] == x);
            }
            if pre.contains(x) {
                let j = choose|j: int| 0 <= j < pre.len() && pre[j] == x;
                assert(cur[j] == x);
            }
        }
        assert forall|i: int| #![trigger segs[i]] 0 <= i < k - 1 implies segs[i] != seg by {
            assert(segs[i] != segs[k - 1]);
        }
    }
}

/// A gradient sent to the segment lights of a WLED device gives segment `i`
/// gradient point `i` (segments past the last point take the last point),
/// with the update's on/off and brightness, due at the deadline; every other
/// pending update stays as it was.
pub proof fn lemma_gradient_fans_out_over_segments<V>(
    s: HaBackendState<V>,
    eid: Seq<char>,
    upd: LightUpdateView<V>,
    deadline: u64,
)
    requires
        s.spec_route(eid, upd) == EnqueueRoute::Segments,
        s.segments_of(eid)->0.no_duplicates(),
    ensures
        ({
            let segs = s.segments_of(eid)->0;
            let before = pending_view(s.pending@);
            let after = s.spec_enqueue(eid, upd, deadline);
            &&& forall|i: int| #![trigger segs[i]]
                0 <= i < segs.len() ==> after.dom().contains(segs[i]) && after[segs[i]]
                    == spec_segment_update(
                    current(before, segs[i]),
                    upd,
                    point_for_segment(requested_points(upd), i),
                    deadline,
                )
            &&& forall|x: Seq<char>| #[trigger]
                after.dom().contains(x) <==> (before.dom().contains(x) || segs.contains(x))
            &&& forall|x: Seq<char>|
                !segs.contains(x) && before.dom().contains(x) ==> #[trigger] after[x] == before[x]
        }),
{
    let segs = s.segments_of(eid)->0;
    lemma_fanout_prefix(
        pending_view(s.pending@),
        segs,
        requested_points(upd),
        upd,
        deadline,
        segs.len() as int,
    );
    assert(segs.take(segs.len() as int) =~= segs);
}

/// A gradient for a WLED light driven directly is kept whole: the light's
/// pending update holds every requested point and the requested mode, the
/// light is one that is sent its gradient over the WLED API, and the patch
/// its Hue light takes holds the same points.
pub proof fn lemma_direct_gradient_kept_whole<V>(
    s: HaBackendState<V>,
    eid: Seq<char>,
    upd: LightUpdateView<V>,
    deadline: u64,
)
    requires
        s.spec_route(eid, upd) == EnqueueRoute::DirectGradient,
    ensures
        ({
            let after = s.spec_enqueue(eid, upd, deadline);
            &&& after.dom().contains(eid)
            &&& after[eid].gradient_points == Some(requested_points(upd))
            &&& after[eid].gradient_mode == requested_mode(upd)
            &&& requested_points(upd).len() > 0
            &&& s.wled_direct_targets@.dom().contains(eid)
            &&& spec_gradient_patch(upd) matches Some(p) && p.points == requested_points(upd)
                && after[eid].gradient_points == Some(p.points)
        }),
{
}

/// Every segment a fan-out reaches holds an update due at the deadline.
proof fn lemma_fanout_deadline<V>(
    m: Map<Seq<char>, PendingView<V>>,
    segs: Seq<Seq<char>>,
    points: Seq<(V, V)>,
    upd: LightUpdateView<V>,
    deadline: u64,
    k: int,
)
    requires
        0 <= k <= segs.len(),
    ensures
        forall|i: int| #![trigger segs[i]]
            0 <= i < k ==> fanout(m, segs, points, upd, deadline, k).dom().contains(segs[i])
                && fanout(m, segs, points, upd, deadline, k)[segs[i]].deadline == Some(deadline),
    decreases k,
{
    if k > 0 {
        lemma_fanout_deadline(m, segs, points, upd, deadline, k - 1);
    }
}

/// An update waits the configured buffer time before it is sent: every
/// pending update that queueing it sets (the light's own, or those of the
/// segment lights a gradient fans out over) is due at a time `t` exactly
/// when `t` is at least the buffer time after the update was queued.
pub proof fn lemma_update_waits_for_buffer<V>(
    s: HaBackendState<V>,
    eid: Seq<char>,
    upd: LightUpdateView<V>,
    now: u64,
    t: u64,
)
    requires
        now + s.update_buffer_ms <= u64::MAX,
    ensures
        ({
            let after = s.spec_enqueue(eid, upd, (now + s.update_buffer_ms) as u64);
            let touched = if s.spec_route(eid, upd) == EnqueueRoute::Segments {
                s.segments_of(eid)->0
            } else {
                seq![eid]
            };
            forall|i: int| #![trigger touched[i]]
                0 <= i < touched.len() ==> after.dom().contains(touched[i]) && (is_due(
                    after[touched[i]],
                    t,
                ) <==> now + s.update_buffer_ms <= t)
        }),
{
    let deadline = (now + s.update_buffer_ms) as u64;
    if s.spec_route(eid, upd) == EnqueueRoute::Segments {
        let segs = s.segments_of(eid)->0;
        lemma_fanout_deadline(
            pending_view(s.pending@),
            segs,
            requested_points(upd),
            upd,
            deadline,
            segs.len() as int,
        );
    } else {
        let touched = seq![eid];
        assert(touched[0] == eid);
    }
}

/// Command ids do not collide: the subscription and each registry listing
/// have an id of their own, all below the ids handed out for light
/// commands, which never go back below where they started.
pub proof fn lemma_command_ids_distinct<V>(q1: RegistryQuery, q2: RegistryQuery, s: HaBackendState<V>)
    requires
        s.next_cmd_id >= FIRST_COMMAND_ID,
    ensures
        q1 != q2 ==> q1.spec_command_id() != q2.spec_command_id(),
        q1.spec_command_id() != SUBSCRIBE_COMMAND_ID,
        q1.spec_command_id() < FIRST_COMMAND_ID,
        SUBSCRIBE_COMMAND_ID < FIRST_COMMAND_ID,
        s.next_cmd_id != SUBSCRIBE_COMMAND_ID,
        s.next_cmd_id != q1.spec_command_id(),
{
}

/// An update takes the segment route exactly when its light has a target
/// list, that list is non-empty and every entity in it is a segment entity
/// (has a segment index), and the update carries a gradient with at least
/// one point.
pub proof fn lemma_segment_route_needs_segment_entities<V>(
    s: HaBackendState<V>,
    eid: Seq<char>,
    upd: LightUpdateView<V>,
)
    ensures
        (s.spec_route(eid, upd) == EnqueueRoute::Segments) == (s.wled_segment_targets@.dom().contains(
            eid,
        ) && strings_view(s.wled_segment_targets@[eid]@).len() > 0 && (forall|i: int|
            0 <= i < strings_view(s.wled_segment_targets@[eid]@).len() ==> #[trigger] spec_parse_segment_index(
                strings_view(s.wled_segment_targets@[eid]@)[i],
            ) is Some) && upd.gradient is Some && (upd.gradient->0).0.len() > 0),
{
}

/// The Kelvin temperature sent for a mirek value is a million divided by
/// it, kept within 2000..=6535.
pub proof fn lemma_kelvin_of_mirek(mirek: u16)
    requires
        mirek != 0,
    ensures
        mirek_to_kelvin(mirek) as int == (if 1_000_000int / (mirek as int) < 2000 {
            2000int
        } else if 1_000_000int / (mirek as int) > 6535 {
            6535int
        } else {
            1_000_000int / (mirek as int)
        }),
{
}

/// The transition sent is the configured one (350 ms when none is
/// configured), at most 30 seconds.
pub proof fn lemma_transition_sent(configured: Option<u32>)
    ensures
        spec_transition_ms(configured) as int == (match configured {
            Some(t) => if t > 30_000 {
                30_000int
            } else {
                t as int
            },
            None => 350int,
        }),
{
}

/// The Kelvin temperature sent for any mirek value lies in 2000..=6535.
pub proof fn lemma_kelvin_in_range(mirek: u16)
    requires
        mirek != 0,
    ensures
        2000 <= mirek_to_kelvin(mirek) <= 6535,
{
}

/// The updates left after every due one is taken: exactly those that are
/// not due, unchanged.
pub open spec fn undue<V>(m: Map<Seq<char>, PendingView<V>>, now: u64) -> Map<Seq<char>, PendingView<V>> {
    m.restrict(m.dom().filter(|k: Seq<char>| !is_due(m[k], now)))
}

/// Taking, one by one, the updates that `ready_entity_ids` names leaves
/// exactly the updates that were not due, unchanged, and none that is due.
pub proof fn lemma_flush_leaves_undue<V>(
    m: Map<Seq<char>, PendingView<V>>,
    now: u64,
    ids: Seq<Seq<char>>,
)
    requires
        forall|k: Seq<char>| #[trigger] ids.contains(k) <==> (m.dom().contains(k) && is_due(m[k], now)),
    ensures
        m.remove_keys(ids.to_set()) == undue(m, now),
        forall|k: Seq<char>| #[trigger]
            m.remove_keys(ids.to_set()).dom().contains(k) ==> !is_due(m.remove_keys(ids.to_set())[k], now),
{
    assert(m.remove_keys(ids.to_set()) =~= undue(m, now));
}

/// Every light named in some target list.
pub fn segment_entities_of(targets: &StrMap<Vec<String>>) -> (m: StrMap<()>)
    requires
        targets.wf(),
    ensures
        m.wf(),
        forall|e: Seq<char>| #[trigger]
            m@.dom().contains(e) <==> exists|k: Seq<char>|
                targets@.dom().contains(k) && strings_view(targets@[k]@).contains(e),
{
    let ghost keys = targets.key_list();
    proof {
        targets.lemma_lists();
    }
    let mut m: StrMap<()> = StrMap::new();
    let mut j: usize = 0;
    while j < targets.len()
        invariant
            j <= keys.len(),
            keys == targets.key_list(),
            targets.value_list().len() == keys.len(),
            forall|i: int| 0 <= i < keys.len() ==> #[trigger] targets@[keys[i]] == targets.value_list()[i],
            forall|k: Seq<char>| #[trigger] targets@.dom().contains(k) <==> keys.contains(k),
            m.wf(),
            forall|e: Seq<char>| #[trigger]
                m@.dom().contains(e) <==> exists|i: int|
                    0 <= i < j && strings_view(targets.value_list()[i]@).contains(e),
        decreases keys.len() - j,
    {
        let list = targets.value_at(j);
        let ghost lv = strings_view(list@);
        let mut t: usize = 0;
        while t < list.len()
            invariant
                j < keys.len(),
                t <= list.len(),
                lv == strings_view(list@),
                *list == targets.value_list()[j as int],
                m.wf(),
                forall|e: Seq<char>| #[trigger]
                    m@.dom().contains(e) <==> ((exists|i: int|
                        0 <= i < j && strings_view(targets.value_list()[i]@).contains(e)) || exists|u: int| 0 <= u < t && lv[u] == e),
            decreases list.len() - t,
        {
            let ghost ev = list[t as int]@;
            m.insert(list[t].clone(), ());
            proof {
                assert(lv[t as int] == ev);
                assert forall|e: Seq<char>| #[trigger]
                    m@.dom().contains(e) <==> ((exists|i: int|
                        0 <= i < j && strings_view(targets.value_list()[i]@).contains(e)) || exists|u: int| 0 <= u < t + 1 && lv[u] == e) by {
                    if e == ev {
                        assert(lv[t as int] == e);
                    }
                }
            }
            t += 1;
        }
        proof {
            assert forall|e: Seq<char>| #[trigger]
                m@.dom().contains(e) <==> exists|i: int|
                    0 <= i < j + 1 && strings_view(targets.value_list()[i]@).contains(e) by {
                if exists|i: int| 0 <= i < j + 1 && strings_view(targets.value_list()[i]@).contains(e) {
                    let i = choose|i: int| 0 <= i < j + 1 && strings_view(targets.value_list()[i]@).contains(e);
                    if i == j {
                        let u = choose|u: int| 0 <= u < lv.len() && lv[u] == e;
                    }
                }
                if m@.dom().contains(e) && !(exists|i: int| 0 <= i < j && strings_view(targets.value_list()[i]@).contains(e)) {
                    let u = choose|u: int| 0 <= u < t && lv[u] == e;
                    assert(strings_view(targets.value_list()[j as int]@).contains(e));
                }
            }
        }
        j += 1;
    }
    proof {
        assert forall|e: Seq<char>| #[trigger]
            m@.dom().contains(e) <==> exists|k: Seq<char>|
                targets@.dom().contains(k) && strings_view(targets@[k]@).contains(e) by {
            if m@.dom().contains(e) {
                let i = choose|i: int| 0 <= i < keys.len() && strings_view(targets.value_list()[i]@).contains(e);
                assert(keys.contains(keys[i]));
                assert(targets@.dom().contains(keys[i]));
                assert(targets@[keys[i]] == targets.value_list()[i]);
                assert(targets@.dom().contains(keys[i]) && strings_view(targets@[keys[i]]@).contains(e));
            }
            if exists|k: Seq<char>| targets@.dom().contains(k) && strings_view(targets@[k]@).contains(e) {
                let k = choose|k: Seq<char>| targets@.dom().contains(k) && strings_view(targets@[k]@).contains(e);
                assert(keys.contains(k));
                let i = choose|i: int| 0 <= i < keys.len() && keys[i] == k;
                assert(targets@[keys[i]] == targets.value_list()[i]);
                assert(strings_view(targets.value_list()[i]@).contains(e));
            }
        }
    }
    m
}

/// Whether a non-empty list names only segment entities.
fn all_real_segments(segs: &Vec<String>) -> (r: bool)
    ensures
        r == real_segments(strings_view(segs@)),
{
    if segs.len() == 0 {
        return false;
    }
    let mut i: usize = 0;
    while i < segs.len()
        invariant
            i <= segs.len(),
            forall|j: int| 0 <= j < i ==> spec_parse_segment_index(#[trigger] strings_view(segs@)[j]) is Some,
        decreases segs.len() - i,
    {
        if parse_segment_index(segs[i].as_str()).is_none() {
            assert(strings_view(segs@)[i as int] == segs@[i as int]@);
            return false;
        }
        assert(strings_view(segs@)[i as int] == segs@[i as int]@);
        i += 1;
    }
    true
}

} // verus!
