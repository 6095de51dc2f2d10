use vstd::prelude::*;
use crate::errors::SyncError;
use crate::event::{props_get, spec_sync_key, spec_tag, sync_key_string, Event};

verus! {

/// Whether some event in `events` carries the sync tag `id`.
pub open spec fn spec_tagged(events: Seq<Event>, id: Seq<char>) -> bool {
    exists|i: int| 0 <= i < events.len() && spec_tag(events[i]) == Some(id)
}

/// Whether some index entry is keyed by `id`.
pub open spec fn entries_has(entries: Seq<(String, Event)>, id: Seq<char>) -> bool {
    exists|j: int| 0 <= j < entries.len() && entries[j].0@ == id
}

/// The destination index: every sync-tagged destination event, keyed by its
/// tag. It is built once from a full traversal of the destination listing,
/// read during reconciliation, and discarded with the run. Destination
/// events without the tag are invisible to it.
pub struct DstIndex {
    entries: Vec<(String, Event)>,
}

impl View for DstIndex {
    type V = Seq<(String, Event)>;

    closed spec fn view(&self) -> Seq<(String, Event)> {
        self.entries@
    }
}

impl DstIndex {
    /// Whether the index holds an entry for the sync-tag value `id`.
    pub open spec fn spec_has(&self, id: Seq<char>) -> bool {
        entries_has(self@, id)
    }

    /// Looks a source id up in the index.
    pub fn contains(&self, id: &String) -> (r: bool)
        ensures
            r == self.spec_has(id@),
    {
        let mut j: usize = 0;
        while j < self.entries.len()
            invariant
                j <= self.entries.len(),
                forall|m: int| 0 <= m < j ==> (#[trigger] self@[m]).0@ != id@,
            decreases self.entries.len() - j,
        {
            if self.entries[j].0 == *id {
                proof {
                    assert(0 <= j < self@.len() && self@[j as int].0@ == id@);
                }
                return true;
            }
            j = j + 1;
        }
        false
    }
}

/// One step of the index invariant: extending the entries with the sync tag
/// of event `k` (or with nothing, when it has none) covers exactly the tags
/// of the first `k + 1` events.
proof fn lemma_entries_step(
    dst0: Seq<Event>,
    k: int,
    before: Seq<(String, Event)>,
    after: Seq<(String, Event)>,
    e: Event,
)
    requires
        0 <= k < dst0.len(),
        e == dst0[k],
        forall|id: Seq<char>| #[trigger] entries_has(before, id) <==> spec_tagged(
            dst0.take(k),
            id,
        ),
        match spec_tag(e) {
            Some(t) => after.len() == before.len() + 1 && after[after.len() - 1].0@ == t && forall|
                j: int,
            | 0 <= j < before.len() ==> after[j] == before[j],
            None => after == before,
        },
    ensures
        forall|id: Seq<char>| #[trigger] entries_has(after, id) <==> spec_tagged(
            dst0.take(k + 1),
            id,
        ),
{
    assert forall|id: Seq<char>| #[trigger] entries_has(after, id) implies spec_tagged(
        dst0.take(k + 1),
        id,
    ) by {
        let j = choose|j: int| 0 <= j < after.len() && (#[trigger] after[j]).0@ == id;
        if j < before.len() {
            assert(entries_has(before, id));
            let m = choose|m: int|
                0 <= m < dst0.take(k).len() && #[trigger] spec_tag(dst0.take(k)[m]) == Some(id);
            assert(dst0.take(k + 1)[m] == dst0[m]);
            assert(spec_tag(dst0.take(k + 1)[m]) == Some(id));
        } else {
            assert(spec_tag(e) == Some(id));
            assert(dst0.take(k + 1)[k] == dst0[k]);
            assert(spec_tag(dst0.take(k + 1)[k]) == Some(id));
        }
    }
    assert forall|id: Seq<char>| spec_tagged(dst0.take(k + 1), id) implies #[trigger] entries_has(
        after,
        id,
    ) by {
        let m = choose|m: int|
            0 <= m < dst0.take(k + 1).len() && #[trigger] spec_tag(dst0.take(k + 1)[m]) == Some(id);
        assert(dst0.take(k + 1)[m] == dst0[m]);
        if m < k {
            assert(dst0.take(k)[m] == dst0[m]);
            assert(spec_tagged(dst0.take(k), id));
            assert(entries_has(before, id));
            let j = choose|j: int| 0 <= j < before.len() && (#[trigger] before[j]).0@ == id;
            assert(after[j].0@ == id);
        } else {
            assert(spec_tag(e) == Some(id));
            assert(after[after.len() - 1].0@ == id);
        }
    }
}

/// Builds the destination index from a fully drained destination listing: an
/// id is in the index exactly when some destination event carries it as its
/// sync tag.
pub fn build_index(dst_events: Vec<Event>) -> (r: DstIndex)
    ensures
        forall|id: Seq<char>| #[trigger] r.spec_has(id) <==> spec_tagged(dst_events@, id),
{
    let ghost dst0 = dst_events@;
    let key = sync_key_string();
    let mut dst = dst_events;
    let total: usize = dst.len();
    let mut entries: Vec<(String, Event)> = Vec::new();
    let mut k: usize = 0;
    proof {
        assert(dst0.skip(0) =~= dst0);
        assert forall|id: Seq<char>| #[trigger] entries_has(entries@, id) <==> spec_tagged(
            dst0.take(0),
            id,
        ) by {
            if entries_has(entries@, id) {
                let j = choose|j: int| 0 <= j < entries@.len() && (#[trigger] entries@[j]).0@ == id;
            }
            if spec_tagged(dst0.take(0), id) {
                let m = choose|m: int|
                    0 <= m < dst0.take(0).len() && #[trigger] spec_tag(dst0.take(0)[m]) == Some(id);
            }
        }
    }
    while dst.len() > 0
        invariant
            key@ == spec_sync_key(),
            total == dst0.len(),
            k + dst.len() == total,
            dst@ == dst0.skip(k as int),
            forall|id: Seq<char>| #[trigger] entries_has(entries@, id) <==> spec_tagged(
                dst0.take(k as int),
                id,
            ),
        decreases dst.len(),
    {
        let ghost before = entries@;
        let e = dst.remove(0);
        proof {
            assert(dst0.skip(k as int)[0] == dst0[k as int]);
            assert(dst@ =~= dst0.skip(k as int + 1));
        }
        match e.shared_properties.get(&key) {
            Some(v) => {
                let id = v.clone();
                proof {
                    assert(spec_tag(e) == Some(id@));
                }
                entries.push((id, e));
            },
            None => {
                proof {
                    assert(spec_tag(e) is None);
                }
            },
        }
        proof {
            lemma_entries_step(dst0, k as int, before, entries@, dst0[k as int]);
        }
        k = k + 1;
    }
    let r = DstIndex { entries };
    proof {
        assert(dst0.take(k as int) =~= dst0);
    }
    r
}

/// What reconciliation decided for one source event: leave it alone because
/// a destination event already carries its tag, or create the given
/// destination event for it.
#[derive(Debug, Clone)]
pub enum SyncAction {
    /// A destination event tagged with this source id already exists; no
    /// destination mutation happens, whatever else may differ.
    Skip {
        /// The id of the skipped source event.
        src_id: String,
    },
    /// No destination event carries the source id; this event is to be
    /// created in the destination calendar.
    Create {
        /// The destination event to create.
        event: Event,
    },
}

/// How a created destination event relates to the source event it was built
/// from: summary, location, start and end are copied; the shared properties
/// are the source's plus the sync tag bound to the source id; the colour is
/// the configured override; id and external UID are left for the service.
pub open spec fn created_from(r: Event, src: Event, id: Seq<char>, colour: Option<String>) -> bool {
    &&& r.id is None
    &&& r.ical_uid is None
    &&& r.summary == src.summary
    &&& r.location == src.location
    &&& r.start == src.start
    &&& r.end == src.end
    &&& r.color_id == colour
    &&& props_get(r.shared_properties@, spec_sync_key()) == Some(id)
    &&& forall|k: Seq<char>|
        k != spec_sync_key() ==> #[trigger] props_get(r.shared_properties@, k) == props_get(
            src.shared_properties@,
            k,
        )
}

/// Builds the destination event that reconciliation creates for a source
/// event absent from the index.
pub fn make_dst_event(src: Event, id: String, colour: &Option<String>) -> (r: Event)
    ensures
        created_from(r, src, id@, *colour),
{
    let Event {
        id: _,
        summary,
        location,
        start,
        end,
        shared_properties: mut props,
        color_id: _,
        ical_uid: _,
    } = src;
    props.insert(sync_key_string(), id);
    let color_id = match colour {
        Some(c) => Some(c.clone()),
        None => None,
    };
    Event {
        id: None,
        summary,
        location,
        start,
        end,
        shared_properties: props,
        color_id,
        ical_uid: None,
    }
}

/// The decision owed for one source event against an already-built index:
/// skip when the source id is indexed, otherwise create an event built as
/// `created_from` says. A source event without an id admits no decision.
pub open spec fn index_decide_ok(
    index: DstIndex,
    src: Event,
    colour: Option<String>,
    a: SyncAction,
) -> bool {
    match src.id {
        None => false,
        Some(id) => if index.spec_has(id@) {
            a matches SyncAction::Skip { src_id } && src_id@ == id@
        } else {
            a matches SyncAction::Create { event } && created_from(event, src, id@, colour)
        },
    }
}

/// The same decision stated against the destination listing itself.
pub open spec fn plan_decide_ok(
    dst: Seq<Event>,
    src: Event,
    colour: Option<String>,
    a: SyncAction,
) -> bool {
    match src.id {
        None => false,
        Some(id) => if spec_tagged(dst, id@) {
            a matches SyncAction::Skip { src_id } && src_id@ == id@
        } else {
            a matches SyncAction::Create { event } && created_from(event, src, id@, colour)
        },
    }
}

/// Decides one source event against the destination index: an event whose id
/// is indexed is skipped, any other is turned into the destination event to
/// create, and an event without an id is the `MissingSourceId` failure that
/// aborts the run.
pub fn sync_decide(index: &DstIndex, src_event: Event, colour: &Option<String>) -> (r: Result<
    SyncAction,
    SyncError,
>)
    ensures
        (src_event.id is Some) <==> (r is Ok),
        r is Err ==> r == Err::<SyncAction, SyncError>(SyncError::MissingSourceId),
        r matches Ok(a) ==> index_decide_ok(*index, src_event, *colour, a),
{
    match &src_event.id {
        None => Err(SyncError::MissingSourceId),
        Some(id_ref) => {
            let id = id_ref.clone();
            if index.contains(&id) {
                Ok(SyncAction::Skip { src_id: id })
            } else {
                Ok(SyncAction::Create { event: make_dst_event(src_event, id, colour) })
            }
        },
    }
}

/// What one whole reconciliation run decided: the decisions for the source
/// events processed, in source order, and the error that aborted the run,
/// if one did. A live run executes the creations; a dry run only reports
/// them — the decisions are the same either way.
pub struct SyncPlan {
    /// One decision per processed source event, in order.
    pub actions: Vec<SyncAction>,
    /// `Some` when the run aborted on the first source event without an id,
    /// with the decisions before it kept.
    pub error: Option<SyncError>,
}

/// What a correct reconciliation run looks like: each processed source event
/// has an id and got the decision `plan_decide_ok` owes it; the run covers
/// every source event unless it aborted, and it aborted exactly at the first
/// source event without an id, with `MissingSourceId`.
pub open spec fn plan_valid(
    dst: Seq<Event>,
    src: Seq<Event>,
    colour: Option<String>,
    plan: SyncPlan,
) -> bool {
    &&& plan.actions@.len() <= src.len()
    &&& forall|i: int|
        0 <= i < plan.actions@.len() ==> #[trigger] plan_decide_ok(
            dst,
            src[i],
            colour,
            plan.actions@[i],
        )
    &&& match plan.error {
        Some(e) => {
            &&& plan.actions@.len() < src.len()
            &&& src[plan.actions@.len() as int].id is None
            &&& e == SyncError::MissingSourceId
        },
        None => plan.actions@.len() == src.len(),
    }
}

/// One whole reconciliation run over already-listed calendars: builds the
/// destination index, then decides each source event in order, stopping at
/// the first source event without an id. The returned plan is valid in the
/// sense of `plan_valid`; issuing (or, on a dry run, only reporting) the
/// created events is the caller's to do.
pub fn plan_sync(dst_events: Vec<Event>, src_events: Vec<Event>, colour: Option<String>) -> (r:
    SyncPlan)
    ensures
        plan_valid(dst_events@, src_events@, colour, r),
{
    let ghost dst0 = dst_events@;
    let ghost src0 = src_events@;
    let index = build_index(dst_events);
    let mut src = src_events;
    let total: usize = src.len();
    let mut actions: Vec<SyncAction> = Vec::new();
    let mut error: Option<SyncError> = None;
    let mut k: usize = 0;
    proof {
        assert(src0.skip(0) =~= src0);
    }
    while error.is_none() && src.len() > 0
        invariant
            forall|id: Seq<char>| #[trigger] index.spec_has(id) <==> spec_tagged(dst0, id),
            total == src0.len(),
            k == actions@.len(),
            k <= total,
            error is None ==> k + src.len() == total && src@ == src0.skip(k as int),
            forall|i: int|
                0 <= i < k ==> #[trigger] plan_decide_ok(dst0, src0[i], colour, actions@[i]),
            error matches Some(e) ==> k < total && src0[k as int].id is None && e
                == SyncError::MissingSourceId,
        decreases src.len(),
    {
        let ghost e0 = src0[k as int];
        let e = src.remove(0);
        proof {
            assert(src0.skip(k as int)[0] == src0[k as int]);
            assert(e == e0);
            assert(src@ =~= src0.skip(k as int + 1));
        }
        match sync_decide(&index, e, &colour) {
            Ok(a) => {
                proof {
                    match e0.id {
                        Some(idv) => {
                            assert(index.spec_has(idv@) == spec_tagged(dst0, idv@));
                            assert(plan_decide_ok(dst0, e0, colour, a));
                        },
                        None => {},
                    }
                }
                let ghost actions_before = actions@;
                actions.push(a);
                proof {
                    assert forall|i: int|
                        0 <= i < k + 1 implies #[trigger] plan_decide_ok(
                        dst0,
                        src0[i],
                        colour,
                        actions@[i],
                    ) by {
                        if i < k {
                            assert(actions@[i] == actions_before[i]);
                            assert(plan_decide_ok(dst0, src0[i], colour, actions_before[i]));
                        } else {
                            assert(actions@[i] == a);
                        }
                    }
                }
                k = k + 1;
            },
            Err(err) => {
                error = Some(err);
            },
        }
    }
    SyncPlan { actions, error }
}

/// The destination events a plan's `Create` decisions would add, in order.
pub open spec fn created_events(actions: Seq<SyncAction>) -> Seq<Event>
    decreases actions.len(),
{
    if actions.len() == 0 {
        Seq::empty()
    } else {
        let rest = created_events(actions.drop_first());
        match actions[0] {
            SyncAction::Create { event } => seq![event] + rest,
            SyncAction::Skip { .. } => rest,
        }
    }
}

/// Each `Create` decision's event is among the plan's created events.
proof fn lemma_created_events_contains(actions: Seq<SyncAction>, i: int)
    requires
        0 <= i < actions.len(),
        actions[i] is Create,
    ensures
        actions[i] matches SyncAction::Create { event } && created_events(actions).contains(event),
    decreases actions.len(),
{
    let ce = created_events(actions);
    if i == 0 {
        match actions[0] {
            SyncAction::Create { event } => {
                assert(ce[0] == event);
                assert(ce.contains(event));
            },
            SyncAction::Skip { .. } => {},
        }
    } else {
        let sub = actions.drop_first();
        assert(sub[i - 1] == actions[i]);
        lemma_created_events_contains(sub, i - 1);
        match actions[i] {
            SyncAction::Create { event } => {
                let rest = created_events(sub);
                let j = choose|j: int| 0 <= j < rest.len() && #[trigger] rest[j] == event;
                match actions[0] {
                    SyncAction::Create { event: e0 } => {
                        assert(ce[j + 1] == rest[j]);
                        assert(ce.contains(event));
                    },
                    SyncAction::Skip { .. } => {
                        assert(ce == rest);
                        assert(ce.contains(event));
                    },
                }
            },
            SyncAction::Skip { .. } => {},
        }
    }
}

/// A plan of skips alone creates nothing.
proof fn lemma_created_events_all_skip(actions: Seq<SyncAction>)
    requires
        forall|i: int| 0 <= i < actions.len() ==> (#[trigger] actions[i]) is Skip,
    ensures
        created_events(actions).len() == 0,
    decreases actions.len(),
{
    if actions.len() > 0 {
        let sub = actions.drop_first();
        assert forall|i: int| 0 <= i < sub.len() implies (#[trigger] sub[i]) is Skip by {
            assert(sub[i] == actions[i + 1]);
        }
        lemma_created_events_all_skip(sub);
        assert(actions[0] is Skip);
    }
}

/// Idempotence of reconciliation: after a completed run's created events are
/// applied to the destination, re-running over the unchanged source decides
/// nothing but skips — zero further creations — because every source id is
/// then tagged in the destination before any decision is made.
pub proof fn lemma_sync_idempotent(
    dst: Seq<Event>,
    src: Seq<Event>,
    colour: Option<String>,
    plan1: SyncPlan,
    dst2: Seq<Event>,
    plan2: SyncPlan,
)
    requires
        plan_valid(dst, src, colour, plan1),
        plan1.error is None,
        dst2 == dst + created_events(plan1.actions@),
        plan_valid(dst2, src, colour, plan2),
    ensures
        plan2.error is None,
        plan2.actions@.len() == src.len(),
        forall|i: int| 0 <= i < plan2.actions@.len() ==> (#[trigger] plan2.actions@[i]) is Skip,
        created_events(plan2.actions@).len() == 0,
{
    if plan2.error is Some {
        let kk = plan2.actions@.len() as int;
        assert(src[kk].id is None);
        assert(plan_decide_ok(dst, src[kk], colour, plan1.actions@[kk]));
        assert(false);
    }
    assert forall|i: int| 0 <= i < plan2.actions@.len() implies (#[trigger] plan2.actions@[i])
        is Skip by {
        assert(plan_decide_ok(dst2, src[i], colour, plan2.actions@[i]));
        assert(plan_decide_ok(dst, src[i], colour, plan1.actions@[i]));
        match src[i].id {
            Some(idv) => {
                if spec_tagged(dst, idv@) {
                    let m = choose|m: int|
                        0 <= m < dst.len() && #[trigger] spec_tag(dst[m]) == Some(idv@);
                    assert(dst2[m] == dst[m]);
                    assert(spec_tagged(dst2, idv@));
                } else {
                    match plan1.actions@[i] {
                        SyncAction::Create { event } => {
                            lemma_created_events_contains(plan1.actions@, i);
                            let ce = created_events(plan1.actions@);
                            let j = choose|j: int| 0 <= j < ce.len() && #[trigger] ce[j] == event;
                            assert(dst2[dst.len() + j] == event);
                            assert(spec_tag(event) == Some(idv@));
                            assert(spec_tagged(dst2, idv@));
                        },
                        SyncAction::Skip { .. } => {},
                    }
                }
            },
            None => {},
        }
    }
    lemma_created_events_all_skip(plan2.actions@);
}

/// Whether two decisions say the same thing: skips of the same source id, or
/// creations of events equal in every field the reconciler sets.
pub open spec fn action_equiv(a: SyncAction, b: SyncAction) -> bool {
    match (a, b) {
        (SyncAction::Skip { src_id: x }, SyncAction::Skip { src_id: y }) => x@ == y@,
        (SyncAction::Create { event: x }, SyncAction::Create { event: y }) => {
            &&& x.id == y.id
            &&& x.ical_uid == y.ical_uid
            &&& x.summary == y.summary
            &&& x.location == y.location
            &&& x.start == y.start
            &&& x.end == y.end
            &&& x.color_id == y.color_id
            &&& forall|k: Seq<char>| #[trigger] props_get(x.shared_properties@, k) == props_get(
                y.shared_properties@,
                k,
            )
        },
        _ => false,
    }
}

/// The decisions of a run are a function of the destination state, the
/// source state and the colour override alone: any two valid runs decide the
/// same things in the same order and abort alike. In particular, a dry run
/// reports exactly the creations a live run would issue — it differs only in
/// not issuing them.
pub proof fn lemma_plan_determined(
    dst: Seq<Event>,
    src: Seq<Event>,
    colour: Option<String>,
    pa: SyncPlan,
    pb: SyncPlan,
)
    requires
        plan_valid(dst, src, colour, pa),
        plan_valid(dst, src, colour, pb),
    ensures
        pa.actions@.len() == pb.actions@.len(),
        pa.error == pb.error,
        forall|i: int|
            0 <= i < pa.actions@.len() ==> #[trigger] action_equiv(pa.actions@[i], pb.actions@[i]),
{
    let la = pa.actions@.len() as int;
    let lb = pb.actions@.len() as int;
    if la < lb {
        assert(plan_decide_ok(dst, src[la], colour, pb.actions@[la]));
        assert(pa.error is Some);
        assert(src[la].id is None);
        assert(false);
    }
    if lb < la {
        assert(plan_decide_ok(dst, src[lb], colour, pa.actions@[lb]));
        assert(pb.error is Some);
        assert(src[lb].id is None);
        assert(false);
    }
    assert forall|i: int| 0 <= i < pa.actions@.len() implies #[trigger] action_equiv(
        pa.actions@[i],
        pb.actions@[i],
    ) by {
        assert(plan_decide_ok(dst, src[i], colour, pa.actions@[i]));
        assert(plan_decide_ok(dst, src[i], colour, pb.actions@[i]));
        match src[i].id {
            Some(idv) => {
                if !spec_tagged(dst, idv@) {
                    match (pa.actions@[i], pb.actions@[i]) {
                        (SyncAction::Create { event: x }, SyncAction::Create { event: y }) => {
                            assert forall|k: Seq<char>| #[trigger] props_get(
                                x.shared_properties@,
                                k,
                            ) == props_get(y.shared_properties@, k) by {
                                if k == spec_sync_key() {
                                    assert(props_get(x.shared_properties@, k) == Some(idv@));
                                    assert(props_get(y.shared_properties@, k) == Some(idv@));
                                } else {
                                    assert(props_get(x.shared_properties@, k) == props_get(
                                        src[i].shared_properties@,
                                        k,
                                    ));
                                    assert(props_get(y.shared_properties@, k) == props_get(
                                        src[i].shared_properties@,
                                        k,
                                    ));
                                }
                            }
                        },
                        _ => {},
                    }
                }
            },
            None => {},
        }
    }
}

} // verus!
