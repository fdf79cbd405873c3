use vstd::prelude::*;

use crate::event::{AbstractEvent, UuidParameters};
use crate::operation::Error;
use crate::subscription::{Subscription, Subscriptions};

verus! {

/// The structural kind tag of an addressed object, as the object table
/// stores it.
#[derive(Clone, Copy, Debug, PartialEq, Eq, Structural)]
pub enum Discriminator {
    Attachment,
    BlogPost,
    Comment,
    Entity,
    EntityRevision,
    Page,
    PageRevision,
    TaxonomyTerm,
    User,
}

/// What the notification query needs to know of an addressed object: its
/// structural kind and, for content entities, the content type.
#[derive(Clone, Copy, Debug)]
pub struct UuidRecord {
    pub id: i32,
    pub discriminator: Discriminator,
    pub entity_type_id: Option<i32>,
}

/// One stored notification row. `seen` is the only field ever mutated.
#[derive(Clone, Copy, Debug)]
pub struct NotificationRow {
    pub id: i32,
    pub user_id: i32,
    pub date: i64,
    pub seen: bool,
    pub email: bool,
    pub email_sent: bool,
    pub event_id: i32,
}

/// One consistent snapshot of everything the notification operations read
/// and write: the stored rows, the event log they reference, and the object
/// table the query filters look at. `next_id` feeds fresh row ids.
#[derive(Debug)]
pub struct NotificationStore {
    pub notifications: Vec<NotificationRow>,
    pub events: Vec<AbstractEvent>,
    pub uuids: Vec<UuidRecord>,
    pub next_id: i32,
}

impl NotificationStore {
    /// Stored rows have pairwise distinct ids, all below the id feed.
    pub open spec fn well_formed(&self) -> bool {
        &&& forall|i: int, j: int|
            0 <= i < j < self.notifications@.len()
                ==> #[trigger] self.notifications@[i].id != #[trigger] self.notifications@[j].id
        &&& forall|i: int|
            0 <= i < self.notifications@.len() ==> #[trigger] self.notifications@[i].id
                < self.next_id
    }
}

/// The first event with the given id, if any.
pub open spec fn find_event(events: Seq<AbstractEvent>, id: i32) -> Option<AbstractEvent>
    decreases events.len(),
{
    if events.len() == 0 {
        None
    } else if events[0].id == id {
        Some(events[0])
    } else {
        find_event(events.drop_first(), id)
    }
}

/// The first object record with the given id, if any.
pub open spec fn find_uuid(uuids: Seq<UuidRecord>, id: i32) -> Option<UuidRecord>
    decreases uuids.len(),
{
    if uuids.len() == 0 {
        None
    } else if uuids[0].id == id {
        Some(uuids[0])
    } else {
        find_uuid(uuids.drop_first(), id)
    }
}

/// The content types the query allow-lists for content entities.
pub open spec fn allowed_entity_type(t: i32) -> bool {
    t == 1 || t == 2 || t == 3 || t == 4 || t == 5 || t == 6 || t == 7 || t == 8 || t == 49 || t
        == 50
}

/// Whether an object record survives the query filters: not of an excluded
/// structural kind, and for content entities only allow-listed types.
pub open spec fn kind_allowed(u: UuidRecord) -> bool {
    &&& u.discriminator != Discriminator::Attachment
    &&& u.discriminator != Discriminator::BlogPost
    &&& match u.entity_type_id {
        None => true,
        Some(t) => allowed_entity_type(t),
    }
}

/// The primary object must exist and survive the filters.
pub open spec fn primary_object_allowed(uuids: Seq<UuidRecord>, id: i32) -> bool {
    match find_uuid(uuids, id) {
        None => false,
        Some(u) => kind_allowed(u),
    }
}

/// A related object only hides the notification when it exists and is of a
/// filtered kind; an unknown related id is harmless.
pub open spec fn related_object_allowed(uuids: Seq<UuidRecord>, id: i32) -> bool {
    match find_uuid(uuids, id) {
        None => true,
        Some(u) => kind_allowed(u),
    }
}

/// Whether an event's notifications may be shown: the event carries no
/// free-form string parameter, its primary object survives the filters, and
/// so does every related object it points at.
pub open spec fn event_passes_filters(uuids: Seq<UuidRecord>, e: AbstractEvent) -> bool {
    &&& e.string_parameters@.len() == 0
    &&& primary_object_allowed(uuids, e.object_id)
    &&& forall|i: int|
        0 <= i < e.uuid_parameters.0@.len() ==> related_object_allowed(
            uuids,
            #[trigger] e.uuid_parameters.0@[i].value,
        )
}

/// Whether one stored row appears in the query for `user_id`.
pub open spec fn visible(store: NotificationStore, user_id: i32, n: NotificationRow) -> bool {
    &&& n.user_id == user_id
    &&& match find_event(store.events@, n.event_id) {
        None => false,
        Some(e) => event_passes_filters(store.uuids@, e),
    }
}

/// The notification list one user sees, as the envelope renders it.
#[derive(Clone, Copy, Debug, PartialEq, Eq)]
pub struct Notification {
    pub id: i32,
    pub unread: bool,
    pub email_sent: bool,
    pub email: bool,
    pub event_id: i32,
}

/// A query result: whose notifications, and what they look like.
#[derive(Debug)]
pub struct Notifications {
    pub user_id: i32,
    pub notifications: Vec<Notification>,
}

/// How a stored row is rendered for the caller.
pub open spec fn row_view(n: NotificationRow) -> Notification {
    Notification {
        id: n.id,
        unread: !n.seen,
        email_sent: n.email_sent,
        email: n.email,
        event_id: n.event_id,
    }
}

/// A user owed a notification for one event. Two subscribers are the same
/// exactly when their `user_id` is: the fan-out keeps at most one per user.
#[derive(Clone, Copy, Debug)]
pub struct Subscriber {
    pub user_id: i32,
    pub send_email: bool,
}

impl PartialEq for Subscriber {
    fn eq(&self, other: &Self) -> (r: bool) {
        self.user_id == other.user_id
    }
}

impl Eq for Subscriber {

}

impl vstd::std_specs::cmp::PartialEqSpecImpl for Subscriber {
    open spec fn obeys_eq_spec() -> bool {
        true
    }

    open spec fn eq_spec(&self, other: &Self) -> bool {
        self.user_id == other.user_id
    }
}

/// The objects whose subscribers an event reaches: the primary object first,
/// then every related object, duplicates permitted.
pub open spec fn candidate_objects(e: AbstractEvent) -> Seq<i32> {
    seq![e.object_id] + UuidParameters::spec_values(e.uuid_parameters.0@)
}

/// Whether some collected subscriber already has this user id.
pub open spec fn has_user(s: Seq<Subscriber>, user_id: i32) -> bool {
    exists|i: int| 0 <= i < s.len() && #[trigger] s[i].user_id == user_id
}

/// Ordered deduplication keyed by user id: on a collision the subscriber
/// inserted first keeps its `send_email` value.
pub open spec fn add_subscriber(acc: Seq<Subscriber>, s: Subscriber) -> Seq<Subscriber> {
    if has_user(acc, s.user_id) {
        acc
    } else {
        acc.push(s)
    }
}

/// Folds one object's subscriptions into the collected subscribers, in
/// registry order, skipping the acting user.
pub open spec fn collect_object(
    acc: Seq<Subscriber>,
    subs: Seq<Subscription>,
    object_id: i32,
    actor_id: i32,
) -> Seq<Subscriber>
    decreases subs.len(),
{
    if subs.len() == 0 {
        acc
    } else {
        let acc2 = if subs[0].object_id == object_id && subs[0].user_id != actor_id {
            add_subscriber(acc, Subscriber { user_id: subs[0].user_id, send_email: subs[0].send_email })
        } else {
            acc
        };
        collect_object(acc2, subs.drop_first(), object_id, actor_id)
    }
}

/// Folds every candidate object, in order.
pub open spec fn collect_objects(
    acc: Seq<Subscriber>,
    subs: Seq<Subscription>,
    objects: Seq<i32>,
    actor_id: i32,
) -> Seq<Subscriber>
    decreases objects.len(),
{
    if objects.len() == 0 {
        acc
    } else {
        collect_objects(collect_object(acc, subs, objects[0], actor_id), subs, objects.drop_first(), actor_id)
    }
}

/// Exactly who one fan-out notifies, in discovery order: subscribers of the
/// candidate objects, minus the actor, one entry per user id, first insert
/// winning the `send_email` value. Which of two differing `send_email`
/// preferences wins is an artifact of insertion order, not a considered
/// policy: it is pinned down here so that it cannot drift silently.
pub open spec fn fan_out_subscribers(
    event: AbstractEvent,
    subs: Seq<Subscription>,
) -> Seq<Subscriber> {
    collect_objects(Seq::empty(), subs, candidate_objects(event), event.actor_id)
}

/// The rows one fan-out appends: one per collected subscriber, in order,
/// unseen, dated with the event's date, fresh ids from `first_id` up.
pub open spec fn spec_new_rows(event: AbstractEvent, subs: Seq<Subscriber>, first_id: int) -> Seq<
    NotificationRow,
> {
    Seq::new(
        subs.len(),
        |i: int|
            NotificationRow {
                id: (first_id + i) as i32,
                user_id: subs[i].user_id,
                date: event.date,
                seen: false,
                email: subs[i].send_email,
                email_sent: false,
                event_id: event.id,
            },
    )
}

/// One row after one mutation step: flipped when addressed, else untouched.
pub open spec fn apply_one(n: NotificationRow, id: i32, unread: bool) -> NotificationRow {
    if n.id == id {
        NotificationRow { seen: !unread, ..n }
    } else {
        n
    }
}

/// The rows after one read/unread mutation: every row whose id occurs in
/// `ids` carries `seen == !unread`; every other row is untouched. Unknown
/// ids address no row and are silently ignored.
pub open spec fn spec_set_state(rows: Seq<NotificationRow>, ids: Seq<i32>, unread: bool) -> Seq<
    NotificationRow,
> {
    rows.map_values(
        |n: NotificationRow|
            if ids.contains(n.id) {
                NotificationRow { seen: !unread, ..n }
            } else {
                n
            },
    )
}

/// All rows after one mutation step.
spec fn set_one(rows: Seq<NotificationRow>, id: i32, unread: bool) -> Seq<NotificationRow> {
    rows.map_values(|n: NotificationRow| apply_one(n, id, unread))
}

/// The mutation as a fold over the requested ids, in request order.
spec fn set_states(rows: Seq<NotificationRow>, ids: Seq<i32>, unread: bool) -> Seq<NotificationRow>
    decreases ids.len(),
{
    if ids.len() == 0 {
        rows
    } else {
        set_states(set_one(rows, ids[0], unread), ids.drop_first(), unread)
    }
}

/// The fold computes exactly the pointwise description `spec_set_state` gives.
proof fn lemma_set_states_pointwise(rows: Seq<NotificationRow>, ids: Seq<i32>, unread: bool)
    ensures
        set_states(rows, ids, unread) == spec_set_state(rows, ids, unread),
    decreases ids.len(),
{
    if ids.len() == 0 {
        assert(set_states(rows, ids, unread) =~= spec_set_state(rows, ids, unread));
    } else {
        let rows1 = set_one(rows, ids[0], unread);
        lemma_set_states_pointwise(rows1, ids.drop_first(), unread);
        assert forall|q: int| 0 <= q < rows.len() implies spec_set_state(
            rows1,
            ids.drop_first(),
            unread,
        )[q] == spec_set_state(rows, ids, unread)[q] by {
            let n = rows[q];
            assert(rows1[q] == apply_one(n, ids[0], unread));
            if ids.contains(n.id) {
                let w = choose|w: int| 0 <= w < ids.len() && ids[w] == n.id;
                if w == 0 {
                    assert(apply_one(n, ids[0], unread).id == n.id);
                } else {
                    assert(ids.drop_first()[w - 1] == n.id);
                    assert(ids.drop_first().contains(n.id));
                }
            } else {
                assert(!ids.drop_first().contains(n.id)) by {
                    if ids.drop_first().contains(n.id) {
                        let w = choose|w: int|
                            0 <= w < ids.drop_first().len() && ids.drop_first()[w] == n.id;
                        assert(ids[w + 1] == n.id);
                    }
                }
                assert(ids[0] != n.id);
            }
        }
        assert(spec_set_state(rows1, ids.drop_first(), unread) =~= spec_set_state(
            rows,
            ids,
            unread,
        ));
    }
}

impl Notifications {
    /// Flips the seen flag of every addressed row to `!unread`. Rows already
    /// in the requested state are skipped, unknown ids are ignored, an empty
    /// id list mutates nothing, and nothing but the seen flags changes.
    pub fn set_notification_state(
        payload: &crate::notification::set_state_mutation::Payload,
        store: &mut NotificationStore,
    ) -> (r: Result<(), Error>)
        ensures
            r is Ok,
            final(store).notifications@ == spec_set_state(
                old(store).notifications@,
                payload.ids@,
                payload.unread,
            ),
            final(store).events == old(store).events,
            final(store).uuids == old(store).uuids,
            final(store).next_id == old(store).next_id,
            old(store).well_formed() ==> final(store).well_formed(),
    {
        let seen = !payload.unread;
        let nids = payload.ids.len();
        let mut t: usize = 0;
        proof {
            assert(payload.ids@.skip(0) =~= payload.ids@);
        }
        while t < nids
            invariant
                nids == payload.ids@.len(),
                t <= nids,
                seen == !payload.unread,
                set_states(old(store).notifications@, payload.ids@, payload.unread)
                    == set_states(
                    store.notifications@,
                    payload.ids@.skip(t as int),
                    payload.unread,
                ),
                store.events == old(store).events,
                store.uuids == old(store).uuids,
                store.next_id == old(store).next_id,
            decreases nids - t,
        {
            let id = payload.ids[t];
            let ghost prev = store.notifications@;
            proof {
                assert(payload.ids@.skip(t as int)[0] == payload.ids@[t as int]);
                assert(payload.ids@.skip(t as int).drop_first() =~= payload.ids@.skip(
                    t as int + 1,
                ));
            }
            let nrows = store.notifications.len();
            let mut j: usize = 0;
            while j < nrows
                invariant
                    nrows == store.notifications@.len(),
                    j <= nrows,
                    seen == !payload.unread,
                    store.notifications@.len() == prev.len(),
                    forall|q: int|
                        0 <= q < j ==> store.notifications@[q] == apply_one(
                            #[trigger] prev[q],
                            id,
                            payload.unread,
                        ),
                    forall|q: int| j <= q < nrows ==> store.notifications@[q] == #[trigger] prev[q],
                    store.events == old(store).events,
                    store.uuids == old(store).uuids,
                    store.next_id == old(store).next_id,
                decreases nrows - j,
            {
                if store.notifications[j].id == id && store.notifications[j].seen != seen {
                    store.notifications[j].seen = seen;
                }
                j = j + 1;
            }
            proof {
                assert(store.notifications@ =~= set_one(prev, id, payload.unread));
            }
            t = t + 1;
        }
        proof {
            assert(payload.ids@.skip(nids as int) =~= Seq::<i32>::empty());
            lemma_set_states_pointwise(old(store).notifications@, payload.ids@, payload.unread);
            if old(store).well_formed() {
                let rows = store.notifications@;
                let oldrows = old(store).notifications@;
                assert(forall|q: int|
                    0 <= q < rows.len() ==> (#[trigger] rows[q]).id == oldrows[q].id);
            }
        }
        Ok(())
    }
}

fn contains_user(s: &Vec<Subscriber>, user_id: i32) -> (r: bool)
    ensures
        r == has_user(s@, user_id),
{
    let n = s.len();
    let mut i: usize = 0;
    while i < n
        invariant
            n == s@.len(),
            i <= n,
            forall|k: int| 0 <= k < i ==> #[trigger] s@[k].user_id != user_id,
        decreases n - i,
    {
        if s[i].user_id == user_id {
            return true;
        }
        i = i + 1;
    }
    false
}

/// One object's registry lookup folded into the collected subscribers.
fn collect_for_object(
    subscribers: &mut Vec<Subscriber>,
    subscriptions: &Subscriptions,
    object_id: i32,
    actor_id: i32,
)
    ensures
        final(subscribers)@ == collect_object(
            old(subscribers)@,
            subscriptions.0@,
            object_id,
            actor_id,
        ),
{
    let n = subscriptions.0.len();
    let mut j: usize = 0;
    proof {
        assert(subscriptions.0@.skip(0) =~= subscriptions.0@);
    }
    while j < n
        invariant
            n == subscriptions.0@.len(),
            j <= n,
            collect_object(old(subscribers)@, subscriptions.0@, object_id, actor_id)
                == collect_object(
                subscribers@,
                subscriptions.0@.skip(j as int),
                object_id,
                actor_id,
            ),
        decreases n - j,
    {
        let sub = subscriptions.0[j];
        proof {
            assert(subscriptions.0@.skip(j as int)[0] == subscriptions.0@[j as int]);
            assert(subscriptions.0@.skip(j as int).drop_first() =~= subscriptions.0@.skip(
                j as int + 1,
            ));
        }
        if sub.object_id == object_id && sub.user_id != actor_id {
            if !contains_user(subscribers, sub.user_id) {
                subscribers.push(Subscriber { user_id: sub.user_id, send_email: sub.send_email });
            }
        }
        j = j + 1;
    }
    proof {
        assert(subscriptions.0@.skip(n as int) =~= Seq::<
            crate::subscription::Subscription,
        >::empty());
    }
}

/// Discovers every interested party of one event: subscribers of the primary
/// and of each related object, minus the actor, deduplicated by user id.
fn subscribers_of(event: &AbstractEvent, subscriptions: &Subscriptions) -> (r: Vec<Subscriber>)
    ensures
        r@ == fan_out_subscribers(*event, subscriptions.0@),
{
    let mut object_ids: Vec<i32> = Vec::new();
    object_ids.push(event.object_id);
    let mut vals = event.uuid_parameters.values();
    object_ids.append(&mut vals);
    proof {
        assert(object_ids@ =~= candidate_objects(*event));
    }

    let mut subscribers: Vec<Subscriber> = Vec::new();
    let no = object_ids.len();
    let mut i: usize = 0;
    proof {
        assert(object_ids@.skip(0) =~= object_ids@);
    }
    while i < no
        invariant
            no == object_ids@.len(),
            i <= no,
            object_ids@ == candidate_objects(*event),
            fan_out_subscribers(*event, subscriptions.0@) == collect_objects(
                subscribers@,
                subscriptions.0@,
                object_ids@.skip(i as int),
                event.actor_id,
            ),
        decreases no - i,
    {
        proof {
            assert(object_ids@.skip(i as int)[0] == object_ids@[i as int]);
            assert(object_ids@.skip(i as int).drop_first() =~= object_ids@.skip(i as int + 1));
        }
        collect_for_object(&mut subscribers, subscriptions, object_ids[i], event.actor_id);
        i = i + 1;
    }
    proof {
        assert(object_ids@.skip(no as int) =~= Seq::<i32>::empty());
    }
    subscribers
}

/// `a` comes before `b` in query order: newer first, larger id on ties.
pub open spec fn row_before(a: NotificationRow, b: NotificationRow) -> bool {
    a.date > b.date || (a.date == b.date && a.id > b.id)
}

/// Insertion into query order: `r` goes in front of the first element it
/// beats.
pub open spec fn insert_sorted(s: Seq<NotificationRow>, r: NotificationRow) -> Seq<
    NotificationRow,
>
    decreases s.len(),
{
    if s.len() == 0 {
        seq![r]
    } else if row_before(r, s[0]) {
        seq![r] + s
    } else {
        seq![s[0]] + insert_sorted(s.drop_first(), r)
    }
}

/// The rows in query order, built by inserting one row after the other.
pub open spec fn sort_rows(s: Seq<NotificationRow>) -> Seq<NotificationRow>
    decreases s.len(),
{
    if s.len() == 0 {
        Seq::empty()
    } else {
        insert_sorted(sort_rows(s.drop_last()), s.last())
    }
}

/// The query filter, applied to one user's view of the store.
pub open spec fn visible_pred(store: NotificationStore, user_id: i32) -> spec_fn(
    NotificationRow,
) -> bool {
    |n: NotificationRow| visible(store, user_id, n)
}

/// The stored rows one user may see, in storage order.
pub open spec fn visible_rows(store: NotificationStore, user_id: i32) -> Seq<NotificationRow> {
    store.notifications@.filter(visible_pred(store, user_id))
}

/// The stored rows one user may see, in query order.
pub open spec fn query_rows(store: NotificationStore, user_id: i32) -> Seq<NotificationRow> {
    sort_rows(visible_rows(store, user_id))
}

/// What the query returns: the visible rows, in query order, rendered.
pub open spec fn spec_fetch(store: NotificationStore, user_id: i32) -> Seq<Notification> {
    query_rows(store, user_id).map_values(|n: NotificationRow| row_view(n))
}

/// Inserting before the first beaten element is where `insert_sorted` lands.
proof fn lemma_insert_sorted_at(s: Seq<NotificationRow>, r: NotificationRow, p: int)
    requires
        0 <= p <= s.len(),
        forall|q: int| 0 <= q < p ==> !row_before(r, #[trigger] s[q]),
        p < s.len() ==> row_before(r, s[p]),
    ensures
        insert_sorted(s, r) == s.insert(p, r),
    decreases s.len(),
{
    if s.len() == 0 {
        assert(insert_sorted(s, r) =~= s.insert(0, r));
    } else if row_before(r, s[0]) {
        assert(p == 0);
        assert(insert_sorted(s, r) =~= s.insert(0, r));
    } else {
        assert(p >= 1);
        let tail = s.drop_first();
        assert(forall|q: int| 0 <= q < p - 1 ==> !row_before(r, #[trigger] tail[q]));
        lemma_insert_sorted_at(tail, r, p - 1);
        assert(seq![s[0]] + tail.insert(p - 1, r) =~= s.insert(p, r));
    }
}

fn row_before_exec(a: &NotificationRow, b: &NotificationRow) -> (r: bool)
    ensures
        r == row_before(*a, *b),
{
    a.date > b.date || (a.date == b.date && a.id > b.id)
}

/// The first stored event with this id, as the join walks the log.
fn event_by_id<'a>(events: &'a Vec<AbstractEvent>, id: i32) -> (r: Option<&'a AbstractEvent>)
    ensures
        match r {
            Some(e) => find_event(events@, id) == Some(*e),
            None => find_event(events@, id) is None,
        },
{
    let n = events.len();
    let mut i: usize = 0;
    proof {
        assert(events@.skip(0) =~= events@);
    }
    while i < n
        invariant
            n == events@.len(),
            i <= n,
            find_event(events@, id) == find_event(events@.skip(i as int), id),
        decreases n - i,
    {
        proof {
            assert(events@.skip(i as int)[0] == events@[i as int]);
            assert(events@.skip(i as int).drop_first() =~= events@.skip(i as int + 1));
        }
        if events[i].id == id {
            return Some(&events[i]);
        }
        i = i + 1;
    }
    proof {
        assert(events@.skip(n as int) =~= Seq::<AbstractEvent>::empty());
    }
    None
}

/// The first object record with this id.
fn uuid_by_id(uuids: &Vec<UuidRecord>, id: i32) -> (r: Option<UuidRecord>)
    ensures
        r == find_uuid(uuids@, id),
{
    let n = uuids.len();
    let mut i: usize = 0;
    proof {
        assert(uuids@.skip(0) =~= uuids@);
    }
    while i < n
        invariant
            n == uuids@.len(),
            i <= n,
            find_uuid(uuids@, id) == find_uuid(uuids@.skip(i as int), id),
        decreases n - i,
    {
        proof {
            assert(uuids@.skip(i as int)[0] == uuids@[i as int]);
            assert(uuids@.skip(i as int).drop_first() =~= uuids@.skip(i as int + 1));
        }
        if uuids[i].id == id {
            return Some(uuids[i]);
        }
        i = i + 1;
    }
    proof {
        assert(uuids@.skip(n as int) =~= Seq::<UuidRecord>::empty());
    }
    None
}

fn kind_allowed_exec(u: &UuidRecord) -> (r: bool)
    ensures
        r == kind_allowed(*u),
{
    if u.discriminator == Discriminator::Attachment {
        return false;
    }
    if u.discriminator == Discriminator::BlogPost {
        return false;
    }
    match u.entity_type_id {
        None => true,
        Some(t) => t == 1 || t == 2 || t == 3 || t == 4 || t == 5 || t == 6 || t == 7 || t == 8
            || t == 49 || t == 50,
    }
}

/// The filter the query applies to one event and its objects.
fn event_passes_filters_exec(uuids: &Vec<UuidRecord>, e: &AbstractEvent) -> (r: bool)
    ensures
        r == event_passes_filters(uuids@, *e),
{
    if e.string_parameters.len() > 0 {
        return false;
    }
    match uuid_by_id(uuids, e.object_id) {
        None => {
            return false;
        },
        Some(u) => {
            if !kind_allowed_exec(&u) {
                return false;
            }
        },
    }
    let np = e.uuid_parameters.0.len();
    let mut i: usize = 0;
    while i < np
        invariant
            np == e.uuid_parameters.0@.len(),
            i <= np,
            e.string_parameters@.len() == 0,
            primary_object_allowed(uuids@, e.object_id),
            forall|k: int|
                0 <= k < i ==> related_object_allowed(
                    uuids@,
                    #[trigger] e.uuid_parameters.0@[k].value,
                ),
        decreases np - i,
    {
        match uuid_by_id(uuids, e.uuid_parameters.0[i].value) {
            None => {},
            Some(u) => {
                if !kind_allowed_exec(&u) {
                    proof {
                        assert(!related_object_allowed(
                            uuids@,
                            e.uuid_parameters.0@[i as int].value,
                        ));
                    }
                    return false;
                }
            },
        }
        i = i + 1;
    }
    true
}

/// Whether one stored row appears in the query for `user_id`.
fn is_visible(store: &NotificationStore, user_id: i32, n: &NotificationRow) -> (r: bool)
    ensures
        r == visible(*store, user_id, *n),
{
    if n.user_id != user_id {
        return false;
    }
    match event_by_id(&store.events, n.event_id) {
        None => false,
        Some(e) => event_passes_filters_exec(&store.uuids, e),
    }
}

impl Notifications {
    /// The query: every visible row of one user, newest first, larger ids
    /// first among rows of one date, each row rendered once.
    pub fn fetch_via_transaction(user_id: i32, store: &NotificationStore) -> (r: Result<
        Notifications,
        Error,
    >)
        ensures
            r matches Ok(ns) && ns.user_id == user_id && ns.notifications@ == spec_fetch(
                *store,
                user_id,
            ),
    {
        let nr = store.notifications.len();
        let mut rows: Vec<NotificationRow> = Vec::new();
        let mut k: usize = 0;
        proof {
            reveal(Seq::filter);
            assert(store.notifications@.take(0) =~= Seq::<NotificationRow>::empty());
        }
        while k < nr
            invariant
                nr == store.notifications@.len(),
                k <= nr,
                rows@ == sort_rows(
                    store.notifications@.take(k as int).filter(visible_pred(*store, user_id)),
                ),
            decreases nr - k,
        {
            let row = store.notifications[k];
            let ghost pre = store.notifications@.take(k as int);
            let ghost cur = store.notifications@.take(k as int + 1);
            proof {
                reveal(Seq::filter);
                assert(cur.drop_last() =~= pre);
                assert(cur.last() == store.notifications@[k as int]);
            }
            if is_visible(store, user_id, &row) {
                proof {
                    assert(visible_pred(*store, user_id)(row));
                    assert(cur.filter(visible_pred(*store, user_id)) == pre.filter(
                        visible_pred(*store, user_id),
                    ).push(row));
                }
                let nrw = rows.len();
                let mut p: usize = 0;
                let mut found = false;
                while p < nrw && !found
                    invariant
                        nrw == rows@.len(),
                        p <= nrw,
                        forall|q: int| 0 <= q < p ==> !row_before(row, #[trigger] rows@[q]),
                        found ==> p < nrw && row_before(row, rows@[p as int]),
                    decreases nrw - p + (if found { 0int } else { 1int }),
                {
                    if row_before_exec(&row, &rows[p]) {
                        found = true;
                    } else {
                        p = p + 1;
                    }
                }
                proof {
                    lemma_insert_sorted_at(rows@, row, p as int);
                }
                rows.insert(p, row);
                proof {
                    let fpre = pre.filter(visible_pred(*store, user_id));
                    let fcur = cur.filter(visible_pred(*store, user_id));
                    assert(fcur.drop_last() =~= fpre);
                    assert(fcur.last() == row);
                    assert(sort_rows(fcur) == insert_sorted(sort_rows(fpre), row));
                    assert(rows@ == sort_rows(fcur));
                }
            } else {
                proof {
                    assert(!visible_pred(*store, user_id)(row));
                    assert(cur.filter(visible_pred(*store, user_id)) == pre.filter(
                        visible_pred(*store, user_id),
                    ));
                }
            }
            k = k + 1;
        }
        proof {
            assert(store.notifications@.take(nr as int) =~= store.notifications@);
        }

        let nsorted = rows.len();
        let mut out: Vec<Notification> = Vec::new();
        let mut i: usize = 0;
        while i < nsorted
            invariant
                nsorted == rows@.len(),
                i <= nsorted,
                out@ =~= rows@.take(i as int).map_values(|n: NotificationRow| row_view(n)),
            decreases nsorted - i,
        {
            let rw = &rows[i];
            out.push(
                Notification {
                    id: rw.id,
                    unread: !rw.seen,
                    email_sent: rw.email_sent,
                    email: rw.email,
                    event_id: rw.event_id,
                },
            );
            i = i + 1;
            proof {
                assert(out@ =~= rows@.take(i as int).map_values(
                    |n: NotificationRow| row_view(n),
                ));
            }
        }
        proof {
            assert(rows@.take(nsorted as int) =~= rows@);
            assert(out@ =~= spec_fetch(*store, user_id));
        }
        Ok(Notifications { user_id, notifications: out })
    }

    /// The query against a freshly checked-out snapshot; identical in
    /// outcome to the transaction-borrowing variant.
    pub fn fetch(user_id: i32, store: &NotificationStore) -> (r: Result<Notifications, Error>)
        ensures
            r matches Ok(ns) && ns.user_id == user_id && ns.notifications@ == spec_fetch(
                *store,
                user_id,
            ),
    {
        Self::fetch_via_transaction(user_id, store)
    }

    /// Appends one fresh, unseen row for one subscriber of one event.
    fn create_notification(
        event: &AbstractEvent,
        subscriber: &Subscriber,
        store: &mut NotificationStore,
    )
        requires
            old(store).next_id < i32::MAX,
        ensures
            final(store).notifications@ == old(store).notifications@.push(
                NotificationRow {
                    id: old(store).next_id,
                    user_id: subscriber.user_id,
                    date: event.date,
                    seen: false,
                    email: subscriber.send_email,
                    email_sent: false,
                    event_id: event.id,
                },
            ),
            final(store).next_id == old(store).next_id + 1,
            final(store).events == old(store).events,
            final(store).uuids == old(store).uuids,
    {
        let row = NotificationRow {
            id: store.next_id,
            user_id: subscriber.user_id,
            date: event.date,
            seen: false,
            email: subscriber.send_email,
            email_sent: false,
            event_id: event.id,
        };
        store.notifications.push(row);
        store.next_id = store.next_id + 1;
    }

    /// The fan-out: discovers and deduplicates the interested parties of one
    /// event and durably records exactly one notification per unique user,
    /// never one for the actor. All rows are appended or none: the verified
    /// body cannot fail partway.
    pub fn create_notifications(
        event: &AbstractEvent,
        subscriptions: &Subscriptions,
        store: &mut NotificationStore,
    ) -> (r: Result<(), Error>)
        requires
            old(store).next_id + fan_out_subscribers(*event, subscriptions.0@).len()
                <= i32::MAX,
        ensures
            r is Ok,
            final(store).notifications@ == old(store).notifications@ + spec_new_rows(
                *event,
                fan_out_subscribers(*event, subscriptions.0@),
                old(store).next_id as int,
            ),
            final(store).next_id == old(store).next_id + fan_out_subscribers(
                *event,
                subscriptions.0@,
            ).len(),
            final(store).events == old(store).events,
            final(store).uuids == old(store).uuids,
            old(store).well_formed() ==> final(store).well_formed(),
    {
        let subscribers = subscribers_of(event, subscriptions);
        let ghost subs = subscribers@;
        let ghost first = old(store).next_id as int;
        let ns = subscribers.len();
        let mut k: usize = 0;
        proof {
            assert(store.notifications@ =~= old(store).notifications@ + spec_new_rows(
                *event,
                subs.take(0),
                first,
            ));
        }
        while k < ns
            invariant
                ns == subs.len(),
                k <= ns,
                subscribers@ == subs,
                first + ns <= i32::MAX,
                store.next_id == first + k,
                store.notifications@ == old(store).notifications@ + spec_new_rows(
                    *event,
                    subs.take(k as int),
                    first,
                ),
                store.events == old(store).events,
                store.uuids == old(store).uuids,
            decreases ns - k,
        {
            Self::create_notification(event, &subscribers[k], store);
            k = k + 1;
            proof {
                assert(store.notifications@ =~= old(store).notifications@ + spec_new_rows(
                    *event,
                    subs.take(k as int),
                    first,
                ));
            }
        }
        proof {
            assert(subs.take(ns as int) =~= subs);
            if old(store).well_formed() {
                let rows = store.notifications@;
                let oldrows = old(store).notifications@;
                assert forall|i: int, j: int| 0 <= i < j < rows.len() implies #[trigger] rows[i].id
                    != #[trigger] rows[j].id by {
                    if j >= oldrows.len() {
                        assert(rows[j].id == first + (j - oldrows.len()));
                        if i >= oldrows.len() {
                            assert(rows[i].id == first + (i - oldrows.len()));
                        } else {
                            assert(rows[i].id < first);
                        }
                    }
                }
                assert forall|i: int| 0 <= i < rows.len() implies #[trigger] rows[i].id
                    < store.next_id by {
                    if i >= oldrows.len() {
                        assert(rows[i].id == first + (i - oldrows.len()));
                    } else {
                        assert(rows[i].id < first);
                    }
                }
            }
        }
        Ok(())
    }
}

/// Whether some subscription row subscribes `user_id` to `object_id`.
pub open spec fn subscribed(subs: Seq<Subscription>, object_id: i32, user_id: i32) -> bool {
    exists|i: int|
        0 <= i < subs.len() && (#[trigger] subs[i]).object_id == object_id && subs[i].user_id
            == user_id
}

/// No collected subscriber shares a user id with another.
pub open spec fn unique_users(s: Seq<Subscriber>) -> bool {
    forall|i: int, j: int|
        0 <= i < j < s.len() ==> (#[trigger] s[i]).user_id != (#[trigger] s[j]).user_id
}

proof fn lemma_collect_object_membership(
    acc: Seq<Subscriber>,
    subs: Seq<Subscription>,
    object_id: i32,
    actor_id: i32,
    u: i32,
)
    ensures
        has_user(collect_object(acc, subs, object_id, actor_id), u) <==> (has_user(acc, u) || (u
            != actor_id && subscribed(subs, object_id, u))),
    decreases subs.len(),
{
    if subs.len() == 0 {
    } else {
        let tail = subs.drop_first();
        let acc2 = if subs[0].object_id == object_id && subs[0].user_id != actor_id {
            add_subscriber(
                acc,
                Subscriber { user_id: subs[0].user_id, send_email: subs[0].send_email },
            )
        } else {
            acc
        };
        lemma_collect_object_membership(acc2, tail, object_id, actor_id, u);
        assert(subscribed(subs, object_id, u) <==> ((subs[0].object_id == object_id
            && subs[0].user_id == u) || subscribed(tail, object_id, u))) by {
            if subscribed(subs, object_id, u) {
                let w = choose|w: int|
                    0 <= w < subs.len() && (#[trigger] subs[w]).object_id == object_id
                        && subs[w].user_id == u;
                if w > 0 {
                    assert(tail[w - 1] == subs[w]);
                }
            }
            if subscribed(tail, object_id, u) {
                let w = choose|w: int|
                    0 <= w < tail.len() && (#[trigger] tail[w]).object_id == object_id
                        && tail[w].user_id == u;
                assert(subs[w + 1] == tail[w]);
            }
        }
        assert(has_user(acc2, u) <==> (has_user(acc, u) || (subs[0].object_id == object_id
            && subs[0].user_id != actor_id && subs[0].user_id == u))) by {
            if subs[0].object_id == object_id && subs[0].user_id != actor_id {
                let s = Subscriber { user_id: subs[0].user_id, send_email: subs[0].send_email };
                if has_user(acc, s.user_id) {
                } else {
                    let pushed = acc.push(s);
                    assert(pushed[acc.len() as int].user_id == s.user_id);
                    if has_user(pushed, u) {
                        let w = choose|w: int|
                            0 <= w < pushed.len() && (#[trigger] pushed[w]).user_id == u;
                        if w < acc.len() {
                            assert(acc[w].user_id == u);
                        }
                    }
                    if has_user(acc, u) {
                        let w = choose|w: int|
                            0 <= w < acc.len() && (#[trigger] acc[w]).user_id == u;
                        assert(pushed[w].user_id == u);
                    }
                }
            }
        }
    }
}

proof fn lemma_collect_objects_membership(
    acc: Seq<Subscriber>,
    subs: Seq<Subscription>,
    objects: Seq<i32>,
    actor_id: i32,
    u: i32,
)
    ensures
        has_user(collect_objects(acc, subs, objects, actor_id), u) <==> (has_user(acc, u) || (u
            != actor_id && exists|j: int|
            0 <= j < objects.len() && subscribed(subs, #[trigger] objects[j], u))),
    decreases objects.len(),
{
    if objects.len() == 0 {
    } else {
        let tail = objects.drop_first();
        let acc2 = collect_object(acc, subs, objects[0], actor_id);
        lemma_collect_objects_membership(acc2, subs, tail, actor_id, u);
        lemma_collect_object_membership(acc, subs, objects[0], actor_id, u);
        assert((exists|j: int| 0 <= j < objects.len() && subscribed(subs, #[trigger] objects[j], u))
            <==> (subscribed(subs, objects[0], u) || (exists|j: int|
            0 <= j < tail.len() && subscribed(subs, #[trigger] tail[j], u)))) by {
            if exists|j: int| 0 <= j < objects.len() && subscribed(subs, #[trigger] objects[j], u) {
                let w = choose|w: int|
                    0 <= w < objects.len() && subscribed(subs, #[trigger] objects[w], u);
                if w > 0 {
                    assert(tail[w - 1] == objects[w]);
                }
            }
            if exists|j: int| 0 <= j < tail.len() && subscribed(subs, #[trigger] tail[j], u) {
                let w = choose|w: int| 0 <= w < tail.len() && subscribed(subs, #[trigger] tail[w], u);
                assert(objects[w + 1] == tail[w]);
            }
        }
    }
}

proof fn lemma_collect_object_unique(
    acc: Seq<Subscriber>,
    subs: Seq<Subscription>,
    object_id: i32,
    actor_id: i32,
)
    requires
        unique_users(acc),
    ensures
        unique_users(collect_object(acc, subs, object_id, actor_id)),
    decreases subs.len(),
{
    if subs.len() == 0 {
    } else {
        let acc2 = if subs[0].object_id == object_id && subs[0].user_id != actor_id {
            add_subscriber(
                acc,
                Subscriber { user_id: subs[0].user_id, send_email: subs[0].send_email },
            )
        } else {
            acc
        };
        assert(unique_users(acc2)) by {
            if subs[0].object_id == object_id && subs[0].user_id != actor_id {
                let s = Subscriber { user_id: subs[0].user_id, send_email: subs[0].send_email };
                if !has_user(acc, s.user_id) {
                    let pushed = acc.push(s);
                    assert forall|i: int, j: int| 0 <= i < j < pushed.len() implies (
                    #[trigger] pushed[i]).user_id != (#[trigger] pushed[j]).user_id by {
                        if j == acc.len() {
                            assert(pushed[i] == acc[i]);
                            if pushed[i].user_id == s.user_id {
                                assert(acc[i].user_id == s.user_id);
                            }
                        }
                    }
                }
            }
        }
        lemma_collect_object_unique(acc2, subs.drop_first(), object_id, actor_id);
    }
}

proof fn lemma_collect_objects_unique(
    acc: Seq<Subscriber>,
    subs: Seq<Subscription>,
    objects: Seq<i32>,
    actor_id: i32,
)
    requires
        unique_users(acc),
    ensures
        unique_users(collect_objects(acc, subs, objects, actor_id)),
    decreases objects.len(),
{
    if objects.len() == 0 {
    } else {
        lemma_collect_object_unique(acc, subs, objects[0], actor_id);
        lemma_collect_objects_unique(
            collect_object(acc, subs, objects[0], actor_id),
            subs,
            objects.drop_first(),
            actor_id,
        );
    }
}

/// One fan-out notifies each user at most once, however many of the event's
/// objects the user subscribes to and however many duplicate subscription
/// rows the registry holds.
pub proof fn lemma_fan_out_unique_users(event: AbstractEvent, subs: Seq<Subscription>)
    ensures
        unique_users(fan_out_subscribers(event, subs)),
{
    lemma_collect_objects_unique(
        Seq::empty(),
        subs,
        candidate_objects(event),
        event.actor_id,
    );
}

/// Exactly who is fanned out: a user is notified if and only if they are not
/// the actor and subscribe to at least one of the event's candidate objects.
pub proof fn lemma_fan_out_membership(event: AbstractEvent, subs: Seq<Subscription>, u: i32)
    ensures
        has_user(fan_out_subscribers(event, subs), u) <==> (u != event.actor_id && exists|j: int|
            0 <= j < candidate_objects(event).len() && subscribed(
                subs,
                #[trigger] candidate_objects(event)[j],
                u,
            )),
{
    lemma_collect_objects_membership(
        Seq::empty(),
        subs,
        candidate_objects(event),
        event.actor_id,
        u,
    );
}

/// An event none of whose candidate objects has any subscriber fans out to
/// nobody: zero notifications are created.
pub proof fn lemma_fan_out_no_subscribers(event: AbstractEvent, subs: Seq<Subscription>)
    requires
        forall|i: int|
            0 <= i < subs.len() ==> !candidate_objects(event).contains(
                (#[trigger] subs[i]).object_id,
            ),
    ensures
        fan_out_subscribers(event, subs).len() == 0,
{
    let result = fan_out_subscribers(event, subs);
    if result.len() > 0 {
        let u = result[0].user_id;
        assert(has_user(result, u));
        lemma_fan_out_membership(event, subs, u);
        let j = choose|j: int|
            0 <= j < candidate_objects(event).len() && subscribed(
                subs,
                #[trigger] candidate_objects(event)[j],
                u,
            );
        let w = choose|w: int|
            0 <= w < subs.len() && (#[trigger] subs[w]).object_id == candidate_objects(event)[j]
                && subs[w].user_id == u;
        assert(candidate_objects(event).contains(subs[w].object_id));
    }
}

/// An event whose only interested party is its own actor fans out to nobody:
/// the acting user never receives a notification.
pub proof fn lemma_fan_out_actor_only(event: AbstractEvent, subs: Seq<Subscription>)
    requires
        forall|i: int|
            0 <= i < subs.len() && candidate_objects(event).contains(
                (#[trigger] subs[i]).object_id,
            ) ==> subs[i].user_id == event.actor_id,
    ensures
        fan_out_subscribers(event, subs).len() == 0,
{
    let result = fan_out_subscribers(event, subs);
    if result.len() > 0 {
        let u = result[0].user_id;
        assert(has_user(result, u));
        lemma_fan_out_membership(event, subs, u);
        let j = choose|j: int|
            0 <= j < candidate_objects(event).len() && subscribed(
                subs,
                #[trigger] candidate_objects(event)[j],
                u,
            );
        let w = choose|w: int|
            0 <= w < subs.len() && (#[trigger] subs[w]).object_id == candidate_objects(event)[j]
                && subs[w].user_id == u;
        assert(candidate_objects(event).contains(subs[w].object_id));
        assert(u == event.actor_id);
    }
}

/// A user subscribed to both the primary object and a related object of one
/// event is fanned out exactly once: one notification, not two.
pub proof fn lemma_fan_out_shared_subscriber(
    event: AbstractEvent,
    subs: Seq<Subscription>,
    u: i32,
)
    requires
        u != event.actor_id,
        subscribed(subs, event.object_id, u),
        exists|j: int|
            0 <= j < event.uuid_parameters.0@.len() && subscribed(
                subs,
                (#[trigger] event.uuid_parameters.0@[j]).value,
                u,
            ),
    ensures
        has_user(fan_out_subscribers(event, subs), u),
        forall|i: int, j: int|
            0 <= i < j < fan_out_subscribers(event, subs).len() ==> !((
            #[trigger] fan_out_subscribers(event, subs)[i]).user_id == u && (
            #[trigger] fan_out_subscribers(event, subs)[j]).user_id == u),
{
    lemma_fan_out_membership(event, subs, u);
    assert(candidate_objects(event)[0] == event.object_id);
    lemma_fan_out_unique_users(event, subs);
}

/// Applying one read/unread mutation twice is the same as applying it once:
/// the second pass finds every addressed row already in the requested state.
pub proof fn lemma_set_state_idempotent(rows: Seq<NotificationRow>, ids: Seq<i32>, unread: bool)
    ensures
        spec_set_state(spec_set_state(rows, ids, unread), ids, unread) == spec_set_state(
            rows,
            ids,
            unread,
        ),
{
    let once = spec_set_state(rows, ids, unread);
    assert forall|q: int| 0 <= q < once.len() implies spec_set_state(once, ids, unread)[q]
        == once[q] by {
        assert(once[q].id == rows[q].id);
    }
    assert(spec_set_state(once, ids, unread) =~= once);
}

/// A mutation with an empty id list succeeds and mutates nothing.
pub proof fn lemma_set_state_empty(rows: Seq<NotificationRow>, unread: bool)
    ensures
        spec_set_state(rows, Seq::<i32>::empty(), unread) == rows,
{
    assert(spec_set_state(rows, Seq::<i32>::empty(), unread) =~= rows);
}

/// `a` may stand at or before `b` in query order.
pub open spec fn row_key_ge(a: NotificationRow, b: NotificationRow) -> bool {
    a.date > b.date || (a.date == b.date && a.id >= b.id)
}

/// In query order: dates descending, ids descending among equal dates.
pub open spec fn rows_ordered(s: Seq<NotificationRow>) -> bool {
    forall|i: int, j: int| 0 <= i < j < s.len() ==> row_key_ge(#[trigger] s[i], #[trigger] s[j])
}

/// No two rows share an id.
pub open spec fn unique_ids(s: Seq<NotificationRow>) -> bool {
    forall|i: int, j: int| 0 <= i < j < s.len() ==> (#[trigger] s[i]).id != (#[trigger] s[j]).id
}

proof fn lemma_insert_sorted_props(s: Seq<NotificationRow>, r: NotificationRow)
    ensures
        insert_sorted(s, r).len() == s.len() + 1,
        forall|x: NotificationRow| #[trigger]
            insert_sorted(s, r).contains(x) <==> (s.contains(x) || x == r),
        rows_ordered(s) ==> rows_ordered(insert_sorted(s, r)),
    decreases s.len(),
{
    let out = insert_sorted(s, r);
    if s.len() == 0 {
        assert forall|x: NotificationRow| #[trigger] out.contains(x) implies (s.contains(x) || x
            == r) by {
            let w = choose|w: int| 0 <= w < out.len() && out[w] == x;
            assert(out[0] == r);
        }
        assert(out.contains(r)) by {
            assert(out[0] == r);
        }
    } else if row_before(r, s[0]) {
        assert(out == seq![r] + s);
        assert forall|x: NotificationRow| #[trigger] out.contains(x) implies (s.contains(x) || x
            == r) by {
            let w = choose|w: int| 0 <= w < out.len() && out[w] == x;
            if w > 0 {
                assert(s[w - 1] == x);
            }
        }
        assert forall|x: NotificationRow| s.contains(x) || x == r implies #[trigger] out.contains(
            x,
        ) by {
            if s.contains(x) {
                let w = choose|w: int| 0 <= w < s.len() && s[w] == x;
                assert(out[w + 1] == x);
            } else {
                assert(out[0] == r);
            }
        }
        if rows_ordered(s) {
            assert forall|i: int, j: int| 0 <= i < j < out.len() implies row_key_ge(
                #[trigger] out[i],
                #[trigger] out[j],
            ) by {
                if i == 0 {
                    assert(out[j] == s[j - 1]);
                    if j > 1 {
                        assert(row_key_ge(s[0], s[j - 1]));
                    }
                } else {
                    assert(out[i] == s[i - 1]);
                    assert(out[j] == s[j - 1]);
                }
            }
        }
    } else {
        let tail = s.drop_first();
        let tout = insert_sorted(tail, r);
        lemma_insert_sorted_props(tail, r);
        assert(out == seq![s[0]] + tout);
        assert forall|x: NotificationRow| #[trigger] out.contains(x) implies (s.contains(x) || x
            == r) by {
            let w = choose|w: int| 0 <= w < out.len() && out[w] == x;
            if w == 0 {
                assert(s[0] == x);
            } else {
                assert(tout[w - 1] == x);
                assert(tout.contains(x));
                if tail.contains(x) {
                    let v = choose|v: int| 0 <= v < tail.len() && tail[v] == x;
                    assert(s[v + 1] == x);
                }
            }
        }
        assert forall|x: NotificationRow| s.contains(x) || x == r implies #[trigger] out.contains(
            x,
        ) by {
            if s.contains(x) {
                let w = choose|w: int| 0 <= w < s.len() && s[w] == x;
                if w == 0 {
                    assert(out[0] == x);
                } else {
                    assert(tail[w - 1] == x);
                    assert(tout.contains(tail[w - 1]));
                    let v = choose|v: int| 0 <= v < tout.len() && tout[v] == x;
                    assert(out[v + 1] == x);
                }
            } else {
                assert(tout.contains(r));
                let v = choose|v: int| 0 <= v < tout.len() && tout[v] == r;
                assert(out[v + 1] == r);
            }
        }
        if rows_ordered(s) {
            assert(rows_ordered(tail)) by {
                assert forall|i: int, j: int| 0 <= i < j < tail.len() implies row_key_ge(
                    #[trigger] tail[i],
                    #[trigger] tail[j],
                ) by {
                    assert(tail[i] == s[i + 1]);
                    assert(tail[j] == s[j + 1]);
                }
            }
            assert forall|i: int, j: int| 0 <= i < j < out.len() implies row_key_ge(
                #[trigger] out[i],
                #[trigger] out[j],
            ) by {
                if i == 0 {
                    assert(out[j] == tout[j - 1]);
                    assert(tout.contains(tout[j - 1]));
                    if tail.contains(tout[j - 1]) {
                        let v = choose|v: int| 0 <= v < tail.len() && tail[v] == tout[j - 1];
                        assert(s[v + 1] == tout[j - 1]);
                        assert(row_key_ge(s[0], s[v + 1]));
                    } else {
                        assert(tout[j - 1] == r);
                    }
                } else {
                    assert(out[i] == tout[i - 1]);
                    assert(out[j] == tout[j - 1]);
                }
            }
        }
    }
}

proof fn lemma_sort_rows_props(s: Seq<NotificationRow>)
    ensures
        sort_rows(s).len() == s.len(),
        forall|x: NotificationRow| #[trigger] sort_rows(s).contains(x) <==> s.contains(x),
        rows_ordered(sort_rows(s)),
    decreases s.len(),
{
    if s.len() == 0 {
        assert forall|x: NotificationRow| #[trigger]
            sort_rows(s).contains(x) <==> s.contains(x) by {
            if sort_rows(s).contains(x) {
                let w = choose|w: int| 0 <= w < sort_rows(s).len() && sort_rows(s)[w] == x;
            }
        }
    } else {
        let head = s.drop_last();
        lemma_sort_rows_props(head);
        lemma_insert_sorted_props(sort_rows(head), s.last());
        assert forall|x: NotificationRow| #[trigger]
            sort_rows(s).contains(x) <==> s.contains(x) by {
            if sort_rows(s).contains(x) {
                if head.contains(x) {
                    let w = choose|w: int| 0 <= w < head.len() && head[w] == x;
                    assert(s[w] == x);
                } else {
                    assert(x == s.last());
                    assert(s[s.len() - 1] == x);
                }
            }
            if s.contains(x) {
                let w = choose|w: int| 0 <= w < s.len() && s[w] == x;
                if w < s.len() - 1 {
                    assert(head[w] == x);
                    assert(head.contains(x));
                } else {
                    assert(x == s.last());
                }
            }
        }
    }
}

proof fn lemma_filter_keeps_unique_ids(s: Seq<NotificationRow>, pred: spec_fn(NotificationRow) -> bool)
    requires
        unique_ids(s),
    ensures
        unique_ids(s.filter(pred)),
        forall|k: int|
            0 <= k < s.filter(pred).len() ==> s.contains(#[trigger] s.filter(pred)[k]),
    decreases s.len(),
{
    reveal(Seq::filter);
    if s.len() == 0 {
    } else {
        let head = s.drop_last();
        assert(unique_ids(head)) by {
            assert forall|i: int, j: int| 0 <= i < j < head.len() implies (
            #[trigger] head[i]).id != (#[trigger] head[j]).id by {
                assert(head[i] == s[i]);
                assert(head[j] == s[j]);
            }
        }
        lemma_filter_keeps_unique_ids(head, pred);
        let fh = head.filter(pred);
        let fs = s.filter(pred);
        assert forall|k: int| 0 <= k < fs.len() implies s.contains(#[trigger] fs[k]) by {
            if k < fh.len() {
                assert(fs[k] == fh[k]);
                assert(head.contains(fh[k]));
                let w = choose|w: int| 0 <= w < head.len() && head[w] == fh[k];
                assert(s[w] == fh[k]);
            } else {
                assert(fs[k] == s.last());
                assert(s[s.len() - 1] == s.last());
            }
        }
        assert forall|i: int, j: int| 0 <= i < j < fs.len() implies (#[trigger] fs[i]).id != (
        #[trigger] fs[j]).id by {
            if j < fh.len() {
            } else if pred(s.last()) {
                assert(fs[j] == s.last());
                assert(fs[i] == fh[i]);
                assert(head.contains(fh[i]));
                let w = choose|w: int| 0 <= w < head.len() && head[w] == fh[i];
                assert(s[w].id != s[s.len() - 1].id);
            }
        }
    }
}

proof fn lemma_insert_sorted_keeps_unique_ids(s: Seq<NotificationRow>, r: NotificationRow)
    requires
        unique_ids(s),
        forall|i: int| 0 <= i < s.len() ==> (#[trigger] s[i]).id != r.id,
    ensures
        unique_ids(insert_sorted(s, r)),
    decreases s.len(),
{
    let out = insert_sorted(s, r);
    if s.len() == 0 {
    } else if row_before(r, s[0]) {
        assert forall|i: int, j: int| 0 <= i < j < out.len() implies (#[trigger] out[i]).id != (
        #[trigger] out[j]).id by {
            if i == 0 {
                assert(out[j] == s[j - 1]);
            } else {
                assert(out[i] == s[i - 1]);
                assert(out[j] == s[j - 1]);
            }
        }
    } else {
        let tail = s.drop_first();
        let tout = insert_sorted(tail, r);
        assert(unique_ids(tail)) by {
            assert forall|i: int, j: int| 0 <= i < j < tail.len() implies (
            #[trigger] tail[i]).id != (#[trigger] tail[j]).id by {
                assert(tail[i] == s[i + 1]);
                assert(tail[j] == s[j + 1]);
            }
        }
        assert(forall|i: int| 0 <= i < tail.len() ==> (#[trigger] tail[i]).id != r.id) by {
            assert(forall|i: int| 0 <= i < tail.len() ==> tail[i] == s[i + 1]);
        }
        lemma_insert_sorted_keeps_unique_ids(tail, r);
        lemma_insert_sorted_props(tail, r);
        assert forall|i: int, j: int| 0 <= i < j < out.len() implies (#[trigger] out[i]).id != (
        #[trigger] out[j]).id by {
            if i == 0 {
                assert(out[j] == tout[j - 1]);
                assert(tout.contains(tout[j - 1]));
                if tail.contains(tout[j - 1]) {
                    let v = choose|v: int| 0 <= v < tail.len() && tail[v] == tout[j - 1];
                    assert(s[v + 1] == tout[j - 1]);
                } else {
                    assert(tout[j - 1] == r);
                }
            } else {
                assert(out[i] == tout[i - 1]);
                assert(out[j] == tout[j - 1]);
            }
        }
    }
}

proof fn lemma_sort_rows_keeps_unique_ids(s: Seq<NotificationRow>)
    requires
        unique_ids(s),
    ensures
        unique_ids(sort_rows(s)),
    decreases s.len(),
{
    if s.len() == 0 {
    } else {
        let head = s.drop_last();
        assert(unique_ids(head)) by {
            assert forall|i: int, j: int| 0 <= i < j < head.len() implies (
            #[trigger] head[i]).id != (#[trigger] head[j]).id by {
                assert(head[i] == s[i]);
                assert(head[j] == s[j]);
            }
        }
        lemma_sort_rows_keeps_unique_ids(head);
        lemma_sort_rows_props(head);
        assert forall|i: int| 0 <= i < sort_rows(head).len() implies (
        #[trigger] sort_rows(head)[i]).id != s.last().id by {
            assert(sort_rows(head).contains(sort_rows(head)[i]));
            assert(head.contains(sort_rows(head)[i]));
            let w = choose|w: int| 0 <= w < head.len() && head[w] == sort_rows(head)[i];
            assert(s[w].id != s[s.len() - 1].id);
        }
        lemma_insert_sorted_keeps_unique_ids(sort_rows(head), s.last());
    }
}

/// The query result is ordered by date descending and id descending, and no
/// two of its entries — in particular no two adjacent ones — share an id.
pub proof fn lemma_query_ordered(store: NotificationStore, user_id: i32)
    requires
        store.well_formed(),
    ensures
        rows_ordered(query_rows(store, user_id)),
        unique_ids(query_rows(store, user_id)),
        forall|i: int|
            0 <= i && i + 1 < spec_fetch(store, user_id).len() ==> (#[trigger] spec_fetch(
                store,
                user_id,
            )[i]).id != spec_fetch(store, user_id)[i + 1].id,
{
    let vis = visible_rows(store, user_id);
    lemma_sort_rows_props(vis);
    assert(unique_ids(store.notifications@));
    lemma_filter_keeps_unique_ids(store.notifications@, visible_pred(store, user_id));
    lemma_sort_rows_keeps_unique_ids(vis);
    let q = query_rows(store, user_id);
    assert forall|i: int| 0 <= i && i + 1 < spec_fetch(store, user_id).len() implies (
    #[trigger] spec_fetch(store, user_id)[i]).id != spec_fetch(store, user_id)[i + 1].id by {
        assert(spec_fetch(store, user_id)[i] == row_view(q[i]));
        assert(spec_fetch(store, user_id)[i + 1] == row_view(q[i + 1]));
    }
}

/// A notification whose event addresses an object of an excluded structural
/// kind — through its primary object or through any related object — never
/// appears in query results, for any user.
pub proof fn lemma_excluded_kind_never_shown(store: NotificationStore, n: NotificationRow)
    requires
        match find_event(store.events@, n.event_id) {
            None => true,
            Some(e) => {
                ||| (find_uuid(store.uuids@, e.object_id) matches Some(u) && !kind_allowed(u))
                ||| exists|j: int|
                    0 <= j < e.uuid_parameters.0@.len() && (find_uuid(
                        store.uuids@,
                        (#[trigger] e.uuid_parameters.0@[j]).value,
                    ) matches Some(u) && !kind_allowed(u))
            },
        },
    ensures
        forall|user_id: i32| !visible(store, user_id, n),
        forall|user_id: i32| !(#[trigger] query_rows(store, user_id)).contains(n),
        store.well_formed() && store.notifications@.contains(n) ==> forall|user_id: i32| !(
        #[trigger] spec_fetch(store, user_id)).contains(row_view(n)),
{
    assert forall|user_id: i32| !visible(store, user_id, n) by {
        match find_event(store.events@, n.event_id) {
            None => {},
            Some(e) => {
                if find_uuid(store.uuids@, e.object_id) matches Some(u) && !kind_allowed(u) {
                } else {
                    let j = choose|j: int|
                        0 <= j < e.uuid_parameters.0@.len() && (find_uuid(
                            store.uuids@,
                            (#[trigger] e.uuid_parameters.0@[j]).value,
                        ) matches Some(u) && !kind_allowed(u));
                    assert(!related_object_allowed(
                        store.uuids@,
                        e.uuid_parameters.0@[j].value,
                    ));
                }
            },
        }
    }
    assert forall|user_id: i32| !(#[trigger] query_rows(store, user_id)).contains(n) by {
        if query_rows(store, user_id).contains(n) {
            let vis = visible_rows(store, user_id);
            lemma_sort_rows_props(vis);
            assert(vis.contains(n));
            let w = choose|w: int| 0 <= w < vis.len() && vis[w] == n;
            store.notifications@.lemma_filter_pred(visible_pred(store, user_id), w);
            assert(visible(store, user_id, n));
        }
    }
    if store.well_formed() && store.notifications@.contains(n) {
        assert forall|user_id: i32| !(#[trigger] spec_fetch(store, user_id)).contains(
            row_view(n),
        ) by {
            if spec_fetch(store, user_id).contains(row_view(n)) {
                let q = query_rows(store, user_id);
                let vis = visible_rows(store, user_id);
                let w = choose|w: int|
                    0 <= w < spec_fetch(store, user_id).len() && spec_fetch(store, user_id)[w]
                        == row_view(n);
                assert(spec_fetch(store, user_id)[w] == row_view(q[w]));
                assert(q[w].id == n.id);
                lemma_sort_rows_props(vis);
                assert(q.contains(q[w]));
                assert(vis.contains(q[w]));
                let v = choose|v: int| 0 <= v < vis.len() && vis[v] == q[w];
                lemma_filter_keeps_unique_ids(
                    store.notifications@,
                    visible_pred(store, user_id),
                );
                assert(store.notifications@.contains(vis[v]));
                let i = choose|i: int|
                    0 <= i < store.notifications@.len() && store.notifications@[i] == q[w];
                let j = choose|j: int|
                    0 <= j < store.notifications@.len() && store.notifications@[j] == n;
                assert(i == j);
                assert(q[w] == n);
                assert(!query_rows(store, user_id).contains(n));
            }
        }
    }
}

} // verus!
