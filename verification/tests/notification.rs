use server::event::{AbstractEvent, StringParameter, UuidParameter, UuidParameters};
use server::notification::model::{
    Discriminator, Notification, NotificationRow, NotificationStore, Notifications, UuidRecord,
};
use server::notification::set_state_mutation;
use server::subscription::{Subscription, Subscriptions};

fn event_with(
    id: i32,
    actor_id: i32,
    object_id: i32,
    date: i64,
    related: Vec<(&str, i32)>,
) -> AbstractEvent {
    let params = related
        .into_iter()
        .map(|(name, value)| UuidParameter { name: name.to_string(), value })
        .collect();
    AbstractEvent {
        id,
        actor_id,
        object_id,
        date,
        uuid_parameters: UuidParameters(params),
        string_parameters: vec![],
    }
}

fn user_uuid(id: i32) -> UuidRecord {
    UuidRecord { id, discriminator: Discriminator::User, entity_type_id: None }
}

fn row(id: i32, user_id: i32, date: i64, seen: bool, event_id: i32) -> NotificationRow {
    NotificationRow { id, user_id, date, seen, email: false, email_sent: false, event_id }
}

fn empty_store() -> NotificationStore {
    NotificationStore { notifications: vec![], events: vec![], uuids: vec![], next_id: 1 }
}

#[test]
fn set_notification_state_no_id() {
    let mut store = empty_store();
    store.notifications.push(row(7, 1, 10, false, 1));
    store.next_id = 8;

    let payload = set_state_mutation::Payload { ids: vec![], user_id: 1, unread: true };
    payload.execute(&mut store).unwrap();

    assert_eq!(store.notifications.len(), 1);
    assert!(!store.notifications[0].seen);
}

#[test]
fn set_notification_state_single_id_to_read() {
    let mut store = empty_store();
    store.notifications.push(row(6522, 1, 10, false, 1));
    store.next_id = 6523;

    let payload = set_state_mutation::Payload { ids: vec![6522], user_id: 1, unread: false };
    Notifications::set_notification_state(&payload, &mut store).unwrap();

    // The object was set to read: seen is on.
    assert!(store.notifications[0].seen);
}

#[test]
fn set_notification_state_single_id_to_unread() {
    let mut store = empty_store();
    store.notifications.push(row(1293, 1, 10, true, 1));
    store.next_id = 1294;

    let payload = set_state_mutation::Payload { ids: vec![1293], user_id: 1, unread: true };
    Notifications::set_notification_state(&payload, &mut store).unwrap();

    // The object was set to unread: seen is off.
    assert!(!store.notifications[0].seen);
}

#[test]
fn set_notification_state_multiple_ids() {
    let ids = vec![1293, 1307, 1311];
    let mut store = empty_store();
    store.notifications.push(row(1293, 1, 10, true, 1));
    store.notifications.push(row(1307, 1, 11, true, 1));
    store.notifications.push(row(1311, 1, 12, false, 1));
    store.next_id = 1312;

    let payload = set_state_mutation::Payload { ids: ids.clone(), user_id: 1, unread: true };
    Notifications::set_notification_state(&payload, &mut store).unwrap();

    for notification in store.notifications.iter() {
        assert!(!notification.seen);
    }
}

#[test]
fn set_notification_state_unknown_id_is_ignored() {
    let mut store = empty_store();
    store.notifications.push(row(5, 1, 10, false, 1));
    store.next_id = 6;

    let payload = set_state_mutation::Payload { ids: vec![99], user_id: 1, unread: false };
    let out = payload.execute(&mut store).unwrap();

    assert!(out.success);
    assert!(!store.notifications[0].seen);
}

#[test]
fn set_notification_state_twice_is_idempotent() {
    let mut store = empty_store();
    store.notifications.push(row(1, 7, 10, false, 1));
    store.notifications.push(row(2, 7, 11, true, 1));
    store.next_id = 3;

    let payload = set_state_mutation::Payload { ids: vec![1, 2], user_id: 7, unread: false };
    Notifications::set_notification_state(&payload, &mut store).unwrap();
    let after_once: Vec<bool> = store.notifications.iter().map(|n| n.seen).collect();
    Notifications::set_notification_state(&payload, &mut store).unwrap();
    let after_twice: Vec<bool> = store.notifications.iter().map(|n| n.seen).collect();

    assert_eq!(after_once, after_twice);
    assert_eq!(after_once, vec![true, true]);
}

#[test]
fn create_notifications_for_event_without_subscribers() {
    let mut store = empty_store();
    let event = event_with(38513, 10, 100, 50, vec![]);
    store.events.push(event_with(38513, 10, 100, 50, vec![]));
    store.uuids.push(user_uuid(100));

    let subscriptions = Subscriptions(vec![]);
    Notifications::create_notifications(&event, &subscriptions, &mut store).unwrap();

    // No notifications were created.
    assert!(store.notifications.is_empty());
}

#[test]
fn create_notifications_for_event_without_uuid_parameters() {
    let other_user = 1;
    let test_user = 2;
    let mut store = empty_store();
    let event = event_with(900, other_user, other_user, 50, vec![]);
    store.events.push(event_with(900, other_user, other_user, 50, vec![]));
    store.uuids.push(user_uuid(other_user));

    let subscriptions = Subscriptions(vec![Subscription {
        object_id: other_user,
        user_id: test_user,
        send_email: true,
    }]);
    Notifications::create_notifications(&event, &subscriptions, &mut store).unwrap();

    // The notification was created.
    let fetched = Notifications::fetch_via_transaction(test_user, &store).unwrap();
    assert_eq!(fetched.notifications.len(), 1);
}

#[test]
fn create_notifications_for_event_with_uuid_parameters() {
    let actor = 10;
    let object = 200;
    let related = 300;
    let mut store = empty_store();
    let event = event_with(37373, actor, object, 50, vec![("object", related)]);
    store.events.push(event_with(37373, actor, object, 50, vec![("object", related)]));
    store.uuids.push(user_uuid(object));
    store.uuids.push(user_uuid(related));

    // Nobody subscribes to the primary object; the actor and two others
    // subscribe to the related one.
    let subscriptions = Subscriptions(vec![
        Subscription { object_id: related, user_id: actor, send_email: false },
        Subscription { object_id: related, user_id: 21, send_email: true },
        Subscription { object_id: related, user_id: 22, send_email: false },
    ]);
    Notifications::create_notifications(&event, &subscriptions, &mut store).unwrap();

    for subscriber in [actor, 21, 22] {
        let fetched = Notifications::fetch_via_transaction(subscriber, &store).unwrap();
        let matching: Vec<&Notification> = fetched
            .notifications
            .iter()
            .filter(|notification| notification.event_id == 37373)
            .collect();
        if subscriber == actor {
            assert!(matching.is_empty());
        } else {
            assert_eq!(matching.len(), 1);
        }
    }
}

#[test]
fn create_notifications_once_per_user_across_objects() {
    let actor = 1;
    let shared = 5;
    let mut store = empty_store();
    let event = event_with(70, actor, 100, 50, vec![("from", 101), ("to", 102)]);
    store.events.push(event_with(70, actor, 100, 50, vec![("from", 101), ("to", 102)]));
    for id in [100, 101, 102] {
        store.uuids.push(user_uuid(id));
    }

    // One user subscribes to the primary object and to both related ones.
    let subscriptions = Subscriptions(vec![
        Subscription { object_id: 100, user_id: shared, send_email: true },
        Subscription { object_id: 101, user_id: shared, send_email: false },
        Subscription { object_id: 102, user_id: shared, send_email: false },
    ]);
    Notifications::create_notifications(&event, &subscriptions, &mut store).unwrap();

    assert_eq!(store.notifications.len(), 1);
    assert_eq!(store.notifications[0].user_id, shared);
    // The first-inserted subscription wins the send_email value.
    assert!(store.notifications[0].email);
}

#[test]
fn create_notifications_skips_the_acting_user() {
    let actor = 4;
    let mut store = empty_store();
    let event = event_with(80, actor, 100, 50, vec![]);
    store.events.push(event_with(80, actor, 100, 50, vec![]));
    store.uuids.push(user_uuid(100));

    // The actor is the only subscriber.
    let subscriptions = Subscriptions(vec![Subscription {
        object_id: 100,
        user_id: actor,
        send_email: true,
    }]);
    Notifications::create_notifications(&event, &subscriptions, &mut store).unwrap();

    assert!(store.notifications.is_empty());
}

#[test]
fn notifications_query_payload_runs_the_query() {
    let mut store = empty_store();
    store.events.push(event_with(1, 9, 40, 50, vec![]));
    store.uuids.push(user_uuid(40));
    store.notifications.push(row(1, 7, 50, true, 1));
    store.next_id = 2;

    let payload = server::notification::notifications_query::Payload { user_id: 7 };
    let fetched = payload.execute(&store).unwrap();
    assert_eq!(fetched.user_id, 7);
    assert_eq!(
        fetched.notifications,
        vec![Notification { id: 1, unread: false, email_sent: false, email: false, event_id: 1 }]
    );
}

#[test]
fn query_notifications_does_not_return_notifications_with_unsupported_uuid() {
    for unsupported in [Discriminator::Attachment, Discriminator::BlogPost] {
        // The event's primary object is of an unsupported kind.
        let mut store = empty_store();
        store.events.push(event_with(1, 9, 40, 50, vec![]));
        store.uuids.push(UuidRecord { id: 40, discriminator: unsupported, entity_type_id: None });
        store.notifications.push(row(1, 7, 50, false, 1));
        store.next_id = 2;
        let fetched = Notifications::fetch_via_transaction(7, &store).unwrap();
        assert_eq!(fetched.notifications.len(), 0);

        // The event's related object is of an unsupported kind.
        let mut store = empty_store();
        store.events.push(event_with(1, 9, 40, 50, vec![("object", 41)]));
        store.uuids.push(user_uuid(40));
        store.uuids.push(UuidRecord { id: 41, discriminator: unsupported, entity_type_id: None });
        store.notifications.push(row(1, 7, 50, false, 1));
        store.next_id = 2;
        let fetched = Notifications::fetch_via_transaction(7, &store).unwrap();
        assert_eq!(fetched.notifications.len(), 0);
    }
}

#[test]
fn query_notifications_does_not_return_notifications_with_unsupported_entity() {
    // A math puzzle is an entity of a type outside the allow-list.
    let math_puzzle =
        UuidRecord { id: 60, discriminator: Discriminator::Entity, entity_type_id: Some(39) };

    // The event's primary object is an unsupported entity.
    let mut store = empty_store();
    store.events.push(event_with(1, 9, 60, 50, vec![]));
    store.uuids.push(math_puzzle);
    store.notifications.push(row(1, 7, 50, false, 1));
    store.next_id = 2;
    let fetched = Notifications::fetch_via_transaction(7, &store).unwrap();
    assert_eq!(fetched.notifications.len(), 0);

    // The event's related object is an unsupported entity.
    let mut store = empty_store();
    store.events.push(event_with(1, 9, 61, 50, vec![("object", 60)]));
    store.uuids.push(user_uuid(61));
    store.uuids.push(math_puzzle);
    store.notifications.push(row(1, 7, 50, false, 1));
    store.next_id = 2;
    let fetched = Notifications::fetch_via_transaction(7, &store).unwrap();
    assert_eq!(fetched.notifications.len(), 0);

    // The event also has a string parameter.
    let mut store = empty_store();
    let mut event = event_with(1, 9, 61, 50, vec![]);
    event.string_parameters.push(StringParameter {
        name: "reason".to_string(),
        value: "".to_string(),
    });
    store.events.push(event);
    store.uuids.push(user_uuid(61));
    store.notifications.push(row(1, 7, 50, false, 1));
    store.next_id = 2;
    let fetched = Notifications::fetch_via_transaction(7, &store).unwrap();
    assert_eq!(fetched.notifications.len(), 0);
}

#[test]
fn query_notifications_orders_by_date_then_id_descending() {
    let mut store = empty_store();
    store.events.push(event_with(1, 9, 40, 50, vec![]));
    store.uuids.push(user_uuid(40));
    store.notifications.push(row(3, 7, 10, false, 1));
    store.notifications.push(row(5, 7, 30, true, 1));
    store.notifications.push(row(4, 7, 30, false, 1));
    store.notifications.push(row(9, 8, 99, false, 1));
    store.next_id = 10;

    let fetched = Notifications::fetch_via_transaction(7, &store).unwrap();
    let ids: Vec<i32> = fetched.notifications.iter().map(|n| n.id).collect();
    assert_eq!(ids, vec![5, 4, 3]);
    for pair in fetched.notifications.windows(2) {
        assert_ne!(pair[0].id, pair[1].id);
    }
    assert_eq!(fetched.user_id, 7);
    assert_eq!(
        fetched.notifications[0],
        Notification { id: 5, unread: false, email_sent: false, email: false, event_id: 1 }
    );
}

#[test]
fn query_skips_rows_whose_event_is_missing() {
    let mut store = empty_store();
    store.uuids.push(user_uuid(40));
    store.notifications.push(row(1, 7, 50, false, 123));
    store.next_id = 2;

    let fetched = Notifications::fetch_via_transaction(7, &store).unwrap();
    assert!(fetched.notifications.is_empty());
}

#[test]
fn fan_out_rows_carry_event_date_and_email_preference() {
    let mut store = empty_store();
    let event = event_with(55, 1, 100, 777, vec![]);
    store.events.push(event_with(55, 1, 100, 777, vec![]));
    store.uuids.push(user_uuid(100));
    store.next_id = 41;

    let subscriptions = Subscriptions(vec![
        Subscription { object_id: 100, user_id: 2, send_email: true },
        Subscription { object_id: 100, user_id: 3, send_email: false },
    ]);
    Notifications::create_notifications(&event, &subscriptions, &mut store).unwrap();

    assert_eq!(store.notifications.len(), 2);
    assert_eq!(store.notifications[0].id, 41);
    assert_eq!(store.notifications[1].id, 42);
    assert_eq!(store.next_id, 43);
    for n in store.notifications.iter() {
        assert_eq!(n.date, 777);
        assert_eq!(n.event_id, 55);
        assert!(!n.seen);
        assert!(!n.email_sent);
    }
    assert!(store.notifications[0].email);
    assert!(!store.notifications[1].email);
}
