use server::event::{
    AbstractEvent, EventError, SetTaxonomyParentEvent, UuidParameter, UuidParameters,
};
use server::metadata::{get_iri, get_learning_resource_type, EntityMetadata};
use server::operation::{render, Error, ResponseBody, SuccessOutput};
use server::subscription::{Subscription, Subscriptions};
use server::instance::Instance;
use server::navigation::messages::NavigationMessage;
use server::navigation::navigation_query;
use server::uuid::article_revision::ArticleRevision;
use server::uuid::course_page_revision::CoursePageRevision;
use server::uuid::entity_revision::{
    AbstractEntityRevision, EntityRevisionFields, RevisionField,
};
use server::uuid::generic_entity_revision::GenericRevision;
use server::uuid::messages::UuidMessage;
use server::uuid::{uuid_query, uuid_set_state_mutation};

#[test]
fn render_maps_each_error_kind_to_its_status() {
    let (status, body) = render(Ok::<SuccessOutput, Error>(SuccessOutput { success: true }));
    assert_eq!(status, 200);
    assert!(matches!(body, ResponseBody::Data));

    let (status, body) = render::<SuccessOutput>(Err(Error::NotFoundError));
    assert_eq!(status, 404);
    assert!(matches!(body, ResponseBody::Null));

    let (status, body) =
        render::<SuccessOutput>(Err(Error::BadRequest { reason: "bad input".to_string() }));
    assert_eq!(status, 400);
    match body {
        ResponseBody::Failure { reason } => assert_eq!(reason, "bad input"),
        _ => panic!("expected a failure body"),
    }

    let (status, body) =
        render::<SuccessOutput>(Err(Error::InternalServerError { error: "secret".to_string() }));
    assert_eq!(status, 500);
    assert!(matches!(body, ResponseBody::Empty));
}

#[test]
fn only_internal_errors_are_logged() {
    assert!(Error::InternalServerError { error: "x".to_string() }.is_internal());
    assert!(!Error::BadRequest { reason: "x".to_string() }.is_internal());
    assert!(!Error::NotFoundError.is_internal());
    assert_eq!(Error::NotFoundError.status_code(), 404);
}

#[test]
fn event_errors_are_reclassified() {
    match Error::from_event_error(EventError::MissingUser) {
        Error::BadRequest { reason } => assert_eq!(reason, "acting user does not exist"),
        _ => panic!("expected a BadRequest"),
    }
    match Error::from_event_error(EventError::DatabaseError { inner: "gone".to_string() }) {
        Error::InternalServerError { error } => assert_eq!(error, "gone"),
        _ => panic!("expected an internal error"),
    }
    assert!(matches!(
        Error::from_event_error(EventError::InvalidType),
        Error::InternalServerError { .. }
    ));
    match Error::from_storage_error("io trouble".to_string()) {
        Error::InternalServerError { error } => assert_eq!(error, "io trouble"),
        _ => panic!("expected an internal error"),
    }
}

#[test]
fn taxonomy_parent_event_reads_its_parameter_slots() {
    let event = AbstractEvent {
        id: 1,
        actor_id: 2,
        object_id: 33,
        date: 5,
        uuid_parameters: UuidParameters(vec![
            UuidParameter { name: "from".to_string(), value: 7 },
            UuidParameter { name: "to".to_string(), value: 8 },
            UuidParameter { name: "to".to_string(), value: 9 },
        ]),
        string_parameters: vec![],
    };
    let parsed = SetTaxonomyParentEvent::try_from(&event).unwrap();
    assert_eq!(parsed.child_id, 33);
    assert_eq!(parsed.previous_parent_id, Some(7));
    // The first slot under a repeated name wins.
    assert_eq!(parsed.parent_id, Some(8));

    let bare = AbstractEvent {
        id: 1,
        actor_id: 2,
        object_id: 33,
        date: 5,
        uuid_parameters: UuidParameters(vec![]),
        string_parameters: vec![],
    };
    let parsed = SetTaxonomyParentEvent::try_from(&bare).unwrap();
    assert_eq!(parsed.previous_parent_id, None);
    assert_eq!(parsed.parent_id, None);
}

#[test]
fn subscriptions_filter_by_object() {
    let registry = Subscriptions(vec![
        Subscription { object_id: 1, user_id: 10, send_email: true },
        Subscription { object_id: 2, user_id: 11, send_email: false },
        Subscription { object_id: 1, user_id: 12, send_email: false },
    ]);
    let on_one = registry.fetch_by_object(1);
    assert_eq!(on_one.0.len(), 2);
    assert_eq!(on_one.0[0].user_id, 10);
    assert_eq!(on_one.0[1].user_id, 12);
    assert!(registry.fetch_by_object(3).is_empty());
}

#[test]
fn iris_render_as_decimal_urls() {
    assert_eq!(get_iri(1555), "https://serlo.org/1555");
    assert_eq!(get_iri(0), "https://serlo.org/0");
    assert_eq!(get_iri(-7), "https://serlo.org/-7");
}

#[test]
fn learning_resource_types_follow_the_entity_type() {
    assert_eq!(get_learning_resource_type("article"), "Article");
    assert_eq!(get_learning_resource_type("course-page"), "Article");
    assert_eq!(get_learning_resource_type("course"), "Course");
    assert_eq!(get_learning_resource_type("text-exercise"), "Quiz");
    assert_eq!(get_learning_resource_type("text-exercise-group"), "Quiz");
    assert_eq!(get_learning_resource_type("video"), "Video");
    assert_eq!(get_learning_resource_type("event"), "");
}

#[test]
fn metadata_falls_back_to_a_generated_name() {
    let entry = EntityMetadata::new(
        1555,
        "article",
        None,
        None,
        "2014-03-01T20:36:44+00:00".to_string(),
        "2014-09-15T15:28:35+00:00".to_string(),
        32386,
        "http://example.org/license".to_string(),
        "de".to_string(),
    );
    assert_eq!(entry.id, "https://serlo.org/1555");
    assert_eq!(entry.version, "https://serlo.org/32386");
    assert_eq!(entry.name, "Article: https://serlo.org/1555");
    assert_eq!(entry.headline, None);
    assert_eq!(entry.schema_type, vec!["LearningResource", "Article"]);
    assert_eq!(entry.in_language, "de");
    assert!(entry.is_accessible_for_free);

    let titled = EntityMetadata::new(
        1555,
        "article",
        Some("Addition".to_string()),
        Some("about adding".to_string()),
        "d1".to_string(),
        "d2".to_string(),
        32386,
        "l".to_string(),
        "de".to_string(),
    );
    assert_eq!(titled.name, "Addition");
    assert_eq!(titled.headline, Some("Addition".to_string()));
    assert_eq!(titled.description, Some("about adding".to_string()));
}

#[test]
fn message_enums_carry_their_payloads() {
    let navigation = NavigationMessage::NavigationQuery(navigation_query::Payload {
        instance: Instance::De,
    });
    match navigation {
        NavigationMessage::NavigationQuery(payload) => assert_eq!(payload.instance, Instance::De),
    }

    let query = UuidMessage::UuidQuery(uuid_query::Payload { id: 5 });
    match query {
        UuidMessage::UuidQuery(payload) => assert_eq!(payload.id, 5),
        _ => panic!("expected the query variant"),
    }

    let mutation = UuidMessage::UuidSetStateMutation(uuid_set_state_mutation::Payload {
        ids: vec![1, 2],
        user_id: 9,
        trashed: true,
    });
    match mutation {
        UuidMessage::UuidSetStateMutation(payload) => {
            assert_eq!(payload.ids, vec![1, 2]);
            assert!(payload.trashed);
        }
        _ => panic!("expected the mutation variant"),
    }
}

#[test]
fn revisions_read_their_fields_with_fallbacks() {
    let revision = AbstractEntityRevision {
        author_id: 1,
        repository_id: 2,
        date: 3,
        fields: EntityRevisionFields(vec![
            RevisionField { name: "title".to_string(), value: "A title".to_string() },
            RevisionField { name: "content".to_string(), value: "Some text".to_string() },
        ]),
    };
    let article = ArticleRevision::from(&revision);
    assert_eq!(article.title, "A title");
    assert_eq!(article.content, "Some text");
    assert_eq!(article.meta_title, "");
    assert_eq!(article.meta_description, "");

    let generic = GenericRevision::from(&revision);
    assert_eq!(generic.content, "Some text");

    let course_page = CoursePageRevision::from(&revision);
    assert_eq!(course_page.title, "A title");
    assert_eq!(course_page.content, "Some text");
}

#[test]
fn revision_lookups_take_the_first_field_under_a_name() {
    let fields = EntityRevisionFields(vec![
        RevisionField { name: "content".to_string(), value: "first".to_string() },
        RevisionField { name: "content".to_string(), value: "second".to_string() },
    ]);
    assert_eq!(fields.get_or("content", "fallback"), "first");
    assert_eq!(fields.get_or("title", "fallback"), "fallback");
}
