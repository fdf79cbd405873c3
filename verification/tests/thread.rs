use server::operation::Error;
use server::subscription::Subscriptions;
use server::thread::model::{CommentRow, CommentStore, Threads};
use server::thread::{
    create_comment_mutation, create_thread_mutation, edit_comment_mutation,
    set_thread_archived_mutation,
};

fn comment(id: i32, uuid_id: Option<i32>, date: i64) -> CommentRow {
    CommentRow {
        id,
        uuid_id,
        parent_id: None,
        author_id: 1,
        instance_id: 1,
        date,
        archived: false,
        trashed: false,
        title: None,
        content: "hello".to_string(),
    }
}

fn store_of(comments: Vec<CommentRow>, next_id: i32) -> CommentStore {
    CommentStore { comments, next_id }
}

fn bad_request_reason(r: Result<(), Error>) -> String {
    match r {
        Err(Error::BadRequest { reason }) => reason,
        _ => panic!("expected a BadRequest"),
    }
}

#[test]
fn fetch_returns_thread_comments_newest_first() {
    let store = store_of(
        vec![
            comment(1, Some(50), 10),
            comment(2, Some(50), 30),
            comment(3, Some(51), 99),
            comment(4, Some(50), 20),
            comment(5, None, 40),
        ],
        6,
    );
    let threads = Threads::fetch_via_transaction(50, &store).unwrap();
    assert_eq!(threads.first_comment_ids, vec![2, 4, 1]);
}

#[test]
fn set_archive_moves_every_addressed_comment() {
    let mut store = store_of(vec![comment(1, Some(50), 10), comment(2, Some(50), 20)], 3);
    let payload = set_thread_archived_mutation::Payload {
        ids: vec![1, 2],
        user_id: 1,
        archived: true,
    };
    Threads::set_archive(&payload, &mut store).unwrap();
    assert!(store.comments[0].archived);
    assert!(store.comments[1].archived);
}

#[test]
fn set_archive_with_empty_ids_is_a_no_op() {
    let mut store = store_of(vec![comment(1, Some(50), 10)], 2);
    let payload = set_thread_archived_mutation::Payload { ids: vec![], user_id: 1, archived: true };
    Threads::set_archive(&payload, &mut store).unwrap();
    assert!(!store.comments[0].archived);
}

#[test]
fn set_archive_rejects_unknown_ids() {
    let mut store = store_of(vec![comment(1, Some(50), 10)], 2);
    let payload = set_thread_archived_mutation::Payload {
        ids: vec![1, 99],
        user_id: 1,
        archived: true,
    };
    let reason = bad_request_reason(Threads::set_archive(&payload, &mut store));
    assert_eq!(reason, "not all given ids are comments");
    assert!(!store.comments[0].archived);
}

#[test]
fn set_archive_rejects_duplicate_ids() {
    let mut store = store_of(vec![comment(1, Some(50), 10)], 2);
    let payload = set_thread_archived_mutation::Payload {
        ids: vec![1, 1],
        user_id: 1,
        archived: true,
    };
    let reason = bad_request_reason(Threads::set_archive(&payload, &mut store));
    assert_eq!(reason, "not all given ids are comments");
}

#[test]
fn comment_thread_appends_a_fresh_comment_and_subscribes() {
    let mut store = store_of(vec![comment(10, Some(50), 5)], 11);
    let mut subscriptions = Subscriptions(vec![]);
    let payload = create_comment_mutation::Payload {
        thread_id: 10,
        content: "an answer".to_string(),
        user_id: 7,
        subscribe: true,
        send_email: true,
    };
    let created = Threads::comment_thread(&payload, 99, &mut store, &mut subscriptions).unwrap();

    assert_eq!(created.id, 11);
    assert_eq!(created.parent_id, Some(10));
    assert_eq!(created.author_id, 7);
    assert_eq!(created.date, 99);
    assert_eq!(created.content, "an answer");
    assert_eq!(store.comments.len(), 2);
    assert_eq!(store.next_id, 12);
    assert_eq!(subscriptions.0.len(), 2);
    assert_eq!(subscriptions.0[0].object_id, 10);
    assert_eq!(subscriptions.0[1].object_id, 11);
    assert!(subscriptions.0[0].send_email);
}

#[test]
fn comment_thread_rejects_empty_content_and_missing_thread() {
    let mut store = store_of(vec![comment(10, Some(50), 5)], 11);
    let mut subscriptions = Subscriptions(vec![]);

    let empty = create_comment_mutation::Payload {
        thread_id: 10,
        content: "".to_string(),
        user_id: 7,
        subscribe: false,
        send_email: false,
    };
    match Threads::comment_thread(&empty, 99, &mut store, &mut subscriptions) {
        Err(Error::BadRequest { reason }) => assert_eq!(reason, "content is empty"),
        _ => panic!("expected a BadRequest"),
    }

    let missing = create_comment_mutation::Payload {
        thread_id: 404,
        content: "text".to_string(),
        user_id: 7,
        subscribe: false,
        send_email: false,
    };
    match Threads::comment_thread(&missing, 99, &mut store, &mut subscriptions) {
        Err(Error::BadRequest { reason }) => assert_eq!(reason, "thread does not exist"),
        _ => panic!("expected a BadRequest"),
    }
    assert_eq!(store.comments.len(), 1);
}

#[test]
fn comment_thread_rejects_archived_thread() {
    let mut archived_thread = comment(10, Some(50), 5);
    archived_thread.archived = true;
    let mut store = store_of(vec![archived_thread], 11);
    let mut subscriptions = Subscriptions(vec![]);
    let payload = create_comment_mutation::Payload {
        thread_id: 10,
        content: "text".to_string(),
        user_id: 7,
        subscribe: false,
        send_email: false,
    };
    match Threads::comment_thread(&payload, 99, &mut store, &mut subscriptions) {
        Err(Error::BadRequest { reason }) => assert_eq!(reason, "thread is already archived"),
        _ => panic!("expected a BadRequest"),
    }
}

#[test]
fn start_thread_appends_the_opening_comment() {
    let mut store = store_of(vec![], 1);
    let mut subscriptions = Subscriptions(vec![]);
    let payload = create_thread_mutation::Payload {
        title: "a question".to_string(),
        content: "what now".to_string(),
        object_id: 500,
        user_id: 3,
        subscribe: true,
        send_email: false,
    };
    let created =
        Threads::start_thread(&payload, Some(2), 42, &mut store, &mut subscriptions).unwrap();

    assert_eq!(created.id, 1);
    assert_eq!(created.uuid_id, Some(500));
    assert_eq!(created.instance_id, 2);
    assert_eq!(created.title, Some("a question".to_string()));
    assert_eq!(subscriptions.0.len(), 1);
    assert_eq!(subscriptions.0[0].object_id, 1);

    let threads = Threads::fetch(500, &store).unwrap();
    assert_eq!(threads.first_comment_ids, vec![1]);
}

#[test]
fn start_thread_rejects_unknown_object() {
    let mut store = store_of(vec![], 1);
    let mut subscriptions = Subscriptions(vec![]);
    let payload = create_thread_mutation::Payload {
        title: "t".to_string(),
        content: "c".to_string(),
        object_id: 500,
        user_id: 3,
        subscribe: false,
        send_email: false,
    };
    match Threads::start_thread(&payload, None, 42, &mut store, &mut subscriptions) {
        Err(Error::BadRequest { reason }) => assert_eq!(reason, "UUID not found"),
        _ => panic!("expected a BadRequest"),
    }
    assert!(store.comments.is_empty());
}

#[test]
fn edit_comment_replaces_content_for_its_author() {
    let mut store = store_of(vec![comment(10, Some(50), 5)], 11);
    let payload = edit_comment_mutation::Payload {
        comment_id: 10,
        content: "updated".to_string(),
        user_id: 1,
    };
    let out = Threads::edit_comment(&payload, &mut store).unwrap();
    assert!(out.success);
    assert_eq!(store.comments[0].content, "updated");
}

#[test]
fn edit_comment_names_each_refusal() {
    let mut base = comment(10, Some(50), 5);
    base.author_id = 1;
    let mut store = store_of(vec![base], 11);

    let empty = edit_comment_mutation::Payload {
        comment_id: 10,
        content: "".to_string(),
        user_id: 1,
    };
    match Threads::edit_comment(&empty, &mut store) {
        Err(Error::BadRequest { reason }) => assert_eq!(reason, "content is empty"),
        _ => panic!("expected a BadRequest"),
    }

    let missing = edit_comment_mutation::Payload {
        comment_id: 404,
        content: "x".to_string(),
        user_id: 1,
    };
    match Threads::edit_comment(&missing, &mut store) {
        Err(Error::BadRequest { reason }) => assert_eq!(reason, "no comment with given ID"),
        _ => panic!("expected a BadRequest"),
    }

    let stranger = edit_comment_mutation::Payload {
        comment_id: 10,
        content: "x".to_string(),
        user_id: 2,
    };
    match Threads::edit_comment(&stranger, &mut store) {
        Err(Error::BadRequest { reason }) => {
            assert_eq!(reason, "given user is not author of the comment")
        }
        _ => panic!("expected a BadRequest"),
    }

    store.comments[0].archived = true;
    let on_archived = edit_comment_mutation::Payload {
        comment_id: 10,
        content: "x".to_string(),
        user_id: 1,
    };
    match Threads::edit_comment(&on_archived, &mut store) {
        Err(Error::BadRequest { reason }) => {
            assert_eq!(reason, "archived comment cannot be edited")
        }
        _ => panic!("expected a BadRequest"),
    }

    store.comments[0].archived = false;
    store.comments[0].trashed = true;
    let on_trashed = edit_comment_mutation::Payload {
        comment_id: 10,
        content: "x".to_string(),
        user_id: 1,
    };
    match Threads::edit_comment(&on_trashed, &mut store) {
        Err(Error::BadRequest { reason }) => {
            assert_eq!(reason, "trashed comment cannot be edited")
        }
        _ => panic!("expected a BadRequest"),
    }
    assert_eq!(store.comments[0].content, "hello");
}
