use vstd::prelude::*;

use crate::operation::{Error, SuccessOutput};
use crate::subscription::{Subscription, Subscriptions};

verus! {

/// One stored comment row. A row with `uuid_id` set opens a thread on that
/// object; a row with `parent_id` set answers that thread.
#[derive(Clone, Debug)]
pub struct CommentRow {
    pub id: i32,
    pub uuid_id: Option<i32>,
    pub parent_id: Option<i32>,
    pub author_id: i32,
    pub instance_id: i32,
    pub date: i64,
    pub archived: bool,
    pub trashed: bool,
    pub title: Option<String>,
    pub content: String,
}

/// One consistent snapshot of the comment table. `next_id` feeds fresh row
/// ids.
#[derive(Debug)]
pub struct CommentStore {
    pub comments: Vec<CommentRow>,
    pub next_id: i32,
}

impl CommentStore {
    /// Stored rows have pairwise distinct ids, all below the id feed.
    pub open spec fn well_formed(&self) -> bool {
        &&& forall|i: int, j: int|
            0 <= i < j < self.comments@.len() ==> (#[trigger] self.comments@[i]).id != (
            #[trigger] self.comments@[j]).id
        &&& forall|i: int|
            0 <= i < self.comments@.len() ==> (#[trigger] self.comments@[i]).id < self.next_id
    }
}

/// Where the first comment with this id stands, if anywhere.
pub open spec fn comment_index(s: Seq<CommentRow>, id: i32) -> Option<int>
    decreases s.len(),
{
    if s.len() == 0 {
        None
    } else if s[0].id == id {
        Some(0int)
    } else {
        match comment_index(s.drop_first(), id) {
            Some(i) => Some(i + 1),
            None => None,
        }
    }
}

/// Whether some comment row carries this id.
pub open spec fn has_comment(s: Seq<CommentRow>, id: i32) -> bool {
    exists|i: int| 0 <= i < s.len() && (#[trigger] s[i]).id == id
}

/// No id occurs twice in the request.
pub open spec fn distinct_ids(ids: Seq<i32>) -> bool {
    forall|i: int, j: int| 0 <= i < j < ids.len() ==> ids[i] != ids[j]
}

/// One row after the archive mutation: moved when addressed, else untouched.
pub open spec fn archive_one(c: CommentRow, ids: Seq<i32>, archived: bool) -> CommentRow {
    if ids.contains(c.id) {
        CommentRow { archived, ..c }
    } else {
        c
    }
}

/// The filter of one thread query: the comments answering one object.
pub open spec fn replies_pred(object_id: i32) -> spec_fn(CommentRow) -> bool {
    |c: CommentRow| c.uuid_id == Some(object_id)
}

/// The sort key of one comment: its date, beside the id carried along.
pub open spec fn comment_key(c: CommentRow) -> (i64, i32) {
    (c.date, c.id)
}

/// Insertion into thread order: a key goes in front of the first strictly
/// older one, so comments of one date keep their storage order.
pub open spec fn insert_by_date(s: Seq<(i64, i32)>, c: (i64, i32)) -> Seq<(i64, i32)>
    decreases s.len(),
{
    if s.len() == 0 {
        seq![c]
    } else if c.0 > s[0].0 {
        seq![c] + s
    } else {
        seq![s[0]] + insert_by_date(s.drop_first(), c)
    }
}

/// The comment keys in thread order, newest first.
pub open spec fn sort_by_date(s: Seq<(i64, i32)>) -> Seq<(i64, i32)>
    decreases s.len(),
{
    if s.len() == 0 {
        Seq::empty()
    } else {
        insert_by_date(sort_by_date(s.drop_last()), s.last())
    }
}

/// What the thread query returns for one object: the ids of its comments,
/// newest first.
pub open spec fn spec_thread_comments(store: CommentStore, object_id: i32) -> Seq<i32> {
    sort_by_date(
        store.comments@.filter(replies_pred(object_id)).map_values(
            |c: CommentRow| comment_key(c),
        ),
    ).map_values(|p: (i64, i32)| p.1)
}

proof fn lemma_insert_by_date_at(s: Seq<(i64, i32)>, c: (i64, i32), p: int)
    requires
        0 <= p <= s.len(),
        forall|q: int| 0 <= q < p ==> !(c.0 > (#[trigger] s[q]).0),
        p < s.len() ==> c.0 > s[p].0,
    ensures
        insert_by_date(s, c) == s.insert(p, c),
    decreases s.len(),
{
    if s.len() == 0 {
        assert(insert_by_date(s, c) =~= s.insert(0, c));
    } else if c.0 > s[0].0 {
        assert(p == 0);
        assert(insert_by_date(s, c) =~= s.insert(0, c));
    } else {
        assert(p >= 1);
        let tail = s.drop_first();
        assert(forall|q: int| 0 <= q < p - 1 ==> !(c.0 > (#[trigger] tail[q]).0));
        lemma_insert_by_date_at(tail, c, p - 1);
        assert(seq![s[0]] + tail.insert(p - 1, c) =~= s.insert(p, c));
    }
}

fn contains_id(ids: &Vec<i32>, id: i32) -> (r: bool)
    ensures
        r == ids@.contains(id),
{
    let n = ids.len();
    let mut i: usize = 0;
    while i < n
        invariant
            n == ids@.len(),
            i <= n,
            forall|k: int| 0 <= k < i ==> ids@[k] != id,
        decreases n - i,
    {
        if ids[i] == id {
            return true;
        }
        i = i + 1;
    }
    false
}

/// Where the first comment with this id stands in the store, if anywhere.
fn find_comment(comments: &Vec<CommentRow>, id: i32) -> (r: Option<usize>)
    ensures
        match r {
            Some(w) => comment_index(comments@, id) == Some(w as int) && w < comments@.len()
                && comments@[w as int].id == id,
            None => comment_index(comments@, id) is None,
        },
{
    let n = comments.len();
    let mut i: usize = 0;
    proof {
        assert(comments@.skip(0) =~= comments@);
    }
    while i < n
        invariant
            n == comments@.len(),
            i <= n,
            match comment_index(comments@.skip(i as int), id) {
                Some(w) => comment_index(comments@, id) == Some(w + i),
                None => comment_index(comments@, id) is None,
            },
            forall|k: int| 0 <= k < i ==> (#[trigger] comments@[k]).id != id,
        decreases n - i,
    {
        proof {
            assert(comments@.skip(i as int)[0] == comments@[i as int]);
            assert(comments@.skip(i as int).drop_first() =~= comments@.skip(i as int + 1));
        }
        if comments[i].id == id {
            return Some(i);
        }
        i = i + 1;
    }
    proof {
        assert(comments@.skip(n as int) =~= Seq::<CommentRow>::empty());
    }
    None
}

/// A thread listing: the ids of the comments that open it, newest first.
#[derive(Debug)]
pub struct Threads {
    pub first_comment_ids: Vec<i32>,
}

impl Threads {
    /// The thread query for one object: every comment standing on it, in
    /// thread order.
    pub fn fetch_via_transaction(id: i32, store: &CommentStore) -> (r: Result<Threads, Error>)
        ensures
            r matches Ok(t) && t.first_comment_ids@ == spec_thread_comments(*store, id),
    {
        let n = store.comments.len();
        let mut keys: Vec<(i64, i32)> = Vec::new();
        let mut k: usize = 0;
        proof {
            reveal(Seq::filter);
            assert(store.comments@.take(0) =~= Seq::<CommentRow>::empty());
            assert(keys@ =~= sort_by_date(
                store.comments@.take(0).filter(replies_pred(id)).map_values(
                    |c: CommentRow| comment_key(c),
                ),
            ));
        }
        while k < n
            invariant
                n == store.comments@.len(),
                k <= n,
                keys@ == sort_by_date(
                    store.comments@.take(k as int).filter(replies_pred(id)).map_values(
                        |c: CommentRow| comment_key(c),
                    ),
                ),
            decreases n - k,
        {
            let ghost pre = store.comments@.take(k as int);
            let ghost cur = store.comments@.take(k as int + 1);
            proof {
                reveal(Seq::filter);
                assert(cur.drop_last() =~= pre);
                assert(cur.last() == store.comments@[k as int]);
            }
            let on_object = match store.comments[k].uuid_id {
                Some(u) => u == id,
                None => false,
            };
            if on_object {
                let key = (store.comments[k].date, store.comments[k].id);
                proof {
                    assert(replies_pred(id)(store.comments@[k as int]));
                    assert(cur.filter(replies_pred(id)) == pre.filter(replies_pred(id)).push(
                        store.comments@[k as int],
                    ));
                    assert(cur.filter(replies_pred(id)).map_values(
                        |c: CommentRow| comment_key(c),
                    ) =~= pre.filter(replies_pred(id)).map_values(
                        |c: CommentRow| comment_key(c),
                    ).push(key));
                }
                let nrw = keys.len();
                let mut p: usize = 0;
                let mut found = false;
                while p < nrw && !found
                    invariant
                        nrw == keys@.len(),
                        p <= nrw,
                        forall|q: int| 0 <= q < p ==> !(key.0 > (#[trigger] keys@[q]).0),
                        found ==> p < nrw && key.0 > keys@[p as int].0,
                    decreases nrw - p + (if found { 0int } else { 1int }),
                {
                    if key.0 > keys[p].0 {
                        found = true;
                    } else {
                        p = p + 1;
                    }
                }
                proof {
                    lemma_insert_by_date_at(keys@, key, p as int);
                }
                keys.insert(p, key);
                proof {
                    let fpre = pre.filter(replies_pred(id)).map_values(
                        |c: CommentRow| comment_key(c),
                    );
                    let fcur = cur.filter(replies_pred(id)).map_values(
                        |c: CommentRow| comment_key(c),
                    );
                    assert(fcur.drop_last() =~= fpre);
                    assert(fcur.last() == key);
                    assert(sort_by_date(fcur) == insert_by_date(sort_by_date(fpre), key));
                    assert(keys@ == sort_by_date(fcur));
                }
            } else {
                proof {
                    assert(!replies_pred(id)(store.comments@[k as int]));
                    assert(cur.filter(replies_pred(id)) == pre.filter(replies_pred(id)));
                }
            }
            k = k + 1;
        }
        proof {
            assert(store.comments@.take(n as int) =~= store.comments@);
        }

        let ns = keys.len();
        let mut first_comment_ids: Vec<i32> = Vec::new();
        let mut i: usize = 0;
        while i < ns
            invariant
                ns == keys@.len(),
                i <= ns,
                first_comment_ids@ =~= keys@.take(i as int).map_values(|p: (i64, i32)| p.1),
            decreases ns - i,
        {
            first_comment_ids.push(keys[i].1);
            i = i + 1;
            proof {
                assert(first_comment_ids@ =~= keys@.take(i as int).map_values(
                    |p: (i64, i32)| p.1,
                ));
            }
        }
        proof {
            assert(keys@.take(ns as int) =~= keys@);
        }
        Ok(Threads { first_comment_ids })
    }

    /// The thread query against a freshly checked-out snapshot; identical in
    /// outcome to the transaction-borrowing variant.
    pub fn fetch(id: i32, store: &CommentStore) -> (r: Result<Threads, Error>)
        ensures
            r matches Ok(t) && t.first_comment_ids@ == spec_thread_comments(*store, id),
    {
        Self::fetch_via_transaction(id, store)
    }

    /// Moves whole batches of comments in or out of the archive. The batch
    /// is all-or-nothing: it succeeds exactly when the requested ids are
    /// pairwise distinct and each one addresses a stored comment, and only
    /// then does any row move.
    pub fn set_archive(
        payload: &crate::thread::set_thread_archived_mutation::Payload,
        store: &mut CommentStore,
    ) -> (r: Result<(), Error>)
        requires
            old(store).well_formed(),
        ensures
            (r is Ok) <==> (distinct_ids(payload.ids@) && (forall|k: int|
                0 <= k < payload.ids@.len() ==> has_comment(
                    old(store).comments@,
                    #[trigger] payload.ids@[k],
                ))),
            (r matches Err(e) ==> (e matches Error::BadRequest { reason } && reason@
                == "not all given ids are comments"@)),
            final(store).comments@.len() == old(store).comments@.len(),
            (r is Ok ==> forall|q: int|
                0 <= q < old(store).comments@.len() ==> final(store).comments@[q] == archive_one(
                    #[trigger] old(store).comments@[q],
                    payload.ids@,
                    payload.archived,
                )),
            (!(r is Ok) ==> final(store).comments@ == old(store).comments@),
            final(store).next_id == old(store).next_id,
            final(store).well_formed(),
    {
        let nids = payload.ids.len();
        if nids == 0 {
            proof {
                assert(forall|q: int|
                    0 <= q < old(store).comments@.len() ==> final(store).comments@[q]
                        == archive_one(
                        #[trigger] old(store).comments@[q],
                        payload.ids@,
                        payload.archived,
                    ));
            }
            return Ok(());
        }

        let mut a: usize = 0;
        while a < nids
            invariant
                nids == payload.ids@.len(),
                a <= nids,
                forall|i: int, j: int| 0 <= i < j < a ==> payload.ids@[i] != payload.ids@[j],
                forall|k: int|
                    0 <= k < a ==> has_comment(store.comments@, #[trigger] payload.ids@[k]),
                store.comments == old(store).comments,
                store.next_id == old(store).next_id,
                old(store).well_formed(),
            decreases nids - a,
        {
            let mut b: usize = 0;
            while b < a
                invariant
                    a < nids,
                    nids == payload.ids@.len(),
                    b <= a,
                    forall|j: int| 0 <= j < b ==> payload.ids@[j] != payload.ids@[a as int],
                    store.comments == old(store).comments,
                    store.next_id == old(store).next_id,
                    old(store).well_formed(),
                decreases a - b,
            {
                if payload.ids[b] == payload.ids[a] {
                    return Err(
                        Error::BadRequest { reason: "not all given ids are comments".to_owned() },
                    );
                }
                b = b + 1;
            }
            match find_comment(&store.comments, payload.ids[a]) {
                Some(_) => {},
                None => {
                    proof {
                        assert(!has_comment(store.comments@, payload.ids@[a as int])) by {
                            if has_comment(store.comments@, payload.ids@[a as int]) {
                                let w = choose|w: int|
                                    0 <= w < store.comments@.len() && (
                                    #[trigger] store.comments@[w]).id == payload.ids@[a as int];
                                lemma_comment_index_finds(store.comments@, payload.ids@[a as int]);
                            }
                        }
                    }
                    return Err(
                        Error::BadRequest { reason: "not all given ids are comments".to_owned() },
                    );
                },
            }
            a = a + 1;
        }

        let nrows = store.comments.len();
        let mut j: usize = 0;
        while j < nrows
            invariant
                nrows == store.comments@.len(),
                j <= nrows,
                forall|q: int|
                    0 <= q < j ==> store.comments@[q] == archive_one(
                        #[trigger] old(store).comments@[q],
                        payload.ids@,
                        payload.archived,
                    ),
                forall|q: int|
                    j <= q < nrows ==> store.comments@[q] == #[trigger] old(store).comments@[q],
                store.next_id == old(store).next_id,
                old(store).well_formed(),
            decreases nrows - j,
        {
            if contains_id(&payload.ids, store.comments[j].id) {
                if store.comments[j].archived != payload.archived {
                    store.comments[j].archived = payload.archived;
                } else {
                    proof {
                        assert(store.comments@[j as int] =~= archive_one(
                            old(store).comments@[j as int],
                            payload.ids@,
                            payload.archived,
                        ));
                    }
                }
            }
            j = j + 1;
        }
        proof {
            assert(forall|q: int|
                0 <= q < nrows ==> (#[trigger] store.comments@[q]).id
                    == old(store).comments@[q].id);
        }
        Ok(())
    }
}

/// A field-for-field copy of one comment row.
fn clone_row(c: &CommentRow) -> (r: CommentRow)
    ensures
        r == *c,
{
    CommentRow {
        id: c.id,
        uuid_id: c.uuid_id,
        parent_id: c.parent_id,
        author_id: c.author_id,
        instance_id: c.instance_id,
        date: c.date,
        archived: c.archived,
        trashed: c.trashed,
        title: match &c.title {
            Some(t) => Some(t.clone()),
            None => None,
        },
        content: c.content.clone(),
    }
}

impl Threads {
    /// Answers an existing thread: validates the content and the thread,
    /// appends the answer as a fresh comment row, and subscribes the author
    /// to the thread and to the answer when asked to. Recording the domain
    /// fact and fanning it out stays with the enclosing transaction.
    pub fn comment_thread(
        payload: &crate::thread::create_comment_mutation::Payload,
        date: i64,
        store: &mut CommentStore,
        subscriptions: &mut Subscriptions,
    ) -> (r: Result<CommentRow, Error>)
        requires
            old(store).well_formed(),
            old(store).next_id < i32::MAX,
        ensures
            final(store).well_formed(),
            (if payload.content@.len() == 0 {
                &&& r matches Err(e) && (e matches Error::BadRequest { reason } && reason@
                    == "content is empty"@)
                &&& final(store).comments@ == old(store).comments@
                &&& final(store).next_id == old(store).next_id
                &&& final(subscriptions).0@ == old(subscriptions).0@
            } else {
                match comment_index(old(store).comments@, payload.thread_id) {
                    None => {
                        &&& r matches Err(e) && (e matches Error::BadRequest { reason }
                            && reason@ == "thread does not exist"@)
                        &&& final(store).comments@ == old(store).comments@
                        &&& final(store).next_id == old(store).next_id
                        &&& final(subscriptions).0@ == old(subscriptions).0@
                    },
                    Some(w) => {
                        let t = old(store).comments@[w];
                        if t.archived {
                            &&& r matches Err(e) && (e matches Error::BadRequest { reason }
                                && reason@ == "thread is already archived"@)
                            &&& final(store).comments@ == old(store).comments@
                            &&& final(store).next_id == old(store).next_id
                            &&& final(subscriptions).0@ == old(subscriptions).0@
                        } else {
                            let c = (CommentRow {
                                id: old(store).next_id,
                                uuid_id: None,
                                parent_id: Some(payload.thread_id),
                                author_id: payload.user_id,
                                instance_id: t.instance_id,
                                date: date,
                                archived: false,
                                trashed: false,
                                title: None,
                                content: payload.content,
                            });
                            &&& r matches Ok(created) && created == c
                            &&& final(store).comments@ == old(store).comments@.push(c)
                            &&& final(store).next_id == old(store).next_id + 1
                            &&& (if payload.subscribe {
                                final(subscriptions).0@ == old(subscriptions).0@ + seq![
                                    (Subscription {
                                        object_id: payload.thread_id,
                                        user_id: payload.user_id,
                                        send_email: payload.send_email,
                                    }),
                                    (Subscription {
                                        object_id: old(store).next_id,
                                        user_id: payload.user_id,
                                        send_email: payload.send_email,
                                    }),
                                ]
                            } else {
                                final(subscriptions).0@ == old(subscriptions).0@
                            })
                        }
                    },
                }
            }),
    {
        if payload.content.as_str().is_empty() {
            return Err(Error::BadRequest { reason: "content is empty".to_owned() });
        }
        let w = match find_comment(&store.comments, payload.thread_id) {
            None => {
                return Err(Error::BadRequest { reason: "thread does not exist".to_owned() });
            },
            Some(w) => w,
        };
        if store.comments[w].archived {
            return Err(Error::BadRequest { reason: "thread is already archived".to_owned() });
        }

        let comment_id = store.next_id;
        let row = CommentRow {
            id: comment_id,
            uuid_id: None,
            parent_id: Some(payload.thread_id),
            author_id: payload.user_id,
            instance_id: store.comments[w].instance_id,
            date,
            archived: false,
            trashed: false,
            title: None,
            content: payload.content.clone(),
        };
        let created = clone_row(&row);
        store.comments.push(row);
        store.next_id = store.next_id + 1;

        if payload.subscribe {
            subscriptions.0.push(
                Subscription {
                    object_id: payload.thread_id,
                    user_id: payload.user_id,
                    send_email: payload.send_email,
                },
            );
            subscriptions.0.push(
                Subscription {
                    object_id: comment_id,
                    user_id: payload.user_id,
                    send_email: payload.send_email,
                },
            );
            proof {
                assert(subscriptions.0@ =~= old(subscriptions).0@ + seq![
                    (Subscription {
                        object_id: payload.thread_id,
                        user_id: payload.user_id,
                        send_email: payload.send_email,
                    }),
                    (Subscription {
                        object_id: comment_id,
                        user_id: payload.user_id,
                        send_email: payload.send_email,
                    }),
                ]);
            }
        }
        proof {
            assert forall|i: int, j: int| 0 <= i < j < store.comments@.len() implies (
            #[trigger] store.comments@[i]).id != (#[trigger] store.comments@[j]).id by {
                if j == store.comments@.len() - 1 {
                    assert(old(store).comments@[i].id < old(store).next_id);
                }
            }
        }
        Ok(created)
    }

    /// Opens a new thread on an object: validates the content and that the
    /// object resolved to an instance, appends the opening comment, and
    /// subscribes the author to the new thread when asked to.
    pub fn start_thread(
        payload: &crate::thread::create_thread_mutation::Payload,
        instance_id: Option<i32>,
        date: i64,
        store: &mut CommentStore,
        subscriptions: &mut Subscriptions,
    ) -> (r: Result<CommentRow, Error>)
        requires
            old(store).well_formed(),
            old(store).next_id < i32::MAX,
        ensures
            final(store).well_formed(),
            (if payload.content@.len() == 0 {
                &&& r matches Err(e) && (e matches Error::BadRequest { reason } && reason@
                    == "content is empty"@)
                &&& final(store).comments@ == old(store).comments@
                &&& final(store).next_id == old(store).next_id
                &&& final(subscriptions).0@ == old(subscriptions).0@
            } else {
                match instance_id {
                    None => {
                        &&& r matches Err(e) && (e matches Error::BadRequest { reason }
                            && reason@ == "UUID not found"@)
                        &&& final(store).comments@ == old(store).comments@
                        &&& final(store).next_id == old(store).next_id
                        &&& final(subscriptions).0@ == old(subscriptions).0@
                    },
                    Some(iid) => {
                        let c = (CommentRow {
                            id: old(store).next_id,
                            uuid_id: Some(payload.object_id),
                            parent_id: None,
                            author_id: payload.user_id,
                            instance_id: iid,
                            date: date,
                            archived: false,
                            trashed: false,
                            title: Some(payload.title),
                            content: payload.content,
                        });
                        &&& r matches Ok(created) && created == c
                        &&& final(store).comments@ == old(store).comments@.push(c)
                        &&& final(store).next_id == old(store).next_id + 1
                        &&& (if payload.subscribe {
                            final(subscriptions).0@ == old(subscriptions).0@.push(
                                (Subscription {
                                    object_id: old(store).next_id,
                                    user_id: payload.user_id,
                                    send_email: payload.send_email,
                                }),
                            )
                        } else {
                            final(subscriptions).0@ == old(subscriptions).0@
                        })
                    },
                }
            }),
    {
        if payload.content.as_str().is_empty() {
            return Err(Error::BadRequest { reason: "content is empty".to_owned() });
        }
        let iid = match instance_id {
            None => {
                return Err(Error::BadRequest { reason: "UUID not found".to_owned() });
            },
            Some(iid) => iid,
        };

        let thread_id = store.next_id;
        let row = CommentRow {
            id: thread_id,
            uuid_id: Some(payload.object_id),
            parent_id: None,
            author_id: payload.user_id,
            instance_id: iid,
            date,
            archived: false,
            trashed: false,
            title: Some(payload.title.clone()),
            content: payload.content.clone(),
        };
        let created = clone_row(&row);
        store.comments.push(row);
        store.next_id = store.next_id + 1;

        if payload.subscribe {
            subscriptions.0.push(
                Subscription {
                    object_id: thread_id,
                    user_id: payload.user_id,
                    send_email: payload.send_email,
                },
            );
        }
        proof {
            assert forall|i: int, j: int| 0 <= i < j < store.comments@.len() implies (
            #[trigger] store.comments@[i]).id != (#[trigger] store.comments@[j]).id by {
                if j == store.comments@.len() - 1 {
                    assert(old(store).comments@[i].id < old(store).next_id);
                }
            }
        }
        Ok(created)
    }

    /// Replaces the content of one comment. Every refusal names its cause —
    /// empty content, an unknown comment, a stranger's comment, an archived
    /// or a trashed one — and only a fully valid request writes.
    pub fn edit_comment(
        payload: &crate::thread::edit_comment_mutation::Payload,
        store: &mut CommentStore,
    ) -> (r: Result<SuccessOutput, Error>)
        requires
            old(store).well_formed(),
        ensures
            final(store).next_id == old(store).next_id,
            final(store).well_formed(),
            (if payload.content@.len() == 0 {
                &&& r matches Err(e) && (e matches Error::BadRequest { reason } && reason@
                    == "content is empty"@)
                &&& final(store).comments@ == old(store).comments@
            } else {
                match comment_index(old(store).comments@, payload.comment_id) {
                    None => {
                        &&& r matches Err(e) && (e matches Error::BadRequest { reason }
                            && reason@ == "no comment with given ID"@)
                        &&& final(store).comments@ == old(store).comments@
                    },
                    Some(w) => {
                        let c = old(store).comments@[w];
                        if payload.user_id != c.author_id {
                            &&& r matches Err(e) && (e matches Error::BadRequest { reason }
                                && reason@ == "given user is not author of the comment"@)
                            &&& final(store).comments@ == old(store).comments@
                        } else if c.archived {
                            &&& r matches Err(e) && (e matches Error::BadRequest { reason }
                                && reason@ == "archived comment cannot be edited"@)
                            &&& final(store).comments@ == old(store).comments@
                        } else if c.trashed {
                            &&& r matches Err(e) && (e matches Error::BadRequest { reason }
                                && reason@ == "trashed comment cannot be edited"@)
                            &&& final(store).comments@ == old(store).comments@
                        } else {
                            &&& r matches Ok(out) && out.success
                            &&& final(store).comments@ == old(store).comments@.update(
                                w,
                                (CommentRow { content: payload.content, ..c }),
                            )
                        }
                    },
                }
            }),
    {
        if payload.content.as_str().is_empty() {
            return Err(Error::BadRequest { reason: "content is empty".to_owned() });
        }
        let w = match find_comment(&store.comments, payload.comment_id) {
            None => {
                return Err(Error::BadRequest { reason: "no comment with given ID".to_owned() });
            },
            Some(w) => w,
        };
        if payload.user_id != store.comments[w].author_id {
            return Err(
                Error::BadRequest { reason: "given user is not author of the comment".to_owned() },
            );
        }
        if store.comments[w].archived {
            return Err(
                Error::BadRequest { reason: "archived comment cannot be edited".to_owned() },
            );
        }
        if store.comments[w].trashed {
            return Err(
                Error::BadRequest { reason: "trashed comment cannot be edited".to_owned() },
            );
        }

        store.comments[w].content = payload.content.clone();
        proof {
            assert(store.comments@ =~= old(store).comments@.update(
                w as int,
                (CommentRow { content: payload.content, ..old(store).comments@[w as int] }),
            ));
            assert forall|i: int, j: int| 0 <= i < j < store.comments@.len() implies (
            #[trigger] store.comments@[i]).id != (#[trigger] store.comments@[j]).id by {
                assert(old(store).comments@[i].id != old(store).comments@[j].id);
            }
            assert forall|i: int| 0 <= i < store.comments@.len() implies (
            #[trigger] store.comments@[i]).id < store.next_id by {
                assert(old(store).comments@[i].id < old(store).next_id);
            }
        }
        Ok(SuccessOutput { success: true })
    }
}

/// A present id is one `comment_index` finds.
proof fn lemma_comment_index_finds(s: Seq<CommentRow>, id: i32)
    ensures
        has_comment(s, id) <==> comment_index(s, id) is Some,
    decreases s.len(),
{
    if s.len() == 0 {
    } else {
        let tail = s.drop_first();
        lemma_comment_index_finds(tail, id);
        if s[0].id == id {
        } else {
            assert(has_comment(s, id) <==> has_comment(tail, id)) by {
                if has_comment(s, id) {
                    let w = choose|w: int| 0 <= w < s.len() && (#[trigger] s[w]).id == id;
                    assert(tail[w - 1] == s[w]);
                }
                if has_comment(tail, id) {
                    let w = choose|w: int| 0 <= w < tail.len() && (#[trigger] tail[w]).id == id;
                    assert(s[w + 1] == tail[w]);
                }
            }
        }
    }
}

} // verus!
