use vstd::prelude::*;

verus! {

/// One row of the subscription registry: one user interested in one object.
/// No uniqueness is enforced here; duplicate rows are absorbed by the
/// deduplication the fan-out performs downstream.
#[derive(Clone, Copy, Debug, PartialEq, Eq, Structural)]
pub struct Subscription {
    pub object_id: i32,
    pub user_id: i32,
    pub send_email: bool,
}

/// A snapshot of the subscription registry, in storage order. One fan-out
/// reads a single snapshot, so all its lookups see the same rows.
#[derive(Clone, Debug)]
pub struct Subscriptions(pub Vec<Subscription>);

impl Subscriptions {
    /// The rows interested in `object_id`, in registry order.
    pub open spec fn spec_by_object(s: Seq<Subscription>, object_id: i32) -> Seq<Subscription> {
        s.filter(|sub: Subscription| sub.object_id == object_id)
    }

    /// Looks up every subscription on one object.
    pub fn fetch_by_object(&self, object_id: i32) -> (r: Subscriptions)
        ensures
            r.0@ == Self::spec_by_object(self.0@, object_id),
    {
        let n = self.0.len();
        let mut out: Vec<Subscription> = Vec::new();
        let mut i: usize = 0;
        proof {
            reveal(Seq::filter);
            assert(self.0@.take(0) =~= Seq::<Subscription>::empty());
        }
        while i < n
            invariant
                n == self.0@.len(),
                i <= n,
                out@ == Self::spec_by_object(self.0@.take(i as int), object_id),
            decreases n - i,
        {
            let sub = self.0[i];
            proof {
                reveal(Seq::filter);
                assert(self.0@.take(i as int + 1).drop_last() =~= self.0@.take(i as int));
                assert(self.0@.take(i as int + 1).last() == self.0@[i as int]);
            }
            if sub.object_id == object_id {
                out.push(sub);
            }
            i = i + 1;
        }
        proof {
            assert(self.0@.take(n as int) =~= self.0@);
        }
        Subscriptions(out)
    }

    pub fn is_empty(&self) -> (r: bool)
        ensures
            r == (self.0@.len() == 0),
    {
        self.0.is_empty()
    }
}

} // verus!
