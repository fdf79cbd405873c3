use vstd::prelude::*;

verus! {

/// A named slot of an event that points at another addressed object,
/// e.g. `"from"` / `"to"` for a reparenting fact.
#[derive(Clone, Debug)]
pub struct UuidParameter {
    pub name: String,
    pub value: i32,
}

/// The ordered list of object-valued parameter slots an event carries.
/// Names may repeat; lookups return the first match.
#[derive(Clone, Debug)]
pub struct UuidParameters(pub Vec<UuidParameter>);

/// A named free-form text slot of an event.
#[derive(Clone, Debug)]
pub struct StringParameter {
    pub name: String,
    pub value: String,
}

impl UuidParameters {
    /// The value of the first parameter named `name`, if any.
    pub open spec fn spec_get(s: Seq<UuidParameter>, name: Seq<char>) -> Option<i32>
        decreases s.len(),
    {
        if s.len() == 0 {
            None
        } else if s[0].name@ == name {
            Some(s[0].value)
        } else {
            Self::spec_get(s.drop_first(), name)
        }
    }

    /// The object ids of all parameters, in slot order.
    pub open spec fn spec_values(s: Seq<UuidParameter>) -> Seq<i32> {
        s.map_values(|p: UuidParameter| p.value)
    }

    pub fn get(&self, name: &str) -> (r: Option<i32>)
        ensures
            r == Self::spec_get(self.0@, name@),
    {
        let key: String = name.to_owned();
        let n = self.0.len();
        let mut i: usize = 0;
        proof {
            assert(self.0@.skip(0) =~= self.0@);
        }
        while i < n
            invariant
                n == self.0@.len(),
                i <= n,
                Self::spec_get(self.0@, name@) == Self::spec_get(self.0@.skip(i as int), name@),
                key@ == name@,
            decreases n - i,
        {
            let p = &self.0[i];
            proof {
                assert(self.0@.skip(i as int)[0] == self.0@[i as int]);
                assert(self.0@.skip(i as int).drop_first() =~= self.0@.skip(i as int + 1));
            }
            if p.name == key {
                return Some(p.value);
            }
            i = i + 1;
        }
        proof {
            assert(self.0@.skip(n as int) =~= Seq::<UuidParameter>::empty());
        }
        None
    }

    /// All object ids carried by the parameters, in order.
    pub fn values(&self) -> (r: Vec<i32>)
        ensures
            r@ == Self::spec_values(self.0@),
    {
        let n = self.0.len();
        let mut out: Vec<i32> = Vec::new();
        let mut i: usize = 0;
        while i < n
            invariant
                n == self.0@.len(),
                i <= n,
                out@ =~= Self::spec_values(self.0@.take(i as int)),
            decreases n - i,
        {
            out.push(self.0[i].value);
            i = i + 1;
            proof {
                assert(out@ =~= Self::spec_values(self.0@.take(i as int)));
            }
        }
        proof {
            assert(self.0@.take(n as int) =~= self.0@);
        }
        out
    }
}

/// An immutable fact: an acting user did something to a primary addressed
/// object, possibly involving further related objects and free-form text.
#[derive(Clone, Debug)]
pub struct AbstractEvent {
    pub id: i32,
    pub actor_id: i32,
    pub object_id: i32,
    pub date: i64,
    pub uuid_parameters: UuidParameters,
    pub string_parameters: Vec<StringParameter>,
}

/// Failures surfaced by the event layer.
#[derive(Debug)]
pub enum EventError {
    /// The acting user does not exist: a caller-caused precondition failure.
    MissingUser,
    /// The storage layer failed; the cause is kept for server-side logging.
    DatabaseError { inner: String },
    /// The stored event has a shape this layer cannot interpret.
    InvalidType,
}

/// The reparenting fact a taxonomy-move event describes: which child moved,
/// and from / to which parent (either end may be absent).
#[derive(Debug, PartialEq, Eq)]
pub struct SetTaxonomyParentEvent {
    pub child_id: i32,
    pub previous_parent_id: Option<i32>,
    pub parent_id: Option<i32>,
}

impl SetTaxonomyParentEvent {
    /// Reads the moved child from the primary object and the two parents from
    /// the `"from"` / `"to"` parameter slots.
    pub fn try_from(abstract_event: &AbstractEvent) -> (r: Result<Self, EventError>)
        ensures
            r matches Ok(e) && e == (SetTaxonomyParentEvent {
                child_id: abstract_event.object_id,
                previous_parent_id: UuidParameters::spec_get(
                    abstract_event.uuid_parameters.0@,
                    "from"@,
                ),
                parent_id: UuidParameters::spec_get(abstract_event.uuid_parameters.0@, "to"@),
            }),
    {
        let child_id = abstract_event.object_id;
        let previous_parent_id = abstract_event.uuid_parameters.get("from");
        let parent_id = abstract_event.uuid_parameters.get("to");

        Ok(SetTaxonomyParentEvent { child_id, previous_parent_id, parent_id })
    }
}

} // verus!
