use vstd::prelude::*;

verus! {

/// One named slot of a stored revision.
#[derive(Clone, Debug)]
pub struct RevisionField {
    pub name: String,
    pub value: String,
}

/// The named slots of one revision, in storage order. Names may repeat;
/// lookups return the first match.
#[derive(Clone, Debug)]
pub struct EntityRevisionFields(pub Vec<RevisionField>);

impl EntityRevisionFields {
    /// The value of the first field named `name`, if any.
    pub open spec fn spec_get(s: Seq<RevisionField>, name: Seq<char>) -> Option<Seq<char>>
        decreases s.len(),
    {
        if s.len() == 0 {
            None
        } else if s[0].name@ == name {
            Some(s[0].value@)
        } else {
            Self::spec_get(s.drop_first(), name)
        }
    }

    /// The first value under `name`, or `default` when no field has it.
    pub open spec fn spec_get_or(
        s: Seq<RevisionField>,
        name: Seq<char>,
        default: Seq<char>,
    ) -> Seq<char> {
        match Self::spec_get(s, name) {
            Some(v) => v,
            None => default,
        }
    }

    pub fn get_or(&self, name: &str, default: &str) -> (r: String)
        ensures
            r@ == Self::spec_get_or(self.0@, name@, default@),
    {
        let key: String = name.to_owned();
        let n = self.0.len();
        let mut i: usize = 0;
        proof {
            assert(self.0@.skip(0) =~= self.0@);
        }
        while i < n
            invariant
                n == self.0@.len(),
                i <= n,
                Self::spec_get(self.0@, name@) == Self::spec_get(self.0@.skip(i as int), name@),
                key@ == name@,
            decreases n - i,
        {
            let f = &self.0[i];
            proof {
                assert(self.0@.skip(i as int)[0] == self.0@[i as int]);
                assert(self.0@.skip(i as int).drop_first() =~= self.0@.skip(i as int + 1));
            }
            if f.name == key {
                return f.value.clone();
            }
            i = i + 1;
        }
        proof {
            assert(self.0@.skip(n as int) =~= Seq::<RevisionField>::empty());
        }
        default.to_owned()
    }
}

/// What every concrete revision shape is read from: who revised which
/// repository when, and the named field slots of the revision.
#[derive(Clone, Debug)]
pub struct AbstractEntityRevision {
    pub author_id: i32,
    pub repository_id: i32,
    pub date: i64,
    pub fields: EntityRevisionFields,
}

} // verus!
