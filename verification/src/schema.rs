//! The part of a structural schema that the integrity check reads: the one-of
//! alternatives of a sum type, each with its instance type, the required
//! names of its object section and its enumerated literal values.

use vstd::prelude::*;
use crate::names::{lists, sorted_names, texts};
use crate::query_response::IntegrityError;

verus! {

/// The primitive kinds a schema can ask an instance to be.
#[derive(Clone, Copy, Debug, PartialEq, Eq, Structural)]
pub enum InstanceType {
    Null,
    Boolean,
    Object,
    Array,
    Number,
    Text,
    Integer,
}

/// One instance type, or a list of admitted ones.
#[derive(Clone, Debug, PartialEq, Eq)]
pub enum InstanceTypes {
    Single(InstanceType),
    Several(Vec<InstanceType>),
}

/// One alternative of a one-of list.
#[derive(Clone, Debug, PartialEq, Eq)]
pub struct Alternative {
    /// The declared instance type, if any.
    pub instance_type: Option<InstanceTypes>,
    /// The required property names of the object section, if there is one.
    pub required: Option<Vec<String>>,
    /// The enumerated values, if any; a value that is no string is `None`.
    pub enum_values: Option<Vec<Option<String>>>,
}

/// The shapes an alternative can have, as far as operation names go.
#[derive(Clone, Copy, Debug, PartialEq, Eq, Structural)]
pub enum Shape {
    /// An object: the operation name is its sole required property.
    Object,
    /// A string: the operation name is its sole enumerated value.
    Text,
    /// Anything else: no operation name can be read from it.
    Unsupported,
}

/// The subschema section of a schema.
#[derive(Clone, Debug, PartialEq, Eq)]
pub struct Subschemas {
    /// The one-of list, if the section has one.
    pub one_of: Option<Vec<Alternative>>,
}

/// The structural schema of a query message.
#[derive(Clone, Debug, PartialEq, Eq)]
pub struct QuerySchema {
    /// The subschema section; a sum type without variants has none.
    pub subschemas: Option<Subschemas>,
}

/// The operation names of a list of alternatives in order, or `None` where
/// one of them has no operation name.
pub open spec fn names_of(alts: Seq<Alternative>) -> Option<Seq<Seq<char>>>
    decreases alts.len(),
{
    if alts.len() == 0 {
        Some(Seq::empty())
    } else {
        match (names_of(alts.drop_last()), alts.last().spec_operation_name()) {
            (Some(front), Some(name)) => Some(front.push(name)),
            _ => None,
        }
    }
}

/// One alternative without an operation name leaves the whole list without
/// names.
pub proof fn lemma_names_of_malformed(alts: Seq<Alternative>, i: int)
    requires
        0 <= i < alts.len(),
        alts[i].spec_operation_name() is None,
    ensures
        names_of(alts) is None,
    decreases alts.len(),
{
    if i < alts.len() - 1 {
        lemma_names_of_malformed(alts.drop_last(), i);
    }
}

/// Where the list has names, there is one for each alternative, in order.
pub proof fn lemma_names_of_each(alts: Seq<Alternative>)
    requires
        names_of(alts) is Some,
    ensures
        names_of(alts).unwrap().len() == alts.len(),
        forall|i: int|
            0 <= i < alts.len() ==> #[trigger] alts[i].spec_operation_name() == Some(
                names_of(alts).unwrap()[i],
            ),
    decreases alts.len(),
{
    if alts.len() > 0 {
        lemma_names_of_each(alts.drop_last());
        assert forall|i: int| 0 <= i < alts.len() implies #[trigger] alts[i].spec_operation_name()
            == Some(names_of(alts).unwrap()[i]) by {
            if i < alts.len() - 1 {
                assert(alts.drop_last()[i] == alts[i]);
            }
        }
    }
}

impl Alternative {
    /// The shape of the alternative: decided by a single declared instance
    /// type alone.
    pub open spec fn spec_shape(&self) -> Shape {
        match self.instance_type {
            Some(InstanceTypes::Single(InstanceType::Object)) => Shape::Object,
            Some(InstanceTypes::Single(InstanceType::Text)) => Shape::Text,
            _ => Shape::Unsupported,
        }
    }

    /// The operation name of the alternative, where it has exactly one.
    pub open spec fn spec_operation_name(&self) -> Option<Seq<char>> {
        match self.spec_shape() {
            Shape::Object => match self.required {
                Some(required) => if required@.len() == 1 {
                    Some(required@[0]@)
                } else {
                    None
                },
                None => None,
            },
            Shape::Text => match self.enum_values {
                Some(values) => if values@.len() == 1 && values@[0] is Some {
                    Some(values@[0].unwrap()@)
                } else {
                    None
                },
                None => None,
            },
            Shape::Unsupported => None,
        }
    }

    /// The shape of the alternative.
    pub fn shape(&self) -> (s: Shape)
        ensures
            s == self.spec_shape(),
    {
        match &self.instance_type {
            Some(InstanceTypes::Single(InstanceType::Object)) => Shape::Object,
            Some(InstanceTypes::Single(InstanceType::Text)) => Shape::Text,
            _ => Shape::Unsupported,
        }
    }

    /// The operation name of the alternative: the sole required property of
    /// an object, the sole enumerated value of a string. Every other
    /// alternative is refused.
    pub fn operation_name(&self) -> (r: Result<String, IntegrityError>)
        ensures
            match self.spec_operation_name() {
                Some(name) => r is Ok && r.unwrap()@ == name,
                None => r == Err::<String, IntegrityError>(IntegrityError::InvalidQueryMsgSchema),
            },
    {
        match self.shape() {
            Shape::Object => match &self.required {
                Some(required) => {
                    if required.len() == 1 {
                        Ok(required[0].clone())
                    } else {
                        Err(IntegrityError::InvalidQueryMsgSchema)
                    }
                },
                None => Err(IntegrityError::InvalidQueryMsgSchema),
            },
            Shape::Text => match &self.enum_values {
                Some(values) => {
                    if values.len() != 1 {
                        return Err(IntegrityError::InvalidQueryMsgSchema);
                    }
                    match &values[0] {
                        Some(text) => Ok(text.clone()),
                        None => Err(IntegrityError::InvalidQueryMsgSchema),
                    }
                },
                None => Err(IntegrityError::InvalidQueryMsgSchema),
            },
            Shape::Unsupported => Err(IntegrityError::InvalidQueryMsgSchema),
        }
    }
}

impl QuerySchema {
    /// The alternatives of the one-of list; none where the schema has no
    /// such list.
    pub open spec fn alternatives(&self) -> Seq<Alternative> {
        match self.subschemas {
            Some(Subschemas { one_of: Some(alts) }) => alts@,
            _ => Seq::empty(),
        }
    }

    /// The operation names that the schema declares, one per alternative in
    /// order: none where there is no subschema section, and `None` where the
    /// section lacks its one-of list or an alternative has no operation name.
    pub open spec fn spec_queries(&self) -> Option<Seq<Seq<char>>> {
        match self.subschemas {
            None => Some(Seq::empty()),
            Some(subschemas) => match subschemas.one_of {
                None => None,
                Some(_) => names_of(self.alternatives()),
            },
        }
    }

    /// The set of operation names that the schema declares: each once, in
    /// ascending order.
    pub fn queries(&self) -> (r: Result<Vec<String>, IntegrityError>)
        ensures
            match self.spec_queries() {
                Some(names) => r is Ok && lists(texts(r.unwrap()@), names),
                None => r == Err::<Vec<String>, IntegrityError>(
                    IntegrityError::InvalidQueryMsgSchema,
                ),
            },
    {
        let alts = match &self.subschemas {
            None => {
                let none: Vec<String> = Vec::new();
                assert(texts(none@).to_set() =~= Seq::<Seq<char>>::empty().to_set());
                return Ok(none);
            },
            Some(subschemas) => match &subschemas.one_of {
                None => {
                    return Err(IntegrityError::InvalidQueryMsgSchema);
                },
                Some(alts) => alts,
            },
        };
        let mut found: Vec<String> = Vec::new();
        let mut i: usize = 0;
        assert(alts@.take(0) =~= Seq::empty());
        assert(texts(found@) =~= Seq::empty());
        while i < alts.len()
            invariant
                i <= alts.len(),
                self.spec_queries() == names_of(alts@),
                names_of(alts@.take(i as int)) == Some(texts(found@)),
            decreases alts.len() - i,
        {
            assert(alts@.take(i + 1).drop_last() =~= alts@.take(i as int));
            assert(alts@.take(i + 1).last() == alts@[i as int]);
            match alts[i].operation_name() {
                Ok(name) => {
                    let ghost prev = texts(found@);
                    found.push(name);
                    assert(texts(found@) =~= prev.push(name@));
                },
                Err(e) => {
                    proof {
                        lemma_names_of_malformed(alts@, i as int);
                    }
                    return Err(e);
                },
            }
            i += 1;
        }
        assert(alts@.take(alts@.len() as int) =~= alts@);
        Ok(sorted_names(&found))
    }
}

} // verus!
