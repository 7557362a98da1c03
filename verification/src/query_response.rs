//! The integrity check between a query message's schema and its declared
//! responses.

use vstd::prelude::*;
use crate::names::{
    ascending, covers, lemma_absent, lemma_ascending_distinct, lemma_ascending_unique,
    lemma_insert_ascending, lists, position, sorted_names, texts,
};
use crate::schema::{lemma_names_of_each, lemma_names_of_malformed, QuerySchema, Shape};
use schemars::schema::RootSchema;

verus! {

/// Why a query message and its declared responses do not fit together.
#[derive(Debug, PartialEq, Eq)]
pub enum IntegrityError {
    /// The structure of the query message's schema was unexpected.
    InvalidQueryMsgSchema,
    /// The schema and the responses name different operations. Both lists
    /// hold each name once, in ascending order.
    InconsistentQueries { query_msg: Vec<String>, responses: Vec<String> },
}

/// What the check owes for a schema and the declared operation names: the
/// schema must give a name to each alternative, and the two sets of names
/// must be equal.
pub open spec fn verdict(
    schema: QuerySchema,
    declared: Seq<Seq<char>>,
    r: Result<(), IntegrityError>,
) -> bool {
    match schema.spec_queries() {
        None => r == Err::<(), IntegrityError>(IntegrityError::InvalidQueryMsgSchema),
        Some(names) => if names.to_set() == declared.to_set() {
            r is Ok
        } else {
            &&& r matches Err(IntegrityError::InconsistentQueries { query_msg, responses })
            &&& lists(texts(query_msg@), names)
            &&& lists(texts(responses@), declared)
        },
    }
}

/// Checks that the operation names of `schema` are exactly the
/// `generated_queries`, read as sets.
pub fn check_api_integrity(schema: &QuerySchema, generated_queries: Vec<String>) -> (r: Result<
    (),
    IntegrityError,
>)
    ensures
        verdict(*schema, texts(generated_queries@), r),
{
    let schema_queries = match schema.queries() {
        Ok(names) => names,
        Err(e) => {
            return Err(e);
        },
    };
    if covers(&schema_queries, &generated_queries) && covers(&generated_queries, &schema_queries) {
        assert(schema.spec_queries().unwrap().to_set() =~= texts(generated_queries@).to_set());
        return Ok(());
    }
    let responses = sorted_names(&generated_queries);
    Err(IntegrityError::InconsistentQueries { query_msg: schema_queries, responses })
}

/// A structural schema as `schemars` holds it: `schemars::schema::RootSchema`.
/// The library carries such values and never looks inside.
#[verifier::external_type_specification]
#[verifier::external_body]
pub struct ExRootSchema(schemars::schema::RootSchema);

/// The declared responses of a query message: one response schema per
/// operation name, in the ascending order of the names.
#[derive(Debug, PartialEq)]
pub struct ResponseMap {
    keys: Vec<String>,
    values: Vec<RootSchema>,
}

impl ResponseMap {
    #[verifier::type_invariant]
    spec fn wf(self) -> bool {
        self.keys@.len() == self.values@.len() && ascending(texts(self.keys@))
    }

    /// The operation names, in order.
    pub closed spec fn keys(self) -> Seq<Seq<char>> {
        texts(self.keys@)
    }

    /// The response schemas, each at the place of its name.
    pub closed spec fn values(self) -> Seq<RootSchema> {
        self.values@
    }

    /// The map without entries.
    pub fn new() -> (m: Self)
        ensures
            m.keys() == Seq::<Seq<char>>::empty(),
            m.values() == Seq::<RootSchema>::empty(),
            ascending(m.keys()),
    {
        let m = ResponseMap { keys: Vec::new(), values: Vec::new() };
        assert(m.keys() =~= Seq::empty());
        m
    }

    /// The number of entries.
    pub fn len(&self) -> (n: usize)
        ensures
            n == self.keys().len(),
            n == self.values().len(),
            ascending(self.keys()),
    {
        proof {
            use_type_invariant(self);
        }
        self.keys.len()
    }

    /// The map with the response of `key` set: in place where the name is in
    /// the map, as a new entry at the place of the name where it is not.
    pub fn insert(self, key: String, value: RootSchema) -> (m: Self)
        ensures
            ascending(self.keys()),
            ascending(m.keys()),
            self.keys().contains(key@) ==> m.keys() == self.keys() && m.values()
                == self.values().update(self.keys().index_of(key@), value),
            !self.keys().contains(key@) ==> exists|i: int|
                0 <= i <= self.keys().len() && m.keys() == #[trigger] self.keys().insert(i, key@)
                    && m.values() == self.values().insert(i, value),
    {
        proof {
            use_type_invariant(&self);
            lemma_ascending_distinct(self.keys());
        }
        let ghost before = self.keys();
        let mut keys = self.keys;
        let mut values = self.values;
        let (at, found) = position(&keys, &key);
        if found {
            assert(before[at as int] == key@);
            assert(before.index_of(key@) == at);
            values.set(at, value);
        } else {
            proof {
                lemma_absent(before, at as int, key@);
                lemma_insert_ascending(before, at as int, key@);
            }
            keys.insert(at, key);
            values.insert(at, value);
            assert(texts(keys@) =~= before.insert(at as int, key@));
        }
        ResponseMap { keys, values }
    }

    /// The operation names, in order.
    pub fn key_names(&self) -> (names: Vec<String>)
        ensures
            texts(names@) == self.keys(),
            ascending(self.keys()),
    {
        proof {
            use_type_invariant(self);
        }
        let mut names: Vec<String> = Vec::new();
        let mut i: usize = 0;
        assert(texts(names@) =~= self.keys().take(0));
        while i < self.keys.len()
            invariant
                i <= self.keys@.len(),
                texts(names@) == self.keys().take(i as int),
            decreases self.keys@.len() - i,
        {
            let ghost prev = texts(names@);
            let name = self.keys[i].clone();
            names.push(name);
            assert(texts(names@) =~= prev.push(name@));
            assert(self.keys().take(i + 1) =~= self.keys().take(i as int).push(name@));
            i += 1;
        }
        assert(self.keys().take(self.keys@.len() as int) =~= self.keys());
        names
    }

    /// The response schema of `key`, where the map has one.
    pub fn get(&self, key: &String) -> (found: Option<&RootSchema>)
        ensures
            match found {
                Some(schema) => self.keys().contains(key@) && *schema
                    == self.values()[self.keys().index_of(key@)],
                None => !self.keys().contains(key@),
            },
    {
        proof {
            use_type_invariant(self);
            lemma_ascending_distinct(self.keys());
        }
        let (at, found) = position(&self.keys, key);
        if found {
            assert(self.keys()[at as int] == key@);
            assert(self.keys().index_of(key@) == at);
            Some(&self.values[at])
        } else {
            proof {
                lemma_absent(self.keys(), at as int, key@);
            }
            None
        }
    }
}

/// What the checked responses of a schema are: the declared responses
/// themselves where the schema names exactly their operations, and else the
/// reason why not.
pub open spec fn checked(
    schema: QuerySchema,
    responses: ResponseMap,
    r: Result<ResponseMap, IntegrityError>,
) -> bool {
    match schema.spec_queries() {
        None => r == Err::<ResponseMap, IntegrityError>(IntegrityError::InvalidQueryMsgSchema),
        Some(names) => if names.to_set() == responses.keys().to_set() {
            r == Ok::<ResponseMap, IntegrityError>(responses)
        } else {
            &&& r matches Err(
                IntegrityError::InconsistentQueries { query_msg, responses: declared },
            )
            &&& lists(texts(query_msg@), names)
            &&& texts(declared@) == responses.keys()
        },
    }
}

/// Checks the declared `responses` against the `schema` of their query
/// message, and hands them back unchanged where the two name the same
/// operations.
pub fn checked_responses(schema: &QuerySchema, responses: ResponseMap) -> (r: Result<
    ResponseMap,
    IntegrityError,
>)
    ensures
        checked(*schema, responses, r),
{
    let queries = responses.key_names();
    match check_api_integrity(schema, queries) {
        Ok(()) => Ok(responses),
        Err(e) => {
            proof {
                if e is InconsistentQueries {
                    lemma_ascending_unique(texts(e->responses@), responses.keys());
                }
            }
            Err(e)
        },
    }
}

/// Ties the variants of a query message to their response types.
pub trait QueryResponses {
    /// The structural schema of the query message itself.
    fn query_schema() -> (schema: QuerySchema)
        ensures
            schema.spec_queries() == Self::spec_query_names(),
    ;
    /// The declared responses, one per operation name. Nothing is checked.
    fn response_schemas_impl() -> (responses: ResponseMap)
        ensures
            responses.keys() == Self::spec_response_names(),
            responses.values() == Self::spec_responses(),
    ;
    /// The declared responses, checked against the query message's schema.
    fn response_schemas() -> (r: Result<ResponseMap, IntegrityError>)
        ensures
            outcome(
                Self::spec_query_names(),
                Self::spec_response_names(),
                Self::spec_responses(),
                r,
            ),
            r matches Ok(checked) ==> ascending(checked.keys()),
            r matches Err(IntegrityError::InconsistentQueries { query_msg, responses }) ==> {
                &&& ascending(texts(query_msg@))
                &&& ascending(texts(responses@))
                &&& texts(query_msg@).to_set() != texts(responses@).to_set()
            },
    {
        let response_schemas = Self::response_schemas_impl();
        let schema = Self::query_schema();
        proof {
            use_type_invariant(&response_schemas);
        }
        checked_responses(&schema, response_schemas)
    }

    /// The operation names of the schema that `query_schema` hands out, the
    /// same at every call. An implementation that is verified says here
    /// which they are.
    open spec fn spec_query_names() -> Option<Seq<Seq<char>>> {
        arbitrary()
    }

    /// The operation names of the responses that `response_schemas_impl`
    /// hands out, the same at every call.
    open spec fn spec_response_names() -> Seq<Seq<char>> {
        arbitrary()
    }

    /// The response schemas that `response_schemas_impl` hands out, each at
    /// the place of its name, the same at every call.
    open spec fn spec_responses() -> Seq<RootSchema> {
        arbitrary()
    }
}

/// What the checked responses are for the operation names that a schema
/// gives (`None` where it is malformed) and for the names and schemas of the
/// declared responses: the declared responses where the two sets of names
/// are equal, and else the reason why not.
pub open spec fn outcome(
    names: Option<Seq<Seq<char>>>,
    keys: Seq<Seq<char>>,
    values: Seq<RootSchema>,
    r: Result<ResponseMap, IntegrityError>,
) -> bool {
    match names {
        None => r == Err::<ResponseMap, IntegrityError>(IntegrityError::InvalidQueryMsgSchema),
        Some(names) => if names.to_set() == keys.to_set() {
            r matches Ok(checked) && checked.keys() == keys && checked.values() == values
        } else {
            &&& r matches Err(
                IntegrityError::InconsistentQueries { query_msg, responses: declared },
            )
            &&& lists(texts(query_msg@), names)
            &&& texts(declared@) == keys
        },
    }
}

/// A verdict of success means that the schema and the declared names tie
/// up: every alternative of the schema has an operation name and that name
/// is declared, and every declared name is the operation name of an
/// alternative.
pub proof fn lemma_success_ties_names(
    schema: QuerySchema,
    declared: Seq<Seq<char>>,
    r: Result<(), IntegrityError>,
)
    requires
        verdict(schema, declared, r),
        r is Ok,
    ensures
        schema.spec_queries() is Some,
        forall|i: int|
            0 <= i < schema.alternatives().len() ==> {
                &&& (#[trigger] schema.alternatives()[i]).spec_operation_name() is Some
                &&& declared.contains(schema.alternatives()[i].spec_operation_name().unwrap())
            },
        forall|name: Seq<char>|
            declared.contains(name) ==> exists|i: int|
                0 <= i < schema.alternatives().len() && (
                #[trigger] schema.alternatives()[i]).spec_operation_name() == Some(name),
{
    let names = schema.spec_queries().unwrap();
    let alts = schema.alternatives();
    if schema.subschemas is Some {
        lemma_names_of_each(alts);
    }
    assert(names.len() == alts.len());
    assert forall|i: int| 0 <= i < alts.len() implies (#[trigger] alts[i]).spec_operation_name()
        is Some && declared.contains(alts[i].spec_operation_name().unwrap()) by {
        assert(alts[i].spec_operation_name() == Some(names[i]));
        assert(names.to_set().contains(names[i]));
        assert(declared.to_set().contains(names[i]));
    }
    assert forall|name: Seq<char>| declared.contains(name) implies exists|i: int|
        0 <= i < alts.len() && (#[trigger] alts[i]).spec_operation_name() == Some(name) by {
        assert(declared.to_set().contains(name));
        assert(names.to_set().contains(name));
        let i = choose|i: int| 0 <= i < names.len() && names[i] == name;
        assert(alts[i].spec_operation_name() == Some(name));
    }
}

/// Checked responses that come back are the declared ones, and their names
/// are exactly the operation names of the schema: each name of the map is
/// one of the schema's and the other way round, and the ascending list of
/// the schema's names is the list of the map's names, place by place.
pub proof fn lemma_checked_success(
    schema: QuerySchema,
    responses: ResponseMap,
    r: Result<ResponseMap, IntegrityError>,
    derived: Seq<Seq<char>>,
)
    requires
        ascending(responses.keys()),
        checked(schema, responses, r),
        r is Ok,
        schema.spec_queries() matches Some(names) && lists(derived, names),
    ensures
        r == Ok::<ResponseMap, IntegrityError>(responses),
        forall|name: Seq<char>|
            responses.keys().contains(name) <==> schema.spec_queries().unwrap().contains(name),
        derived == responses.keys(),
{
    let names = schema.spec_queries().unwrap();
    assert forall|name: Seq<char>| responses.keys().contains(name) <==> names.contains(name) by {
        assert(responses.keys().to_set().contains(name) <==> names.to_set().contains(name));
    }
    lemma_ascending_unique(derived, responses.keys());
}

/// A schema with an object alternative that requires no property, or more
/// than one, is refused as invalid, whatever names are declared.
pub proof fn lemma_ambiguous_object_refused(
    schema: QuerySchema,
    i: int,
    declared: Seq<Seq<char>>,
    r: Result<(), IntegrityError>,
)
    requires
        0 <= i < schema.alternatives().len(),
        schema.alternatives()[i].spec_shape() == Shape::Object,
        schema.alternatives()[i].required matches Some(required) ==> required@.len() != 1,
        verdict(schema, declared, r),
    ensures
        r == Err::<(), IntegrityError>(IntegrityError::InvalidQueryMsgSchema),
{
    lemma_names_of_malformed(schema.alternatives(), i);
}

} // verus!
