//! The decisions of the code generator: which id each service gets, and the
//! id that a service or method declares in its protobuf options.
use vstd::prelude::*;
use std::collections::HashSet;
use crate::varint::{decodable, decoded_value};

verus! {

/// The protobuf option tag under which a service declares its id.
pub const SERVICE_ID_TAG: u32 = 50000;

/// The protobuf option tag under which a method declares its id.
pub const METHOD_ID_TAG: u32 = 50001;

/// An option field that protobuf does not know: its tag and raw value.
pub struct UnknownField {
    pub tag: u32,
    pub value: Vec<u8>,
}

/// The index of the first field with tag `tag`.
pub open spec fn first_with_tag(fields: Seq<UnknownField>, tag: u32) -> Option<int>
    decreases fields.len(),
{
    if fields.len() == 0 {
        None
    } else if fields[0].tag == tag {
        Some(0)
    } else {
        match first_with_tag(fields.drop_first(), tag) {
            Some(i) => Some(i + 1),
            None => None,
        }
    }
}

proof fn lemma_first_with_tag(fields: Seq<UnknownField>, tag: u32)
    ensures
        first_with_tag(fields, tag) matches Some(i) ==> 0 <= i < fields.len() && fields[i].tag
            == tag && forall|j: int| 0 <= j < i ==> fields[j].tag != tag,
        first_with_tag(fields, tag) is None ==> forall|j: int|
            0 <= j < fields.len() ==> fields[j].tag != tag,
    decreases fields.len(),
{
    if fields.len() > 0 {
        lemma_first_with_tag(fields.drop_first(), tag);
        if fields[0].tag != tag {
            assert forall|j: int| 1 <= j < fields.len() implies fields[j].tag == fields.drop_first()[j
                - 1].tag by {}
        }
    }
}

/// The first field with tag `tag`, if there is one, holds a value that
/// `varinteger::decode` can read.
pub open spec fn tagged_value_ok(fields: Seq<UnknownField>, tag: u32) -> bool {
    match first_with_tag(fields, tag) {
        Some(i) => decodable(fields[i].value@),
        None => true,
    }
}

/// The id declared under `tag`: what `varinteger::decode` reads from the
/// value of the first field with that tag, if there is one.
pub fn unknown_field_id(fields: &Vec<UnknownField>, tag: u32) -> (r: Option<u64>)
    requires
        tagged_value_ok(fields@, tag),
    ensures
        r == match first_with_tag(fields@, tag) {
            Some(i) => Some(decoded_value(fields@[i].value@)),
            None => None::<u64>,
        },
{
    proof {
        lemma_first_with_tag(fields@, tag);
    }
    let mut i: usize = 0;
    while i < fields.len()
        invariant
            i <= fields@.len(),
            forall|j: int| 0 <= j < i ==> fields@[j].tag != tag,
            tagged_value_ok(fields@, tag),
            first_with_tag(fields@, tag) matches Some(k) ==> 0 <= k < fields@.len() && fields@[k].tag
                == tag && forall|j: int| 0 <= j < k ==> fields@[j].tag != tag,
            first_with_tag(fields@, tag) is None ==> forall|j: int|
                0 <= j < fields@.len() ==> fields@[j].tag != tag,
        decreases fields.len() - i,
    {
        let field = &fields[i];
        if field.tag == tag {
            let mut id: u64 = 0;
            varinteger::decode(field.value.as_slice(), &mut id);
            return Some(id);
        }
        i += 1;
    }
    None
}

/// Two services would have the same id.
#[derive(Debug, Clone, Copy, PartialEq, Eq, Structural)]
pub struct DuplicateServiceId(pub u64);

/// Hands out service ids: a declared id as it is, else the next number of a
/// counter; never the same id twice.
pub struct ServiceIds {
    counter: u64,
    ids: HashSet<u64>,
}

impl ServiceIds {
    /// The last number the counter gave.
    pub closed spec fn counter(&self) -> u64 {
        self.counter
    }

    /// The ids given so far.
    pub closed spec fn ids(&self) -> Set<u64> {
        self.ids@
    }

    /// The last number the counter gave.
    pub fn last_counted(&self) -> (r: u64)
        ensures
            r == self.counter(),
    {
        self.counter
    }

    pub fn new() -> (r: Self)
        ensures
            r.counter() == 0,
            r.ids() == Set::<u64>::empty(),
    {
        Self { counter: 0, ids: HashSet::new() }
    }

    /// The id of the next service: its declared id, or else the counter's
    /// next number; refused when an earlier service has it.
    pub fn assign(&mut self, declared: Option<u64>) -> (r: Result<u64, DuplicateServiceId>)
        requires
            declared is None ==> old(self).counter() < u64::MAX,
        ensures
            ({
                let id = match declared {
                    Some(id) => id,
                    None => (old(self).counter() + 1) as u64,
                };
                &&& final(self).counter() == match declared {
                    Some(_) => old(self).counter(),
                    None => id,
                }
                &&& old(self).ids().contains(id) ==> r == Err::<u64, DuplicateServiceId>(
                    DuplicateServiceId(id),
                ) && final(self).ids() == old(self).ids()
                &&& !old(self).ids().contains(id) ==> r == Ok::<u64, DuplicateServiceId>(id)
                    && final(self).ids() == old(self).ids().insert(id)
            }),
    {
        let service_id = if let Some(id) = declared {
            id
        } else {
            self.counter += 1;
            self.counter
        };
        if self.ids.contains(&service_id) {
            return Err(DuplicateServiceId(service_id));
        }
        self.ids.insert(service_id);
        Ok(service_id)
    }
}

} // verus!
