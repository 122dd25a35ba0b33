//! The [`Serialized`] type: a node's command text kept together with its
//! masked form and components, so parts of it can be unmasked later.

use vstd::prelude::*;

use crate::masking::{deserialize, mask_spec, serialize, unmask_spec};

verus! {

/// A command text and its masking, kept by each request node.
#[derive(Debug, Clone)]
pub struct Serialized {
    serialized: String,
    raw: String,
    components: Vec<String>,
}

impl Serialized {
    /// The original text.
    pub closed spec fn raw_spec(&self) -> Seq<char> {
        self.raw@
    }

    /// The masked text.
    pub closed spec fn serialized_spec(&self) -> Seq<char> {
        self.serialized@
    }

    /// The masked-out components, in placeholder order.
    pub closed spec fn components_spec(&self) -> Seq<Seq<char>> {
        self.components.deep_view()
    }

    /// The masked text and components are exactly the masking of the
    /// original text.
    pub open spec fn wf(&self) -> bool {
        self.serialized_spec() == mask_spec(self.raw_spec(), 0, 0).0 && self.components_spec()
            == mask_spec(self.raw_spec(), 0, 0).1
    }

    /// Masks `raw`.
    pub fn new(raw: String) -> (r: Self)
        ensures
            r.wf(),
            r.raw_spec() == raw@,
    {
        let (serialized, components) = serialize(raw.clone());
        Serialized { raw, serialized, components }
    }

    /// The masked text.
    pub fn serialized(self: &Self) -> (r: String)
        ensures
            r@ == self.serialized_spec(),
    {
        self.serialized.clone()
    }

    /// The original text.
    pub fn deserialized(self: &Self) -> (r: String)
        ensures
            r@ == self.raw_spec(),
    {
        self.raw.clone()
    }

    /// Unmasks `part` with this text's components.
    pub fn deserialize_part(self: &Self, part: String) -> (r: String)
        ensures
            r@ == unmask_spec(part@, self.components_spec(), 0),
    {
        deserialize(part, &self.components)
    }
}

} // verus!
