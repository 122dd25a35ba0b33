//! The [`Mask`] type: a piece of command text kept in three forms — the
//! original, the masked text, and the components the placeholders stand for.

use vstd::prelude::*;
use vstd::string::StringExecFns;

use crate::masking::{deserialize, mask_spec, serialize, unmask_spec};
use crate::text::{chars_of, string_of};

verus! {

/// A command text with its quoted runs and raw-body fences masked out.
#[derive(Debug, Clone)]
pub struct Mask {
    masked: String,
    raw: String,
    components: Vec<String>,
}

impl Mask {
    /// The original text.
    pub closed spec fn raw_spec(&self) -> Seq<char> {
        self.raw@
    }

    /// The masked text, with `|#i|` placeholders.
    pub closed spec fn masked_spec(&self) -> Seq<char> {
        self.masked@
    }

    /// The masked-out components, in placeholder order.
    pub closed spec fn components_spec(&self) -> Seq<Seq<char>> {
        self.components.deep_view()
    }

    /// The masked text and components are exactly the masking of the
    /// original text.
    pub open spec fn wf(&self) -> bool {
        self.masked_spec() == mask_spec(self.raw_spec(), 0, 0).0 && self.components_spec()
            == mask_spec(self.raw_spec(), 0, 0).1
    }

    /// Masks `raw`.
    pub fn new(raw: String) -> (r: Self)
        ensures
            r.wf(),
            r.raw_spec() == raw@,
    {
        let (masked, components) = serialize(raw.clone());
        Mask { raw, masked, components }
    }

    /// Builds the mask of a part of `from_mask`'s masked text: the part is
    /// unmasked with `from_mask`'s components, then masked afresh.
    pub fn derive(value: String, from_mask: &Mask) -> (r: Self)
        ensures
            r.wf(),
            r.raw_spec() == unmask_spec(value@, from_mask.components_spec(), 0),
    {
        let raw = from_mask.unmask_part(value);
        let (masked, components) = serialize(raw.clone());
        Mask { raw, masked, components }
    }

    /// Builds a mask directly from its three parts; used for parts of an
    /// already-masked text, whose placeholders keep the numbering of the
    /// whole.
    pub(crate) fn from_parts(raw: String, masked: String, components: Vec<String>) -> (r: Self)
        ensures
            r.raw_spec() == raw@,
            r.masked_spec() == masked@,
            r.components_spec() == components.deep_view(),
    {
        Mask { raw, masked, components }
    }

    /// The components, in placeholder order.
    pub fn components_list(self: &Self) -> (r: Vec<String>)
        ensures
            r.deep_view() == self.components_spec(),
    {
        crate::masking::clone_strings(&self.components)
    }

    /// The masked text.
    pub fn masked(self: &Self) -> (r: String)
        ensures
            r@ == self.masked_spec(),
    {
        self.masked.clone()
    }

    /// The original text.
    pub fn unmasked(self: &Self) -> (r: String)
        ensures
            r@ == self.raw_spec(),
    {
        self.raw.clone()
    }

    /// Unmasks `part` with this mask's components.
    pub fn unmask_part(self: &Self, part: String) -> (r: String)
        ensures
            r@ == unmask_spec(part@, self.components_spec(), 0),
    {
        deserialize(part, &self.components)
    }

    /// Replaces the text and masks it anew.
    pub fn assign(self: &mut Self, value: String)
        ensures
            final(self).wf(),
            final(self).raw_spec() == value@,
    {
        self.raw = value;
        self.refresh_mask();
    }

    /// Appends one character to the text and masks it anew.
    pub fn push(self: &mut Self, c: char)
        ensures
            final(self).wf(),
            final(self).raw_spec() == old(self).raw_spec().push(c),
    {
        let mut chars = chars_of(self.raw.as_str());
        chars.push(c);
        self.raw = string_of(&chars);
        self.refresh_mask();
    }

    /// Appends text and masks the whole anew.
    pub fn push_str(self: &mut Self, s: &str)
        ensures
            final(self).wf(),
            final(self).raw_spec() == old(self).raw_spec() + s@,
    {
        self.raw.append(s);
        self.refresh_mask();
    }

    fn refresh_mask(self: &mut Self)
        ensures
            final(self).wf(),
            final(self).raw_spec() == old(self).raw_spec(),
    {
        let (masked, components) = serialize(self.raw.clone());
        self.masked = masked;
        self.components = components;
    }
}

} // verus!
