//! Distribution point names.
use crate::name::general::{
    all_names_well_formed, general_name_views, lemma_names_round_trip, name_tlvs,
    names_of_content, read_names, write_names, GeneralName, GeneralNameRefs,
};
use crate::tlv::{encode_all, encode_one, write_tlv, Tlv, MAX_LENGTH};
use vstd::prelude::*;
use vstd::slice::slice_to_vec;

verus! {

/// The tag of the `fullName` of a distribution point.
pub const TAG_FULL_NAME: u8 = 0xa0;

/// The tag of the `nameRelativeToCRLIssuer` of a distribution point.
pub const TAG_RELATIVE_NAME: u8 = 0xa1;

/// A distribution point name as a mathematical value: a list of general
/// names, or the content of one relative distinguished name.
pub enum DistributionPointName {
    FullName(Seq<GeneralName>),
    NameRelativeToCRLIssuer(Seq<u8>),
}

impl DistributionPointName {
    /// The element that encodes the name.
    pub open spec fn to_tlv(self) -> Tlv {
        match self {
            DistributionPointName::FullName(names) => Tlv {
                tag: TAG_FULL_NAME,
                content: encode_all(name_tlvs(names)),
            },
            DistributionPointName::NameRelativeToCRLIssuer(rdn) => Tlv {
                tag: TAG_RELATIVE_NAME,
                content: rdn,
            },
        }
    }

    /// The name that an element encodes.
    pub open spec fn from_tlv(t: Tlv) -> Option<DistributionPointName> {
        if t.tag == TAG_FULL_NAME {
            match names_of_content(t.content) {
                Some(names) => Some(DistributionPointName::FullName(names)),
                None => None,
            }
        } else if t.tag == TAG_RELATIVE_NAME {
            Some(DistributionPointName::NameRelativeToCRLIssuer(t.content))
        } else {
            None
        }
    }

    /// Whether the name is one that an encoding can give: its general
    /// names are well formed, and its content is within `MAX_LENGTH`.
    pub open spec fn well_formed(self) -> bool {
        &&& self matches DistributionPointName::FullName(names) ==> all_names_well_formed(names)
        &&& self.to_tlv().content.len() <= MAX_LENGTH
    }

    /// A well-formed name is read back from the element that encodes it.
    pub proof fn lemma_from_tlv_to_tlv(self)
        requires
            self.well_formed(),
        ensures
            DistributionPointName::from_tlv(self.to_tlv()) == Some(self),
    {
        match self {
            DistributionPointName::FullName(names) => {
                lemma_names_round_trip(names);
            },
            _ => {},
        }
    }
}

/// A distribution point name whose general names are borrowed from the
/// encoding that it was read from. A relative name is held by value.
#[derive(Clone, Debug)]
pub enum DistributionPointNameRef<'a> {
    FullName(GeneralNameRefs<'a>),
    NameRelativeToCRLIssuer(Vec<u8>),
}

impl<'a> View for DistributionPointNameRef<'a> {
    type V = DistributionPointName;

    open spec fn view(&self) -> DistributionPointName {
        match self {
            DistributionPointNameRef::FullName(names) => DistributionPointName::FullName(
                general_name_views(names@),
            ),
            DistributionPointNameRef::NameRelativeToCRLIssuer(rdn) => {
                DistributionPointName::NameRelativeToCRLIssuer(rdn@)
            },
        }
    }
}

impl<'a> DistributionPointNameRef<'a> {
    /// Reads a distribution point name from the tag and content of its
    /// element.
    pub fn from_tlv(tag: u8, content: &'a [u8]) -> (r: Option<DistributionPointNameRef<'a>>)
        ensures
            match r {
                Some(name) => DistributionPointName::from_tlv(Tlv { tag, content: content@ })
                    == Some(name@),
                None => DistributionPointName::from_tlv(Tlv { tag, content: content@ }) is None,
            },
    {
        if tag == TAG_FULL_NAME {
            match read_names(content) {
                Some(names) => Some(DistributionPointNameRef::FullName(names)),
                None => None,
            }
        } else if tag == TAG_RELATIVE_NAME {
            Some(DistributionPointNameRef::NameRelativeToCRLIssuer(slice_to_vec(content)))
        } else {
            None
        }
    }

    /// The encoding of the name. `None` where the name is not well formed.
    pub fn to_der(&self) -> (r: Option<Vec<u8>>)
        ensures
            match r {
                Some(out) => out@ == encode_one(self@.to_tlv()) && self@.well_formed(),
                None => !self@.well_formed(),
            },
    {
        let mut out: Vec<u8> = Vec::new();
        let done = match self {
            DistributionPointNameRef::FullName(names) => {
                match write_names(names.as_slice()) {
                    Some(content) => write_tlv(&mut out, TAG_FULL_NAME, content.as_slice()),
                    None => false,
                }
            },
            DistributionPointNameRef::NameRelativeToCRLIssuer(rdn) => write_tlv(
                &mut out,
                TAG_RELATIVE_NAME,
                rdn.as_slice(),
            ),
        };
        if done {
            assert(out@ =~= encode_one(self@.to_tlv()));
            Some(out)
        } else {
            None
        }
    }
}

} // verus!
