//! The classification of a province.

use vstd::prelude::*;
use crate::ascii::{ascii_lowercase, str_eq, to_ascii_lowercase};
use crate::error::DecodeError;

verus! {

/// What a province is: one of a closed set, listed from least to greatest.
#[derive(Debug, Copy, Clone, PartialEq, Eq, PartialOrd, Ord, Hash, Structural)]
pub enum DefinitionKind {
    Land,
    Sea,
    Lake,
}

impl DefinitionKind {
    /// The lowercase label under which the kind is written.
    pub open spec fn label(self) -> Seq<char> {
        match self {
            DefinitionKind::Land => seq!['l', 'a', 'n', 'd'],
            DefinitionKind::Sea => seq!['s', 'e', 'a'],
            DefinitionKind::Lake => seq!['l', 'a', 'k', 'e'],
        }
    }

    /// The kind's place in the order of declaration.
    pub open spec fn rank(self) -> int {
        match self {
            DefinitionKind::Land => 0,
            DefinitionKind::Sea => 1,
            DefinitionKind::Lake => 2,
        }
    }

    /// The kind that is written exactly as `label`, if there is one.
    pub open spec fn with_label(label: Seq<char>) -> Option<DefinitionKind> {
        if label == DefinitionKind::Land.label() {
            Some(DefinitionKind::Land)
        } else if label == DefinitionKind::Sea.label() {
            Some(DefinitionKind::Sea)
        } else if label == DefinitionKind::Lake.label() {
            Some(DefinitionKind::Lake)
        } else {
            None
        }
    }

    /// What a token decodes to: the kind whose label it is once lowercased
    /// within ASCII, and the dedicated error for every other token.
    pub open spec fn decode(token: Seq<char>) -> Result<DefinitionKind, DecodeError> {
        match DefinitionKind::with_label(ascii_lowercase(token)) {
            Some(kind) => Ok(kind),
            None => Err(DecodeError::InvalidClassification),
        }
    }

    /// The kind's label.
    pub fn to_str(self) -> (s: &'static str)
        ensures
            s@ == self.label(),
    {
        <&'static str>::from(self)
    }

    /// Reads a kind from its label, whatever the case of its ASCII letters.
    pub fn from_str(s: &str) -> (r: Result<DefinitionKind, DecodeError>)
        ensures
            r == DefinitionKind::decode(s@),
    {
        let lowered = to_ascii_lowercase(s);
        if str_eq(lowered.as_str(), DefinitionKind::Land.to_str()) {
            Ok(DefinitionKind::Land)
        } else if str_eq(lowered.as_str(), DefinitionKind::Sea.to_str()) {
            Ok(DefinitionKind::Sea)
        } else if str_eq(lowered.as_str(), DefinitionKind::Lake.to_str()) {
            Ok(DefinitionKind::Lake)
        } else {
            Err(DecodeError::InvalidClassification)
        }
    }

    /// The place of the kind in the order of declaration, as a number.
    pub fn ordinal(self) -> (r: u8)
        ensures
            r == self.rank(),
    {
        match self {
            DefinitionKind::Land => 0,
            DefinitionKind::Sea => 1,
            DefinitionKind::Lake => 2,
        }
    }
}

impl TryFrom<String> for DefinitionKind {
    type Error = DecodeError;

    fn try_from(label: String) -> (r: Result<DefinitionKind, DecodeError>) {
        DefinitionKind::from_str(label.as_str())
    }
}

impl vstd::std_specs::convert::TryFromSpecImpl<String> for DefinitionKind {
    open spec fn obeys_try_from_spec() -> bool {
        true
    }

    open spec fn try_from_spec(label: String) -> Result<DefinitionKind, DecodeError> {
        DefinitionKind::decode(label@)
    }
}

impl From<DefinitionKind> for &'static str {
    fn from(kind: DefinitionKind) -> (label: &'static str)
        ensures
            label@ == kind.label(),
    {
        proof {
            reveal_strlit("land");
            reveal_strlit("sea");
            reveal_strlit("lake");
            assert("land"@ =~= DefinitionKind::Land.label());
            assert("sea"@ =~= DefinitionKind::Sea.label());
            assert("lake"@ =~= DefinitionKind::Lake.label());
        }
        match kind {
            DefinitionKind::Land => "land",
            DefinitionKind::Sea => "sea",
            DefinitionKind::Lake => "lake",
        }
    }
}

impl vstd::std_specs::convert::FromSpecImpl<DefinitionKind> for &'static str {
    open spec fn obeys_from_spec() -> bool {
        true
    }

    open spec fn from_spec(kind: DefinitionKind) -> &'static str {
        match kind {
            DefinitionKind::Land => "land",
            DefinitionKind::Sea => "sea",
            DefinitionKind::Lake => "lake",
        }
    }
}

/// Every kind is found again under its own label, also through decoding:
/// the labels differ from one another and are already lowercase.
pub proof fn lemma_label_decodes(kind: DefinitionKind)
    ensures
        DefinitionKind::with_label(kind.label()) == Some(kind),
        DefinitionKind::decode(kind.label()) == Ok::<DefinitionKind, DecodeError>(kind),
{
    assert(ascii_lowercase(kind.label()) =~= kind.label());
    assert(DefinitionKind::Land.label()[0] != DefinitionKind::Sea.label()[0]);
    assert(DefinitionKind::Land.label()[2] != DefinitionKind::Lake.label()[2]);
    assert(DefinitionKind::Sea.label()[0] != DefinitionKind::Lake.label()[0]);
}

/// Two tokens that differ only in the case of their ASCII letters decode
/// alike.
pub proof fn lemma_kind_ignores_case(a: Seq<char>, b: Seq<char>)
    requires
        ascii_lowercase(a) == ascii_lowercase(b),
    ensures
        DefinitionKind::decode(a) == DefinitionKind::decode(b),
{
}

} // verus!
