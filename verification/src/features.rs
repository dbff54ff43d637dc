//! Protocol revisions and the rules they switch on.
use vstd::prelude::*;

verus! {

/// A rule of the protocol that some revisions have and others do not.
#[derive(Clone, Copy, PartialEq, Eq, Structural, Debug)]
pub enum EvmFeature {
    /// EIP-161: contracts start at nonce one and touched dead accounts are deleted.
    EIP161,
    /// EIP-8246: a self-destructed account that still holds balance keeps it.
    EIP8246,
}

/// The set of rules in force.
#[derive(Clone, Copy, PartialEq, Eq, Structural, Debug)]
pub struct EvmFeatures {
    pub eip161: bool,
    pub eip8246: bool,
}

impl EvmFeatures {
    /// No rule in force.
    pub fn empty() -> (r: Self)
        ensures
            forall|feature: EvmFeature| !r.spec_contains(feature),
    {
        EvmFeatures { eip161: false, eip8246: false }
    }

    /// Whether `feature` is in force.
    pub open spec fn spec_contains(self, feature: EvmFeature) -> bool {
        match feature {
            EvmFeature::EIP161 => self.eip161,
            EvmFeature::EIP8246 => self.eip8246,
        }
    }

    /// Whether `feature` is in force.
    #[verifier::when_used_as_spec(spec_contains)]
    pub fn contains(self, feature: EvmFeature) -> (r: bool)
        ensures
            r == self.spec_contains(feature),
    {
        match feature {
            EvmFeature::EIP161 => self.eip161,
            EvmFeature::EIP8246 => self.eip8246,
        }
    }
}

/// The revisions of the protocol, oldest first.
#[allow(non_camel_case_types)]
#[derive(Clone, Copy, PartialEq, Eq, Structural, Debug)]
pub enum SpecId {
    FRONTIER,
    HOMESTEAD,
    TANGERINE,
    SPURIOUS_DRAGON,
    BYZANTIUM,
    PETERSBURG,
    ISTANBUL,
    BERLIN,
    LONDON,
    MERGE,
    SHANGHAI,
    CANCUN,
    PRAGUE,
    OSAKA,
    AMSTERDAM,
}

/// A revision together with its rules.
#[derive(Clone, Copy, PartialEq, Eq, Structural, Debug)]
pub struct Version {
    pub spec: SpecId,
    pub features: EvmFeatures,
}

impl Version {
    /// The rules that `spec` has: EIP-161 from Spurious Dragon on, EIP-8246 from Amsterdam on.
    pub open spec fn spec_base(spec: SpecId) -> Self {
        Version {
            spec,
            features: EvmFeatures {
                eip161: !(spec is FRONTIER || spec is HOMESTEAD || spec is TANGERINE),
                eip8246: spec is AMSTERDAM,
            },
        }
    }

    /// The rules that `spec` has: EIP-161 from Spurious Dragon on, EIP-8246 from Amsterdam on.
    pub fn base(spec: SpecId) -> (r: Self)
        ensures
            r == Version::spec_base(spec),
    {
        let eip161 = match spec {
            SpecId::FRONTIER | SpecId::HOMESTEAD | SpecId::TANGERINE => false,
            _ => true,
        };
        let eip8246 = match spec {
            SpecId::AMSTERDAM => true,
            _ => false,
        };
        Version { spec, features: EvmFeatures { eip161, eip8246 } }
    }

    /// Whether `feature` is in force.
    pub fn feature(&self, feature: EvmFeature) -> (r: bool)
        ensures
            r == self.features.spec_contains(feature),
    {
        self.features.contains(feature)
    }
}

/// Why an instruction stops short of the account creation it asked for.
#[derive(Clone, Copy, PartialEq, Eq, Structural, Debug)]
pub enum InstrStop {
    /// The target address already holds a contract.
    CreateCollision,
    /// The caller cannot pay the endowment.
    OutOfFunds,
}

} // verus!
