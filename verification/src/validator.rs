//! Validation of an address text: what it says, in the words in which a
//! wallet shows it, or why it is no address.

use crate::address::{
    decode, lemma_changed_segwit_text_is_rejected, payload_len, shape_marker, spec_decode,
    spec_shape, AddressDescriptor, AddressError, AddressKind, DescriptorView, Network,
};
use crate::error::{spec_category, Category, Failure, FailureView, WalletError};
use crate::hexadecimal::{hex_encode, spec_hex_encode};
use crate::script::{
    script_pubkey, script_type, spec_script_pubkey, spec_script_type, ScriptType,
};
use vstd::prelude::*;

verus! {

/// The name of an address kind.
pub open spec fn spec_type_name(kind: AddressKind) -> Seq<char> {
    match kind {
        AddressKind::P2pkh => "P2PKH (Pay-to-PubKey-Hash)"@,
        AddressKind::P2sh => "P2SH (Pay-to-Script-Hash)"@,
        AddressKind::P2wpkh => "P2WPKH (Pay-to-Witness-PubKey-Hash)"@,
        AddressKind::P2wsh => "P2WSH (Pay-to-Witness-Script-Hash)"@,
        AddressKind::P2tr => "P2TR (Pay-to-Taproot)"@,
    }
}

/// What an address kind is, in a line.
pub open spec fn spec_type_description(kind: AddressKind) -> Seq<char> {
    match kind {
        AddressKind::P2pkh => "Legacy address format, most compatible"@,
        AddressKind::P2sh => "Can contain any script, often used for multisig"@,
        AddressKind::P2wpkh => "Native SegWit, lower fees"@,
        AddressKind::P2wsh => "Native SegWit for scripts"@,
        AddressKind::P2tr => "Taproot, most advanced privacy and efficiency"@,
    }
}

/// The label of a network.
pub open spec fn spec_network_label(network: Network) -> Seq<char> {
    match network {
        Network::Mainnet => "Mainnet (Production)"@,
        Network::Testnet => "Testnet (Testing)"@,
        Network::Regtest => "Regtest (Local)"@,
    }
}

/// The label of a script type.
pub open spec fn spec_script_label(kind: ScriptType) -> Seq<char> {
    match kind {
        ScriptType::P2pkh => "P2PKH"@,
        ScriptType::P2sh => "P2SH"@,
        ScriptType::P2wpkh => "P2WPKH (SegWit)"@,
        ScriptType::P2wsh => "P2WSH (SegWit)"@,
        ScriptType::P2tr => "P2TR (Taproot)"@,
        ScriptType::Unknown => "Unknown"@,
    }
}

/// The name of an address kind and what it is, in a line.
pub fn get_address_type(kind: AddressKind) -> (words: (&'static str, &'static str))
    ensures
        words.0@ == spec_type_name(kind),
        words.1@ == spec_type_description(kind),
{
    match kind {
        AddressKind::P2pkh => (
            "P2PKH (Pay-to-PubKey-Hash)",
            "Legacy address format, most compatible",
        ),
        AddressKind::P2sh => (
            "P2SH (Pay-to-Script-Hash)",
            "Can contain any script, often used for multisig",
        ),
        AddressKind::P2wpkh => ("P2WPKH (Pay-to-Witness-PubKey-Hash)", "Native SegWit, lower fees"),
        AddressKind::P2wsh => ("P2WSH (Pay-to-Witness-Script-Hash)", "Native SegWit for scripts"),
        AddressKind::P2tr => (
            "P2TR (Pay-to-Taproot)",
            "Taproot, most advanced privacy and efficiency",
        ),
    }
}

/// The label of a network.
pub fn get_network_display(network: Network) -> (label: &'static str)
    ensures
        label@ == spec_network_label(network),
{
    match network {
        Network::Mainnet => "Mainnet (Production)",
        Network::Testnet => "Testnet (Testing)",
        Network::Regtest => "Regtest (Local)",
    }
}

/// The label of the type of a script.
pub fn get_script_type_display(script: &[u8]) -> (label: &'static str)
    ensures
        label@ == spec_script_label(spec_script_type(script@)),
{
    match script_type(script) {
        ScriptType::P2pkh => "P2PKH",
        ScriptType::P2sh => "P2SH",
        ScriptType::P2wpkh => "P2WPKH (SegWit)",
        ScriptType::P2wsh => "P2WSH (SegWit)",
        ScriptType::P2tr => "P2TR (Taproot)",
        ScriptType::Unknown => "Unknown",
    }
}

/// What a valid address says, as a mathematical value.
pub struct FactsView {
    pub descriptor: DescriptorView,
    pub kind_name: Seq<char>,
    pub description: Seq<char>,
    pub network_label: Seq<char>,
    pub script: Seq<u8>,
    pub script_hex: Seq<char>,
    pub script_label: Seq<char>,
}

/// What a valid address says: the descriptor, the names of its kind and
/// network, and the script that it stands for.
#[derive(Debug)]
pub struct AddressFacts {
    pub descriptor: AddressDescriptor,
    pub kind_name: String,
    pub description: String,
    pub network_label: String,
    pub script: Vec<u8>,
    pub script_hex: String,
    pub script_label: String,
}

impl View for AddressFacts {
    type V = FactsView;

    open spec fn view(&self) -> FactsView {
        FactsView {
            descriptor: self.descriptor@,
            kind_name: self.kind_name@,
            description: self.description@,
            network_label: self.network_label@,
            script: self.script@,
            script_hex: self.script_hex@,
            script_label: self.script_label@,
        }
    }
}

/// The facts that belong to a descriptor.
pub open spec fn spec_facts(descriptor: DescriptorView) -> FactsView {
    let script = spec_script_pubkey(descriptor.kind, descriptor.payload);
    FactsView {
        descriptor,
        kind_name: spec_type_name(descriptor.kind),
        description: spec_type_description(descriptor.kind),
        network_label: spec_network_label(descriptor.network),
        script,
        script_hex: spec_hex_encode(script),
        script_label: spec_script_label(spec_script_type(script)),
    }
}

/// The outcome of a validation.
#[derive(Debug)]
pub enum ValidationReport {
    /// The text is an address, and this is what it says.
    Valid(AddressFacts),
    /// The text is no address, for this reason.
    Invalid(Failure),
}

/// The outcome of a validation as a mathematical value.
pub open spec fn spec_validate(text: Seq<char>) -> Result<FactsView, FailureView> {
    match spec_decode(text) {
        Ok(descriptor) => Ok(spec_facts(descriptor)),
        Err(error) => Err(FailureView { error: WalletError::Address(error), input: text }),
    }
}

/// A SegWit address with one character changed, behind the version
/// character, is reported as no address, with the changed text and a
/// failure of the checksum or of the format.
pub proof fn lemma_changed_segwit_text_is_reported(good: Seq<char>, bad: Seq<char>, at: int)
    requires
        spec_shape(good) is Some,
        spec_validate(good) is Ok,
        good.len() == bad.len(),
        shape_marker(good).len() < at < good.len(),
        good[at] != bad[at],
        forall|j: int| 0 <= j < good.len() && j != at ==> good[j] == bad[j],
    ensures
        spec_validate(bad) matches Err(failure) && failure.input == bad && (spec_category(
            failure.error,
        ) == Category::ChecksumFailure || spec_category(failure.error)
            == Category::FormatUnrecognized),
{
    lemma_changed_segwit_text_is_rejected(good, bad, at);
}

/// The facts of a descriptor.
pub fn address_facts(descriptor: AddressDescriptor) -> (facts: AddressFacts)
    ensures
        facts@ == spec_facts(descriptor@),
{
    let words = get_address_type(descriptor.kind());
    let script = script_pubkey(descriptor.kind(), descriptor.payload());
    let script_hex = hex_encode(script.as_slice());
    let script_label = get_script_type_display(script.as_slice());
    let network_label = get_network_display(descriptor.network());
    AddressFacts {
        descriptor,
        kind_name: words.0.to_owned(),
        description: words.1.to_owned(),
        network_label: network_label.to_owned(),
        script,
        script_hex,
        script_label: script_label.to_owned(),
    }
}

impl ValidationReport {
    pub fn is_valid(&self) -> (yes: bool)
        ensures
            yes == (self is Valid),
    {
        match self {
            ValidationReport::Valid(_) => true,
            ValidationReport::Invalid(_) => false,
        }
    }
}

/// Validates an address text. The validation itself always comes to an
/// end with a report: a text that is no address is a finding.
pub fn validate_address(address_str: &str) -> (result: Result<ValidationReport, Failure>)
    ensures
        match (result, spec_validate(address_str@)) {
            (Ok(ValidationReport::Valid(facts)), Ok(want)) => facts@ == want,
            (Ok(ValidationReport::Invalid(failure)), Err(want)) => failure@ == want,
            _ => false,
        },
{
    match decode(address_str) {
        Ok(descriptor) => Ok(ValidationReport::Valid(address_facts(descriptor))),
        Err(error) => Ok(
            ValidationReport::Invalid(Failure::new(WalletError::Address(error), address_str)),
        ),
    }
}

} // verus!
