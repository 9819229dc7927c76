//! The output script that an address stands for, and the kind of a script.

use crate::address::{payload_len, AddressKind};
use crate::bytes::append;
use vstd::prelude::*;

verus! {

/// The kinds of script that addresses stand for.
#[derive(Clone, Copy, PartialEq, Eq, Debug, Structural)]
pub enum ScriptType {
    P2pkh,
    P2sh,
    P2wpkh,
    P2wsh,
    P2tr,
    Unknown,
}

/// The script of an address kind with its payload.
pub open spec fn spec_script_pubkey(kind: AddressKind, payload: Seq<u8>) -> Seq<u8> {
    match kind {
        AddressKind::P2pkh => seq![0x76u8, 0xa9u8, 0x14u8] + payload + seq![0x88u8, 0xacu8],
        AddressKind::P2sh => seq![0xa9u8, 0x14u8] + payload + seq![0x87u8],
        AddressKind::P2wpkh => seq![0x00u8, 0x14u8] + payload,
        AddressKind::P2wsh => seq![0x00u8, 0x20u8] + payload,
        AddressKind::P2tr => seq![0x51u8, 0x20u8] + payload,
    }
}

/// The kind of a script, told by its length and its fixed bytes.
pub open spec fn spec_script_type(script: Seq<u8>) -> ScriptType {
    if script.len() == 25 && script[0] == 0x76 && script[1] == 0xa9 && script[2] == 0x14
        && script[23] == 0x88 && script[24] == 0xac {
        ScriptType::P2pkh
    } else if script.len() == 23 && script[0] == 0xa9 && script[1] == 0x14 && script[22] == 0x87 {
        ScriptType::P2sh
    } else if script.len() == 22 && script[0] == 0x00 && script[1] == 0x14 {
        ScriptType::P2wpkh
    } else if script.len() == 34 && script[0] == 0x00 && script[1] == 0x20 {
        ScriptType::P2wsh
    } else if script.len() == 34 && script[0] == 0x51 && script[1] == 0x20 {
        ScriptType::P2tr
    } else {
        ScriptType::Unknown
    }
}

/// The script type that belongs to an address kind.
pub open spec fn kind_script_type(kind: AddressKind) -> ScriptType {
    match kind {
        AddressKind::P2pkh => ScriptType::P2pkh,
        AddressKind::P2sh => ScriptType::P2sh,
        AddressKind::P2wpkh => ScriptType::P2wpkh,
        AddressKind::P2wsh => ScriptType::P2wsh,
        AddressKind::P2tr => ScriptType::P2tr,
    }
}

/// The script of an address is of the type of the address.
pub proof fn lemma_script_type_of_address(kind: AddressKind, payload: Seq<u8>)
    requires
        payload.len() == payload_len(kind),
    ensures
        spec_script_type(spec_script_pubkey(kind, payload)) == kind_script_type(kind),
{
}

/// The script of an address kind with its payload.
pub fn script_pubkey(kind: AddressKind, payload: &[u8]) -> (script: Vec<u8>)
    ensures
        script@ == spec_script_pubkey(kind, payload@),
{
    let mut script: Vec<u8> = Vec::new();
    match kind {
        AddressKind::P2pkh => {
            script.push(0x76);
            script.push(0xa9);
            script.push(0x14);
            append(&mut script, payload);
            script.push(0x88);
            script.push(0xac);
        },
        AddressKind::P2sh => {
            script.push(0xa9);
            script.push(0x14);
            append(&mut script, payload);
            script.push(0x87);
        },
        AddressKind::P2wpkh => {
            script.push(0x00);
            script.push(0x14);
            append(&mut script, payload);
        },
        AddressKind::P2wsh => {
            script.push(0x00);
            script.push(0x20);
            append(&mut script, payload);
        },
        AddressKind::P2tr => {
            script.push(0x51);
            script.push(0x20);
            append(&mut script, payload);
        },
    }
    assert(script@ =~= spec_script_pubkey(kind, payload@));
    script
}

/// The kind of a script.
pub fn script_type(script: &[u8]) -> (kind: ScriptType)
    ensures
        kind == spec_script_type(script@),
{
    let len = script.len();
    if len == 25 && script[0] == 0x76 && script[1] == 0xa9 && script[2] == 0x14 && script[23]
        == 0x88 && script[24] == 0xac {
        ScriptType::P2pkh
    } else if len == 23 && script[0] == 0xa9 && script[1] == 0x14 && script[22] == 0x87 {
        ScriptType::P2sh
    } else if len == 22 && script[0] == 0x00 && script[1] == 0x14 {
        ScriptType::P2wpkh
    } else if len == 34 && script[0] == 0x00 && script[1] == 0x20 {
        ScriptType::P2wsh
    } else if len == 34 && script[0] == 0x51 && script[1] == 0x20 {
        ScriptType::P2tr
    } else {
        ScriptType::Unknown
    }
}

} // verus!
