//! The names under which the history of the ledger's mappings is kept: the
//! history directory of a network, the directory of a block in it, and the
//! file of a mapping at that block.

use crate::text::{
    all_ascii,
    ascii,
    chars_of,
    decimal,
    lemma_decimal,
    push_decimal,
    push_str,
    string_from_ascii,
};
use vstd::prelude::*;
use vstd::string::StringExecFns;

verus! {

/// The mappings whose history is kept.
#[derive(Clone, Copy, Debug, PartialEq, Eq, Structural)]
pub enum MappingName {
    /// The `bonded` mapping.
    Bonded,
    /// The `delegated` mapping.
    Delegated,
    /// The `unbonding` mapping.
    Unbonding,
}

impl MappingName {
    /// The name of the mapping, in lower case.
    pub open spec fn name(self) -> Seq<char> {
        match self {
            MappingName::Bonded => "bonded"@,
            MappingName::Delegated => "delegated"@,
            MappingName::Unbonding => "unbonding"@,
        }
    }

    /// The name of the mapping as it is written in file names.
    pub fn to_string(&self) -> (r: String)
        ensures
            r@ == self.name(),
    {
        match self {
            MappingName::Bonded => String::from_str("bonded"),
            MappingName::Delegated => String::from_str("delegated"),
            MappingName::Unbonding => String::from_str("unbonding"),
        }
    }

    /// Appends the name of the mapping.
    fn push_name(&self, out: &mut Vec<u8>)
        ensures
            final(out)@ == old(out)@ + ascii(self.name()),
            all_ascii(ascii(self.name())),
    {
        proof {
            reveal_strlit("bonded");
            reveal_strlit("delegated");
            reveal_strlit("unbonding");
        }
        match self {
            MappingName::Bonded => push_str(out, "bonded"),
            MappingName::Delegated => push_str(out, "delegated"),
            MappingName::Unbonding => push_str(out, "unbonding"),
        }
    }
}

/// How a node keeps its storage.
#[derive(Clone, Debug, PartialEq, Eq)]
pub enum StorageMode {
    /// A node on the main network.
    Production,
    /// A node on a local network, with the number of the node.
    Development(u16),
    /// A node with its storage at a path of its own.
    Custom(String),
}

impl StorageMode {
    /// The number of the development node, where the mode is development.
    pub open spec fn dev_spec(&self) -> Option<u16> {
        match self {
            StorageMode::Production => None,
            StorageMode::Development(id) => Some(*id),
            StorageMode::Custom(_) => None,
        }
    }

    /// The number of the development node, where the mode is development.
    pub fn dev(&self) -> (r: Option<u16>)
        ensures
            r == self.dev_spec(),
    {
        match self {
            StorageMode::Production => None,
            StorageMode::Development(id) => Some(*id),
            StorageMode::Custom(_) => None,
        }
    }
}

/// The name of the history directory of a network: `history-` and the
/// network; for a development node hidden by a leading dot, and followed by
/// `-` and the number of the node.
pub open spec fn history_directory_name_spec(network: u16, dev: Option<u16>) -> Seq<u8> {
    match dev {
        Some(id) => ascii(".history-"@) + decimal(network as nat) + ascii("-"@) + decimal(id as nat),
        None => ascii("history-"@) + decimal(network as nat),
    }
}

/// The name of the directory of the block at `height`: `block-` and the
/// height.
pub open spec fn block_directory_name_spec(height: u32) -> Seq<u8> {
    ascii("block-"@) + decimal(height as nat)
}

/// The name of the file of a mapping at the block at `height`: `block-`, the
/// height, `-`, the mapping, `.json`.
pub open spec fn mapping_file_name_spec(height: u32, mapping: MappingName) -> Seq<u8> {
    ascii("block-"@) + decimal(height as nat) + ascii("-"@) + ascii(mapping.name()) + ascii(
        ".json"@,
    )
}

/// The name of the history directory of `network` for a node in the given
/// storage mode. The directory stands beside the ledger of the node.
pub fn history_directory_name(network: u16, storage_mode: &StorageMode) -> (r: String)
    ensures
        r@ == chars_of(history_directory_name_spec(network, storage_mode.dev_spec())),
{
    let mut out: Vec<u8> = Vec::new();
    proof {
        reveal_strlit(".history-");
        reveal_strlit("history-");
        reveal_strlit("-");
        lemma_decimal(network as nat);
    }
    match storage_mode {
        StorageMode::Development(id) => {
            proof {
                lemma_decimal(*id as nat);
            }
            push_str(&mut out, ".history-");
            push_decimal(&mut out, network as u128);
            push_str(&mut out, "-");
            push_decimal(&mut out, *id as u128);
        },
        StorageMode::Production | StorageMode::Custom(_) => {
            push_str(&mut out, "history-");
            push_decimal(&mut out, network as u128);
        },
    }
    assert(out@ =~= history_directory_name_spec(network, storage_mode.dev_spec()));
    string_from_ascii(out)
}

/// The history of the mappings of one network, as one node keeps it.
///
/// The history holds names only: where the directory stands and what is in
/// the files is for the caller that reads and writes them.
#[derive(Clone, Debug, PartialEq, Eq)]
pub struct History {
    /// The network.
    network: u16,
    /// The storage mode of the node.
    storage_mode: StorageMode,
}

impl History {
    /// The network.
    pub closed spec fn network_spec(&self) -> u16 {
        self.network
    }

    /// The storage mode of the node.
    pub closed spec fn storage_mode_spec(&self) -> StorageMode {
        self.storage_mode
    }

    /// Initializes a new instance of `History`.
    pub fn new(network: u16, storage_mode: StorageMode) -> (r: Self)
        ensures
            r.network_spec() == network,
            r.storage_mode_spec() == storage_mode,
    {
        Self { network, storage_mode }
    }

    /// The network.
    pub fn network(&self) -> (r: u16)
        ensures
            r == self.network_spec(),
    {
        self.network
    }

    /// The storage mode of the node.
    pub fn storage_mode(&self) -> (r: &StorageMode)
        ensures
            *r == self.storage_mode_spec(),
    {
        &self.storage_mode
    }

    /// The name of the history directory.
    pub fn directory_name(&self) -> (r: String)
        ensures
            r@ == chars_of(
                history_directory_name_spec(
                    self.network_spec(),
                    self.storage_mode_spec().dev_spec(),
                ),
            ),
    {
        history_directory_name(self.network, &self.storage_mode)
    }

    /// The name of the directory, inside the history directory, of the block
    /// at `height`.
    pub fn block_directory_name(&self, height: u32) -> (r: String)
        ensures
            r@ == chars_of(block_directory_name_spec(height)),
    {
        let mut out: Vec<u8> = Vec::new();
        proof {
            reveal_strlit("block-");
            lemma_decimal(height as nat);
        }
        push_str(&mut out, "block-");
        push_decimal(&mut out, height as u128);
        assert(out@ =~= block_directory_name_spec(height));
        string_from_ascii(out)
    }

    /// The name of the file, inside the directory of the block at `height`,
    /// that holds the given mapping as JSON.
    pub fn mapping_file_name(&self, height: u32, mapping: MappingName) -> (r: String)
        ensures
            r@ == chars_of(mapping_file_name_spec(height, mapping)),
    {
        let mut out: Vec<u8> = Vec::new();
        proof {
            reveal_strlit("block-");
            reveal_strlit("-");
            reveal_strlit(".json");
            lemma_decimal(height as nat);
        }
        push_str(&mut out, "block-");
        push_decimal(&mut out, height as u128);
        push_str(&mut out, "-");
        mapping.push_name(&mut out);
        push_str(&mut out, ".json");
        assert(out@ =~= mapping_file_name_spec(height, mapping));
        string_from_ascii(out)
    }
}

} // verus!
