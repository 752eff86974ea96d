//! What a plugin can do.

use crate::wire::{decode_uint, uint_at, WireError};
use vstd::prelude::*;

verus! {

/// The capabilities of a plugin: four flags, each of which it may or may not
/// have. On the wire they are the four lowest bits of an unsigned integer.
#[derive(Debug, Clone, Copy, PartialEq, Eq, Structural)]
pub struct PluginType {
    /// Offers methods that scripts can call.
    pub script: bool,
    /// Rewrites each action before it is shown.
    pub action: bool,
    /// Offers commands for texts.
    pub text: bool,
    /// Rewrites the game when it is opened.
    pub game: bool,
}

/// Whether bit number `n` of `bits` is set.
pub open spec fn bit(bits: nat, n: nat) -> bool
    decreases n,
{
    if n == 0 {
        bits % 2 == 1
    } else {
        bit(bits / 2, (n - 1) as nat)
    }
}

impl PluginType {
    /// The capabilities that the four lowest bits of `bits` stand for. Higher
    /// bits are ignored.
    pub open spec fn spec_from_bits(bits: nat) -> PluginType {
        PluginType {
            script: bit(bits, 0),
            action: bit(bits, 1),
            text: bit(bits, 2),
            game: bit(bits, 3),
        }
    }

    /// The unsigned integer whose bits stand for the capabilities.
    pub open spec fn spec_bits(self) -> nat {
        ((if self.script { 1nat } else { 0 }) + (if self.action { 2nat } else { 0 }) + (if self.text {
            4nat
        } else {
            0
        }) + (if self.game { 8nat } else { 0 })) as nat
    }

    /// No capability.
    pub fn empty() -> (r: PluginType)
        ensures
            r == PluginType::spec_from_bits(0),
    {
        proof {
            reveal_with_fuel(bit, 4);
        }
        PluginType { script: false, action: false, text: false, game: false }
    }

    /// The capabilities that the four lowest bits of `bits` stand for.
    pub fn from_bits(bits: u64) -> (r: PluginType)
        ensures
            r == PluginType::spec_from_bits(bits as nat),
    {
        proof {
            reveal_with_fuel(bit, 4);
        }
        PluginType {
            script: bits % 2 == 1,
            action: bits / 2 % 2 == 1,
            text: bits / 2 / 2 % 2 == 1,
            game: bits / 2 / 2 / 2 % 2 == 1,
        }
    }

    /// The unsigned integer whose bits stand for the capabilities.
    pub fn bits(&self) -> (r: u64)
        ensures
            r == self.spec_bits(),
    {
        let mut r: u64 = 0;
        if self.script {
            r = r + 1;
        }
        if self.action {
            r = r + 2;
        }
        if self.text {
            r = r + 4;
        }
        if self.game {
            r = r + 8;
        }
        r
    }

    /// Whether every capability of `other` is among these.
    pub fn contains(&self, other: PluginType) -> (r: bool)
        ensures
            r == ((other.script ==> self.script) && (other.action ==> self.action) && (other.text
                ==> self.text) && (other.game ==> self.game)),
    {
        (!other.script || self.script) && (!other.action || self.action) && (!other.text
            || self.text) && (!other.game || self.game)
    }

    /// The capabilities in the answer of a plugin to `plugin_type`: an unsigned
    /// integer in the wire format.
    pub fn from_reply(bytes: &[u8]) -> (r: Result<PluginType, WireError>)
        ensures
            r == match uint_at(bytes@) {
                Ok(bits) => Ok::<PluginType, WireError>(PluginType::spec_from_bits(bits as nat)),
                Err(e) => Err::<PluginType, WireError>(e),
            },
    {
        match decode_uint(bytes) {
            Ok(bits) => Ok(PluginType::from_bits(bits)),
            Err(e) => Err(e),
        }
    }
}

/// The bits of capabilities stand for those capabilities.
pub proof fn lemma_bits_round_trip(capabilities: PluginType)
    ensures
        PluginType::spec_from_bits(capabilities.spec_bits()) == capabilities,
{
    reveal_with_fuel(bit, 4);
}

} // verus!
