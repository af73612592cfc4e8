//! Bitcoin scripts: reading a script as instructions, writing one, and the few
//! questions the indexer asks of a script. The work is done by the `bitcoin`
//! crate; what this module states of it is believed, not proved.

use vstd::prelude::*;
use crate::network::Network;
use crate::tx::TxOut;

verus! {

/// The opcode that makes an output unspendable and opens a data carrier.
pub const OP_RETURN: u8 = 0x6a;

/// The opcode that marks a data carrier as a runes message.
pub const MAGIC_NUMBER: u8 = 0x5d;

/// An instruction of a script.
#[derive(Clone, Debug, PartialEq, Eq)]
pub enum Instruction {
    /// A push of these bytes.
    PushBytes(Vec<u8>),
    /// An opcode that is no push.
    Op(u8),
    /// The script cannot be read from here on.
    Error,
}

/// An instruction of a script, as the contracts see it.
pub enum InstructionView {
    PushBytes(Seq<u8>),
    Op(u8),
    Error,
}

impl View for Instruction {
    type V = InstructionView;

    open spec fn view(&self) -> InstructionView {
        match self {
            Instruction::PushBytes(bytes) => InstructionView::PushBytes(bytes@),
            Instruction::Op(op) => InstructionView::Op(*op),
            Instruction::Error => InstructionView::Error,
        }
    }
}

/// The views of a list of instructions.
pub open spec fn instruction_views(list: Seq<Instruction>) -> Seq<InstructionView> {
    Seq::new(list.len(), |i: int| list[i]@)
}

/// How many bytes after the opcode `op` hold the length of the data it
/// pushes.
pub open spec fn length_width(op: u8) -> nat {
    if op == 76 {
        1
    } else if op == 77 {
        2
    } else if op == 78 {
        4
    } else {
        0
    }
}

/// The number that `bytes` hold, least significant byte first.
pub open spec fn le_value(bytes: Seq<u8>) -> nat
    decreases bytes.len(),
{
    if bytes.len() == 0 {
        0
    } else {
        bytes[0] as nat + 256 * le_value(bytes.skip(1))
    }
}

/// The instructions of the script `s`. The opcodes 0 to 75 push that many of
/// the bytes that follow; 76, 77 and 78 push as many as the next one, two or
/// four bytes say; every other opcode stands for itself. Where the bytes run
/// out inside a push, the list ends in `Error`.
pub open spec fn instructions(s: Seq<u8>) -> Seq<InstructionView>
    decreases s.len(),
{
    if s.len() == 0 {
        Seq::empty()
    } else if s[0] > 78 {
        seq![InstructionView::Op(s[0])] + instructions(s.skip(1))
    } else {
        let width = length_width(s[0]);
        if s.len() < 1 + width {
            seq![InstructionView::Error]
        } else {
            let n = if s[0] <= 75 {
                s[0] as nat
            } else {
                le_value(s.subrange(1, 1 + width as int))
            };
            let start: int = 1 + width as int;
            let end: int = start + n;
            if s.len() < end {
                seq![InstructionView::Error]
            } else {
                seq![InstructionView::PushBytes(s.subrange(start, end))] + instructions(
                    s.skip(end),
                )
            }
        }
    }
}

/// The bytes that announce a push of `len` bytes, for `len` below 65536.
pub open spec fn push_prefix(len: nat) -> Seq<u8> {
    if len < 76 {
        seq![len as u8]
    } else if len < 256 {
        seq![76u8, len as u8]
    } else {
        seq![77u8, (len % 256) as u8, (len / 256) as u8]
    }
}

/// The script inside a taproot witness: the item before the last, or the one
/// before that where the last item is an annex (two items or more, the last
/// starting with the byte 0x50).
pub open spec fn tapscript_of(witness: Seq<Seq<u8>>) -> Option<Seq<u8>> {
    if witness.len() == 0 {
        None
    } else {
        let back: int = if witness.len() >= 2 && witness.last().len() > 0 && witness.last()[0]
            == 0x50 {
            3
        } else {
            2
        };
        if witness.len() >= back {
            Some(witness[witness.len() - back])
        } else {
            None
        }
    }
}

/// How many bytes announce a witness item of `len` bytes where a witness is
/// kept as one run of bytes.
pub open spec fn item_prefix(len: nat) -> nat {
    if len <= 0xFC {
        1
    } else if len <= 0xFFFF {
        3
    } else if len <= 0xFFFF_FFFF {
        5
    } else {
        9
    }
}

/// The bytes that `witness` takes where it is kept as one run of bytes: each
/// item with the bytes that announce it, and four more for its place.
pub open spec fn witness_size(witness: Seq<Seq<u8>>) -> nat
    decreases witness.len(),
{
    if witness.len() == 0 {
        0
    } else {
        witness_size(witness.drop_last()) + witness.last().len() + item_prefix(
            witness.last().len(),
        ) + 4
    }
}

/// Whether `s` locks an output to a taproot key: 34 bytes, the opcode for the
/// number one, then a push of 32 bytes.
pub open spec fn pays_to_taproot(s: Seq<u8>) -> bool {
    s.len() == 34 && s[0] == 0x51 && s[1] == 0x20
}

/// Whether `s` starts with the opcode that makes an output unspendable.
pub open spec fn starts_with_return(s: Seq<u8>) -> bool {
    s.len() > 0 && s[0] == OP_RETURN
}

/// The address that the script `script` pays to on `network`, if it has one.
pub uninterp spec fn address_of_script(script: Seq<u8>, network: Network) -> Option<Seq<char>>;

/// `s` in lower case.
pub uninterp spec fn lowercase_of(s: Seq<char>) -> Seq<char>;

/// The bytes that a script builder holds.
pub uninterp spec fn builder_bytes(builder: bitcoin::blockdata::script::Builder) -> Seq<u8>;

/// The view of a string that may be absent.
pub open spec fn text_view(text: Option<String>) -> Option<Seq<char>> {
    match text {
        Some(s) => Some(s@),
        None => None,
    }
}

/// The view of a list of bytes that may be absent.
pub open spec fn bytes_view(bytes: Option<Vec<u8>>) -> Option<Seq<u8>> {
    match bytes {
        Some(b) => Some(b@),
        None => None,
    }
}

#[verifier::external_type_specification]
#[verifier::external_body]
pub struct ExBuilder(bitcoin::blockdata::script::Builder);

/// `Script::instructions` of the `bitcoin` crate, each item of the iterator
/// turned into an `Instruction`. Claimed: the items are those that
/// `instructions` describes.
#[verifier::external_body]
pub(crate) fn script_instructions(script: &Vec<u8>) -> (r: Vec<Instruction>)
    ensures
        instruction_views(r@) == instructions(script@),
{
    bitcoin::Script::from_bytes(script).instructions().map(
        |item| match item {
            Ok(bitcoin::blockdata::script::Instruction::PushBytes(push)) => Instruction::PushBytes(
                push.as_bytes().to_vec(),
            ),
            Ok(bitcoin::blockdata::script::Instruction::Op(op)) => Instruction::Op(op.to_u8()),
            Err(_) => Instruction::Error,
        },
    ).collect()
}

/// `Script::is_op_return` of the `bitcoin` crate. Claimed: it tells whether
/// the first byte is the opcode `OP_RETURN`.
#[verifier::external_body]
pub(crate) fn is_op_return(script: &Vec<u8>) -> (r: bool)
    ensures
        r == starts_with_return(script@),
{
    bitcoin::Script::from_bytes(script).is_op_return()
}

/// `Script::is_v1_p2tr` of the `bitcoin` crate. Claimed: it tells whether the
/// script has the shape that `pays_to_taproot` describes.
#[verifier::external_body]
pub(crate) fn is_v1_p2tr(script: &Vec<u8>) -> (r: bool)
    ensures
        r == pays_to_taproot(script@),
{
    bitcoin::Script::from_bytes(script).is_v1_p2tr()
}

/// `Witness::tapscript` of the `bitcoin` crate, on a witness made of `witness`
/// by `Witness::from_slice`. Claimed: it picks the item that `tapscript_of`
/// describes. `Witness::from_slice` keeps the place of each item in 32 bits
/// and stops the program where a place does not fit, so the witness must
/// take less than 4 GiB.
#[verifier::external_body]
pub(crate) fn witness_tapscript(witness: &Vec<Vec<u8>>) -> (r: Option<Vec<u8>>)
    requires
        witness_size(witness.deep_view()) <= u32::MAX,
    ensures
        bytes_view(r) == tapscript_of(witness.deep_view()),
{
    bitcoin::Witness::from_slice(witness).tapscript().map(|script| script.to_bytes())
}

/// `Address::from_script` of the `bitcoin` crate, and the address as a string.
/// Claimed: the result depends on the script and the network alone.
#[verifier::external_body]
pub fn output_to_address(output: &TxOut, network: Network) -> (r: Option<String>)
    ensures
        text_view(r) == address_of_script(output.script_pubkey@, network),
{
    let chain = match network {
        Network::Bitcoin => bitcoin::Network::Bitcoin,
        Network::Testnet => bitcoin::Network::Testnet,
        Network::Signet => bitcoin::Network::Signet,
        Network::Regtest => bitcoin::Network::Regtest,
    };
    bitcoin::Address::from_script(bitcoin::Script::from_bytes(&output.script_pubkey), chain)
        .ok().map(|address| address.to_string())
}

/// `str::to_lowercase` of the standard library. Claimed: the result depends on
/// the string alone.
#[verifier::external_body]
pub(crate) fn to_lowercase(s: &str) -> (r: String)
    ensures
        r@ == lowercase_of(s@),
{
    s.to_lowercase()
}

/// `Builder::new` of the `bitcoin` crate. Claimed: the new builder holds no
/// byte.
#[verifier::external_body]
pub(crate) fn builder_new() -> (r: bitcoin::blockdata::script::Builder)
    ensures
        builder_bytes(r) == Seq::<u8>::empty(),
{
    bitcoin::blockdata::script::Builder::new()
}

/// `Builder::push_opcode` of the `bitcoin` crate. Claimed: it appends the byte
/// of the opcode.
#[verifier::external_body]
pub(crate) fn builder_push_opcode(builder: bitcoin::blockdata::script::Builder, op: u8) -> (r:
    bitcoin::blockdata::script::Builder)
    ensures
        builder_bytes(r) == builder_bytes(builder).push(op),
{
    builder.push_opcode(bitcoin::blockdata::opcodes::All::from(op))
}

/// `Builder::push_slice` of the `bitcoin` crate. Claimed: it appends the bytes
/// that announce a push of that length, then the data.
#[verifier::external_body]
pub(crate) fn builder_push_slice(builder: bitcoin::blockdata::script::Builder, data: &[u8]) -> (r:
    bitcoin::blockdata::script::Builder)
    requires
        data@.len() < 65536,
    ensures
        builder_bytes(r) == builder_bytes(builder) + push_prefix(data@.len()) + data@,
{
    let push: &bitcoin::blockdata::script::PushBytes = data.try_into().unwrap();
    builder.push_slice(push)
}

/// `Builder::into_bytes` of the `bitcoin` crate. Claimed: it hands out the
/// bytes that the builder holds.
#[verifier::external_body]
pub(crate) fn builder_into_bytes(builder: bitcoin::blockdata::script::Builder) -> (r: Vec<u8>)
    ensures
        r@ == builder_bytes(builder),
{
    builder.into_bytes()
}

} // verus!
