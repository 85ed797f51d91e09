//! What the packet relay computes between receiving and sending: the
//! bounded history of packets, the bytes of a packet that arrived as a list
//! of numbers, and the history in Base64.

use vstd::prelude::*;
use std::collections::VecDeque;

verus! {

/// The number of packets that the history keeps.
pub const HISTORY_LIMIT: usize = 100;

/// The history after `packet` arrived: the packet goes last, and the oldest
/// packet leaves where the history is full.
pub open spec fn recorded(history: Seq<Vec<u8>>, packet: Vec<u8>) -> Seq<Vec<u8>> {
    if history.len() >= HISTORY_LIMIT {
        history.skip(1).push(packet)
    } else {
        history.push(packet)
    }
}

/// Adds `packet` to the history.
pub fn record(history: &mut VecDeque<Vec<u8>>, packet: Vec<u8>)
    ensures
        final(history)@ == recorded(old(history)@, packet),
{
    if history.len() >= HISTORY_LIMIT {
        history.pop_front();
        assert(history@ =~= old(history)@.skip(1));
    }
    history.push_back(packet);
}

/// A history that is not over the limit stays so.
pub proof fn lemma_recorded_is_bounded(history: Seq<Vec<u8>>, packet: Vec<u8>)
    requires
        history.len() <= HISTORY_LIMIT,
    ensures
        0 < recorded(history, packet).len() <= HISTORY_LIMIT,
        recorded(history, packet).last() == packet,
{
}

/// The byte that the number `n` stands for: its low eight bits.
pub open spec fn low_byte(n: u64) -> u8 {
    (n % 256) as u8
}

/// The bytes of the first `n` items: each item that is a number gives its
/// low byte, the others give nothing.
pub open spec fn bytes_of_items(items: Seq<Option<u64>>, n: int) -> Seq<u8>
    decreases n,
{
    if n <= 0 || n > items.len() {
        Seq::empty()
    } else {
        match items[n - 1] {
            Some(v) => bytes_of_items(items, n - 1).push(low_byte(v)),
            None => bytes_of_items(items, n - 1),
        }
    }
}

/// The bytes of a packet that arrived as a list of items, each a number or
/// something else.
pub fn buffer_bytes(items: &Vec<Option<u64>>) -> (bytes: Vec<u8>)
    ensures
        bytes@ == bytes_of_items(items@, items@.len() as int),
{
    let mut bytes: Vec<u8> = Vec::new();
    let mut i: usize = 0;
    while i < items.len()
        invariant
            i <= items.len(),
            bytes@ == bytes_of_items(items@, i as int),
        decreases items.len() - i,
    {
        match items[i] {
            Some(v) => {
                bytes.push((v % 256) as u8);
            },
            None => {},
        }
        i += 1;
    }
    bytes
}

/// The standard Base64 text of `bytes`, with padding.
pub uninterp spec fn base64_standard(bytes: Seq<u8>) -> Seq<char>;

/// Whether the Base64 text of `n` bytes has a length that fits the machine
/// word: four characters for every three bytes, and four more to spare.
pub open spec fn encodable(n: nat) -> bool {
    n / 3 * 4 + 4 <= usize::MAX
}

/// `Engine::encode` of the crate `base64` on its `STANDARD` engine gives
/// the Base64 text of the bytes, which depends on the bytes alone. It
/// panics where the length of the text does not fit the machine word.
#[verifier::external_body]
fn encode_base64(bytes: &Vec<u8>) -> (text: String)
    requires
        encodable(bytes@.len()),
    ensures
        text@ == base64_standard(bytes@),
{
    base64::Engine::encode(&base64::engine::general_purpose::STANDARD, bytes)
}

/// The packets of the history in Base64, oldest first.
pub fn history_base64(history: &VecDeque<Vec<u8>>) -> (texts: Vec<String>)
    requires
        forall|i: int| 0 <= i < history@.len() ==> encodable((#[trigger] history@[i])@.len()),
    ensures
        texts@.len() == history@.len(),
        forall|i: int|
            0 <= i < texts@.len() ==> (#[trigger] texts@[i])@ == base64_standard(history@[i]@),
{
    let mut texts: Vec<String> = Vec::new();
    let mut i: usize = 0;
    while i < history.len()
        invariant
            i <= history@.len(),
            texts@.len() == i,
            forall|k: int| 0 <= k < history@.len() ==> encodable((#[trigger] history@[k])@.len()),
            forall|k: int|
                0 <= k < i ==> (#[trigger] texts@[k])@ == base64_standard(history@[k]@),
        decreases history@.len() - i,
    {
        texts.push(encode_base64(&history[i]));
        i += 1;
    }
    texts
}

} // verus!
