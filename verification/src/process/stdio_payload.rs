//! Frozen binary payload that shows Linux stdio to be byte-transparent.

use crate::scan::copy_at;
use vstd::prelude::*;

verus! {

/// Length of the binary body between the sentinels.
pub const M9_STDIO_INNER_LEN: usize = 140;

/// Length of the opening sentinel `<<M9BYTES>>`.
pub const M9_STDIO_SENTINEL_START_LEN: usize = 11;

/// Length of the closing sentinel `<<END>>`.
pub const M9_STDIO_SENTINEL_END_LEN: usize = 7;

/// Length of the whole block: both sentinels and the body.
pub const M9_STDIO_BLOCK_LEN: usize = 158;

/// `<<M9BYTES>>`
pub open spec fn sentinel_start() -> Seq<u8> {
    seq![0x3cu8, 0x3cu8, 0x4du8, 0x39u8, 0x42u8, 0x59u8, 0x54u8, 0x45u8, 0x53u8, 0x3eu8, 0x3eu8]
}

/// `<<END>>`
pub open spec fn sentinel_end() -> Seq<u8> {
    seq![0x3cu8, 0x3cu8, 0x45u8, 0x4eu8, 0x44u8, 0x3eu8, 0x3eu8]
}

/// A four-byte UTF-8 character, a zero byte, bytes that are not UTF-8, and control bytes.
pub open spec fn inner_core() -> Seq<u8> {
    seq![0xF0u8, 0x9Fu8, 0x98u8, 0x80u8, 0x00u8, 0xFFu8, 0xFEu8, 0x80u8, 0x01u8, 0x02u8]
}

/// The body: fifty `A`, the core, and `z` to the end.
pub open spec fn inner_bytes() -> Seq<u8> {
    Seq::new(50, |i: int| 0x41u8) + inner_core() + Seq::new(80, |i: int| 0x7au8)
}

/// The body between its sentinels.
pub open spec fn block_bytes() -> Seq<u8> {
    sentinel_start() + inner_bytes() + sentinel_end()
}

/// FNV-1a over 32 bits.
pub open spec fn fnv1a(bytes: Seq<u8>) -> u32
    decreases bytes.len(),
{
    if bytes.len() == 0 {
        0x811c_9dc5
    } else {
        (fnv1a(bytes.drop_last()) ^ (bytes.last() as u32)).wrapping_mul(0x0100_0193)
    }
}

pub fn build_m9_stdio_inner() -> (r: [u8; 140])
    ensures
        r@ == inner_bytes(),
{
    let mut buf: [u8; 140] = [0x7au8; 140];
    let head: [u8; 50] = [0x41u8; 50];
    let core: [u8; 10] = [0xF0, 0x9F, 0x98, 0x80, 0x00, 0xFF, 0xFE, 0x80, 0x01, 0x02];
    copy_at(&mut buf, 0, &head);
    copy_at(&mut buf, 50, &core);
    assert(core@ =~= inner_core());
    assert(buf@ =~= inner_bytes());
    buf
}

pub fn build_m9_stdio_block() -> (r: [u8; 158])
    ensures
        r@ == block_bytes(),
{
    let mut block: [u8; 158] = [0u8; 158];
    let start: [u8; 11] = [
        0x3c,
        0x3c,
        0x4d,
        0x39,
        0x42,
        0x59,
        0x54,
        0x45,
        0x53,
        0x3e,
        0x3e,
    ];
    let end: [u8; 7] = [0x3c, 0x3c, 0x45, 0x4e, 0x44, 0x3e, 0x3e];
    let inner = build_m9_stdio_inner();
    copy_at(&mut block, 0, &start);
    copy_at(&mut block, M9_STDIO_SENTINEL_START_LEN, &inner);
    copy_at(&mut block, M9_STDIO_SENTINEL_START_LEN + M9_STDIO_INNER_LEN, &end);
    assert(start@ =~= sentinel_start());
    assert(end@ =~= sentinel_end());
    assert(block@ =~= block_bytes());
    block
}

/// FNV-1a over 32 bits.
pub fn fnv1a32(bytes: &[u8]) -> (r: u32)
    ensures
        r == fnv1a(bytes@),
{
    let mut hash: u32 = 0x811c_9dc5;
    let mut index: usize = 0;
    assert(bytes@.take(0) =~= Seq::<u8>::empty());
    while index < bytes.len()
        invariant
            0 <= index <= bytes@.len(),
            hash == fnv1a(bytes@.take(index as int)),
        decreases bytes@.len() - index,
    {
        proof {
            let next = bytes@.take(index + 1);
            assert(next.drop_last() =~= bytes@.take(index as int));
            assert(next.last() == bytes@[index as int]);
        }
        hash = (hash ^ (bytes[index] as u32)).wrapping_mul(0x0100_0193);
        index += 1;
    }
    assert(bytes@.take(index as int) =~= bytes@);
    hash
}

/// The four-byte character of the body lies across the boundary of the first IPC message of the
/// block.
pub proof fn law_character_straddles_first_message()
    ensures
        block_bytes().subrange(61, 65) == inner_core().take(4),
        61 < crate::ipc::IPC_MAX_MESSAGE_BYTES < 65,
{
    assert(block_bytes().subrange(61, 65) =~= inner_core().take(4));
}

} // verus!
