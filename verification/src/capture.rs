//! The blocks of a capture in the pcap-ng form, as far as they decide
//! whether the capture can be handed to the reader: a block is a type and a
//! length of four bytes each, a body, and the length again.

use vstd::prelude::*;

verus! {

/// The type of a section header block. Its bytes read the same in both byte
/// orders.
pub const SECTION: u32 = 0x0A0D_0D0A;

/// The type of an interface description block.
pub const INTERFACE: u32 = 1;

/// The type of a packet block of the obsolete kind.
pub const OBSOLETE_PACKET: u32 = 2;

/// The type of a simple packet block.
pub const SIMPLE_PACKET: u32 = 3;

/// The type of an interface statistics block.
pub const STATISTICS: u32 = 5;

/// The type of an enhanced packet block.
pub const ENHANCED_PACKET: u32 = 6;

/// The number of 32 bits that stands at `at`, highest byte first where
/// `big` is set and lowest byte first where it is not.
pub open spec fn word(bytes: Seq<u8>, at: int, big: bool) -> int {
    if big {
        bytes[at] * 16_777_216 + bytes[at + 1] * 65_536 + bytes[at + 2] * 256 + bytes[at + 3]
    } else {
        bytes[at] + bytes[at + 1] * 256 + bytes[at + 2] * 65_536 + bytes[at + 3] * 16_777_216
    }
}

/// The time stamp of 64 bits that stands at `at`: its high half, then its
/// low half.
pub open spec fn stamp(bytes: Seq<u8>, at: int, big: bool) -> int {
    word(bytes, at, big) * 4_294_967_296 + word(bytes, at + 4, big)
}

/// The mark of a section whose numbers stand highest byte first.
pub open spec fn is_big_mark(bytes: Seq<u8>, at: int) -> bool {
    bytes[at] == 0x1A && bytes[at + 1] == 0x2B && bytes[at + 2] == 0x3C && bytes[at + 3] == 0x4D
}

/// The mark of a section whose numbers stand lowest byte first.
pub open spec fn is_little_mark(bytes: Seq<u8>, at: int) -> bool {
    bytes[at] == 0x4D && bytes[at + 1] == 0x3C && bytes[at + 2] == 0x2B && bytes[at + 3] == 0x1A
}

/// Whether the blocks from `at` up to the first packet can be handed to the
/// reader. `big` is the byte order and `sections` the number of section
/// headers so far. The walk ends well where the reader ends without a
/// packet or with an error of its own: at the end of the bytes, at a block
/// that is cut off, at a mark or a length that it does not accept, and at a
/// body too short for its type. It ends badly at what the reader cannot
/// take: a section header whose body has 12 to 15 bytes, a section header
/// beyond the number that 32 bits count, and a first packet whose time
/// stamp is above the seconds that the system's clock counts in 64 bits
/// with a sign, whatever the unit of the stamp.
pub open spec fn walks_safely(bytes: Seq<u8>, at: int, big: bool, sections: int) -> bool
    decreases bytes.len() - at,
{
    if at < 0 || bytes.len() - at < 12 {
        true
    } else {
        let kind = word(bytes, at, big);
        let section = kind == SECTION;
        if section && !is_big_mark(bytes, at + 8) && !is_little_mark(bytes, at + 8) {
            true
        } else {
            let order = if section {
                is_big_mark(bytes, at + 8)
            } else {
                big
            };
            let len = word(bytes, at + 4, order);
            if len < 12 || bytes.len() - at < len || word(bytes, at + len - 4, order) != len {
                true
            } else if section {
                if sections >= u32::MAX {
                    false
                } else if len < 24 {
                    true
                } else if len < 28 {
                    false
                } else {
                    walks_safely(bytes, at + len, order, sections + 1)
                }
            } else if kind == INTERFACE {
                len < 20 || walks_safely(bytes, at + len, big, sections)
            } else if kind == STATISTICS {
                len < 24 || walks_safely(bytes, at + len, big, sections)
            } else if kind == ENHANCED_PACKET || kind == OBSOLETE_PACKET {
                len < 32 || stamp(bytes, at + 12, big) <= i64::MAX
            } else if kind == SIMPLE_PACKET {
                true
            } else {
                walks_safely(bytes, at + len, big, sections)
            }
        }
    }
}

/// The capture can be handed to the reader.
pub open spec fn is_safe(bytes: Seq<u8>) -> bool {
    walks_safely(bytes, 0, false, 0)
}

/// Reads the number of 32 bits at `at`.
pub fn read_word(bytes: &[u8], at: usize, big: bool) -> (w: u32)
    requires
        at + 4 <= bytes@.len(),
    ensures
        w == word(bytes@, at as int, big),
{
    let b0: u32 = bytes[at] as u32;
    let b1: u32 = bytes[at + 1] as u32;
    let b2: u32 = bytes[at + 2] as u32;
    let b3: u32 = bytes[at + 3] as u32;
    if big {
        b0 * 16_777_216 + b1 * 65_536 + b2 * 256 + b3
    } else {
        b0 + b1 * 256 + b2 * 65_536 + b3 * 16_777_216
    }
}

/// Reads the time stamp at `at`.
pub fn read_stamp(bytes: &[u8], at: usize, big: bool) -> (t: u64)
    requires
        at + 8 <= bytes@.len(),
    ensures
        t == stamp(bytes@, at as int, big),
{
    assert(at + 8 <= bytes.len());
    let high: u64 = read_word(bytes, at, big) as u64;
    let low: u64 = read_word(bytes, at + 4, big) as u64;
    high * 4_294_967_296 + low
}

/// Tests whether a capture can be handed to the reader, by a walk over its
/// blocks up to the first packet.
pub fn capture_is_safe(bytes: &[u8]) -> (safe: bool)
    ensures
        safe == is_safe(bytes@),
{
    let n: usize = bytes.len();
    let mut at: usize = 0;
    let mut big: bool = false;
    let mut sections: u32 = 0;
    loop
        invariant
            n == bytes@.len(),
            at <= n,
            is_safe(bytes@) == walks_safely(bytes@, at as int, big, sections as int),
        decreases n - at,
    {
        if n - at < 12 {
            return true;
        }
        let kind: u32 = read_word(bytes, at, big);
        let section: bool = kind == SECTION;
        let big_mark: bool = bytes[at + 8] == 0x1A && bytes[at + 9] == 0x2B && bytes[at + 10]
            == 0x3C && bytes[at + 11] == 0x4D;
        let little_mark: bool = bytes[at + 8] == 0x4D && bytes[at + 9] == 0x3C && bytes[at + 10]
            == 0x2B && bytes[at + 11] == 0x1A;
        if section && !big_mark && !little_mark {
            return true;
        }
        let order: bool = if section {
            big_mark
        } else {
            big
        };
        let len: usize = read_word(bytes, at + 4, order) as usize;
        if len < 12 || n - at < len {
            return true;
        }
        if read_word(bytes, at + len - 4, order) as usize != len {
            return true;
        }
        if section {
            if sections == u32::MAX {
                return false;
            }
            if len < 24 {
                return true;
            }
            if len < 28 {
                return false;
            }
            sections = sections + 1;
            big = order;
        } else if kind == INTERFACE {
            if len < 20 {
                return true;
            }
        } else if kind == STATISTICS {
            if len < 24 {
                return true;
            }
        } else if kind == ENHANCED_PACKET || kind == OBSOLETE_PACKET {
            if len < 32 {
                return true;
            }
            return read_stamp(bytes, at + 12, big) <= i64::MAX as u64;
        } else if kind == SIMPLE_PACKET {
            return true;
        }
        at = at + len;
    }
}

} // verus!
