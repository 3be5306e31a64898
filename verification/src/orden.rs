//! Numbers in the machine's own byte order, as the kernel writes them in the
//! netlink messages the service reads and sends.
//!
//! Which order the machine uses is the machine's. It is learned once, from a
//! fixed pair of bytes, and every field of a message is then read or written
//! in that one order by the arithmetic here, so no two fields can disagree.
use vstd::prelude::*;

verus! {

/// Two bytes read as a little-endian number.
pub open spec fn le16(b0: u8, b1: u8) -> nat {
    b0 as nat + 256 * (b1 as nat)
}

/// Four bytes read as a little-endian number.
pub open spec fn le32(b0: u8, b1: u8, b2: u8, b3: u8) -> nat {
    b0 as nat + 256 * (b1 as nat) + 65536 * (b2 as nat) + 16777216 * (b3 as nat)
}

/// The two bytes at `i` in `m`, little-endian when `le` and big-endian
/// otherwise.
pub open spec fn leer16(m: Seq<u8>, i: int, le: bool) -> nat {
    if le {
        le16(m[i], m[i + 1])
    } else {
        le16(m[i + 1], m[i])
    }
}

/// The four bytes at `i` in `m`, little-endian when `le` and big-endian
/// otherwise.
pub open spec fn leer32(m: Seq<u8>, i: int, le: bool) -> nat {
    if le {
        le32(m[i], m[i + 1], m[i + 2], m[i + 3])
    } else {
        le32(m[i + 3], m[i + 2], m[i + 1], m[i])
    }
}

/// A 32-bit pattern read as a signed number.
pub open spec fn con_signo(x: nat) -> int {
    if x >= 0x8000_0000 {
        x - 0x1_0000_0000
    } else {
        x as int
    }
}

/// `u16::from_ne_bytes`: the two bytes read in the machine's byte order.
#[verifier::external_body]
fn u16_nativo(b: [u8; 2]) -> (r: u16)
    ensures
        r as nat == le16(b[0], b[1]) || r as nat == le16(b[1], b[0]),
{
    u16::from_ne_bytes(b)
}

/// Whether the machine is little-endian: the bytes `1, 0` read in its own
/// order are one. Which of the two it is depends on the machine alone, so
/// nothing more is said of it; what the callers rely on is that every field
/// is then read in this one order.
pub(crate) fn orden_de_la_maquina() -> bool {
    u16_nativo([1, 0]) == 1
}

/// The four bytes at `i` in the order `le`.
pub fn leer_u32(m: &[u8], i: usize, le: bool) -> (r: u32)
    requires
        i + 4 <= m@.len(),
    ensures
        r as nat == leer32(m@, i as int, le),
{
    let n = m.len();
    assert(i + 4 <= n);
    let (b0, b1, b2, b3) = if le {
        (m[i], m[i + 1], m[i + 2], m[i + 3])
    } else {
        (m[i + 3], m[i + 2], m[i + 1], m[i])
    };
    (b0 as u32) + (b1 as u32) * 256 + (b2 as u32) * 65536 + (b3 as u32) * 16777216
}

/// The two bytes at `i` in the order `le`.
pub fn leer_u16(m: &[u8], i: usize, le: bool) -> (r: u16)
    requires
        i + 2 <= m@.len(),
    ensures
        r as nat == leer16(m@, i as int, le),
{
    let n = m.len();
    assert(i + 2 <= n);
    let (b0, b1) = if le {
        (m[i], m[i + 1])
    } else {
        (m[i + 1], m[i])
    };
    (b0 as u16) + (b1 as u16) * 256
}

/// A 32-bit pattern as a two's complement number.
pub fn con_signo_de(x: u32) -> (r: i32)
    ensures
        r as int == con_signo(x as nat),
{
    if x >= 0x8000_0000 {
        ((x as i64) - 0x1_0000_0000i64) as i32
    } else {
        x as i32
    }
}

/// Appends `x` as four bytes in the order `le`.
pub fn poner32(m: &mut Vec<u8>, x: u32, le: bool)
    ensures
        final(m)@.len() == old(m)@.len() + 4,
        final(m)@.take(old(m)@.len() as int) == old(m)@,
        leer32(final(m)@, old(m)@.len() as int, le) == x as nat,
{
    let b0 = (x % 256) as u8;
    let b1 = ((x / 256) % 256) as u8;
    let b2 = ((x / 65536) % 256) as u8;
    let b3 = (x / 16777216) as u8;
    assert(x as nat == b0 as nat + 256 * (b1 as nat) + 65536 * (b2 as nat) + 16777216 * (b3 as nat))
        by (nonlinear_arith)
        requires
            b0 == x % 256,
            b1 == (x / 256) % 256,
            b2 == (x / 65536) % 256,
            b3 == x / 16777216,
    ;
    let ghost antes = m@;
    if le {
        m.push(b0);
        m.push(b1);
        m.push(b2);
        m.push(b3);
    } else {
        m.push(b3);
        m.push(b2);
        m.push(b1);
        m.push(b0);
    }
    assert(m@.take(antes.len() as int) =~= antes);
}

/// Appends `x` as two bytes in the order `le`.
pub fn poner16(m: &mut Vec<u8>, x: u16, le: bool)
    ensures
        final(m)@.len() == old(m)@.len() + 2,
        final(m)@.take(old(m)@.len() as int) == old(m)@,
        leer16(final(m)@, old(m)@.len() as int, le) == x as nat,
{
    let b0 = (x % 256) as u8;
    let b1 = (x / 256) as u8;
    let ghost antes = m@;
    if le {
        m.push(b0);
        m.push(b1);
    } else {
        m.push(b1);
        m.push(b0);
    }
    assert(m@.take(antes.len() as int) =~= antes);
}

} // verus!
