//! Digests, and the bytes that go into them.
use vstd::prelude::*;
use vstd::string::*;

verus! {

/// The BLAKE3 digest of a message.
pub uninterp spec fn blake3_of(message: Seq<u8>) -> Seq<u8>;

/// `blake3::hash`: the 32 bytes of the digest of a message.
#[verifier::external_body]
fn blake3_hash(message: &[u8]) -> (r: [u8; 32])
    ensures
        r@ == blake3_of(message@),
{
    *blake3::hash(message).as_bytes()
}

/// The digest of a message.
pub fn digest(message: &Vec<u8>) -> (r: [u8; 32])
    ensures
        r@ == blake3_of(message@),
{
    blake3_hash(message.as_slice())
}

/// The digit for a value below 16.
pub open spec fn hex_digit(d: int) -> char {
    if d < 10 {
        ('0' as u32 + d) as char
    } else {
        ('a' as u32 + (d - 10)) as char
    }
}

/// The lower-case hexadecimal form of some bytes: two digits for each, the higher first.
pub open spec fn hex_of(bytes: Seq<u8>) -> Seq<char> {
    Seq::new(
        2 * bytes.len(),
        |i: int|
            if i % 2 == 0 {
                hex_digit(bytes[i / 2] as int / 16)
            } else {
                hex_digit(bytes[i / 2] as int % 16)
            },
    )
}

fn nibble(d: u8) -> (r: char)
    requires
        d < 16,
    ensures
        r == hex_digit(d as int),
{
    if d < 10 {
        (48 + d) as char
    } else {
        (87 + d) as char
    }
}

/// The lower-case hexadecimal form of some bytes.
pub fn to_hex(bytes: &[u8]) -> (r: String)
    ensures
        r@ == hex_of(bytes@),
{
    let mut r = String::new();
    let mut i: usize = 0;
    while i < bytes.len()
        invariant
            i <= bytes@.len(),
            r@ == hex_of(bytes@).take(2 * i),
        decreases bytes.len() - i,
    {
        let b = bytes[i];
        r.push(nibble(b / 16));
        r.push(nibble(b % 16));
        proof {
            let h = hex_of(bytes@);
            assert((2 * i) / 2 == i && (2 * i) % 2 == 0);
            assert((2 * i + 1) / 2 == i && (2 * i + 1) % 2 == 1);
            assert(h.take(2 * (i + 1)) =~= h.take(2 * i).push(h[2 * i]).push(h[2 * i + 1]));
        }
        i += 1;
    }
    assert(hex_of(bytes@).take(2 * bytes@.len() as int) =~= hex_of(bytes@));
    r
}

/// The `w` lowest bytes of a number, the lowest first.
pub open spec fn le_bytes(n: nat, w: nat) -> Seq<u8>
    decreases w,
{
    if w == 0 {
        Seq::empty()
    } else {
        seq![(n % 256) as u8] + le_bytes(n / 256, (w - 1) as nat)
    }
}

/// Appends the eight bytes of a number, the lowest first.
pub fn push_u64(out: &mut Vec<u8>, n: u64)
    ensures
        final(out)@ == old(out)@ + le_bytes(n as nat, 8),
{
    let mut m: u64 = n;
    let mut w: usize = 8;
    let ghost start = out@;
    assert(out@ + le_bytes(n as nat, 8) =~= start + le_bytes(n as nat, 8));
    while w > 0
        invariant
            w <= 8,
            out@ + le_bytes(m as nat, w as nat) == start + le_bytes(n as nat, 8),
        decreases w,
    {
        proof {
            assert((out@.push((m % 256) as u8)) + le_bytes((m / 256) as nat, (w - 1) as nat) =~= out@ + (
            seq![(m % 256) as u8] + le_bytes((m / 256) as nat, (w - 1) as nat)));
        }
        out.push((m % 256) as u8);
        m = m / 256;
        w -= 1;
    }
    assert(out@ + Seq::<u8>::empty() =~= out@);
}

/// Appends bytes.
pub fn push_bytes(out: &mut Vec<u8>, bytes: &[u8])
    ensures
        final(out)@ == old(out)@ + bytes@,
{
    let ghost start = out@;
    let mut i: usize = 0;
    assert(start + bytes@.take(0) =~= start);
    while i < bytes.len()
        invariant
            i <= bytes@.len(),
            out@ == start + bytes@.take(i as int),
        decreases bytes.len() - i,
    {
        proof {
            assert(start + bytes@.take(i + 1) =~= (start + bytes@.take(i as int)).push(bytes@[i as int]));
        }
        out.push(bytes[i]);
        i += 1;
    }
    assert(bytes@.take(bytes@.len() as int) =~= bytes@);
}

/// The bytes of a text.
pub open spec fn utf8(s: Seq<char>) -> Seq<u8> {
    vstd::utf8::encode_utf8(s)
}

/// Appends the bytes of a text.
pub fn push_text(out: &mut Vec<u8>, s: &str)
    ensures
        final(out)@ == old(out)@ + utf8(s@),
{
    push_bytes(out, s.as_bytes());
}

/// Whether a character is a lower-case hexadecimal digit.
pub open spec fn is_hex_digit(c: char) -> bool {
    ('0' <= c <= '9') || ('a' <= c <= 'f')
}

/// The hexadecimal form has two lower-case digits for each byte, and different bytes have different
/// forms.
pub proof fn law_hex_of(a: Seq<u8>, b: Seq<u8>)
    ensures
        hex_of(a).len() == 2 * a.len(),
        forall|i: int| 0 <= i < hex_of(a).len() ==> is_hex_digit(#[trigger] hex_of(a)[i]),
        hex_of(a) == hex_of(b) ==> a == b,
{
    if hex_of(a) == hex_of(b) {
        assert(hex_of(a).len() == 2 * a.len() && hex_of(b).len() == 2 * b.len());
        assert forall|i: int| 0 <= i < a.len() implies a[i] == b[i] by {
            let x = a[i] as int;
            let y = b[i] as int;
            assert((2 * i) / 2 == i && (2 * i) % 2 == 0);
            assert((2 * i + 1) / 2 == i && (2 * i + 1) % 2 == 1);
            assert(hex_of(a)[2 * i] == hex_digit(x / 16));
            assert(hex_of(b)[2 * i] == hex_digit(y / 16));
            assert(hex_of(a)[2 * i + 1] == hex_digit(x % 16));
            assert(hex_of(b)[2 * i + 1] == hex_digit(y % 16));
        }
        assert(a =~= b);
    }
}

} // verus!
