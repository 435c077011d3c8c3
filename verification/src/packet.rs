//! Packets of the XMODEM family: control bytes, error-detecting codes and framing.

use vstd::prelude::*;

verus! {

/// Start of a packet with a 128-byte body.
pub const SOH: u8 = 0x01;

/// Start of a packet with a 1024-byte body.
pub const STX: u8 = 0x02;

/// End of one file.
pub const EOT: u8 = 0x04;

/// The packet arrived intact.
pub const ACK: u8 = 0x06;

/// The packet must be sent again; as a start signal, a request for checksum mode.
pub const NAK: u8 = 0x15;

/// Two in a row abort the transfer.
pub const CAN: u8 = 0x18;

/// Start signal of a receiver that wants CRC mode.
pub const CRC_REQ: u8 = 0x43;

/// Filler of the last data block.
pub const SUB: u8 = 0x1a;

// ---------------------------------------------------------------- CRC-16

/// Multiplication by `x` in GF(2)[x] modulo `x^16 + x^12 + x^5 + 1`; bit `i` is the
/// coefficient of `x^i`.
pub open spec fn times_x(c: u16) -> u16 {
    if c & 0x8000 != 0 {
        (c << 1) ^ 0x1021
    } else {
        c << 1
    }
}

/// Multiplication by `x^n` modulo the CRC polynomial.
pub open spec fn times_x_pow(c: u16, n: nat) -> u16
    decreases n,
{
    if n == 0 {
        c
    } else {
        times_x(times_x_pow(c, (n - 1) as nat))
    }
}

/// The byte as the coefficients of `x^15` to `x^8`.
pub open spec fn high_byte(b: u8) -> u16 {
    (b as u16) << 8
}

/// The remainder of `data * x^16` modulo the CRC polynomial, by Horner's rule.
pub open spec fn crc_of(data: Seq<u8>) -> u16
    decreases data.len(),
{
    if data.len() == 0 {
        0
    } else {
        times_x_pow(crc_of(data.drop_last()) ^ high_byte(data.last()), 8)
    }
}

/// CRC-16/XMODEM of `data`.
pub fn crc16(data: &[u8]) -> (crc: u16)
    ensures
        crc == crc_of(data@),
{
    let mut crc: u16 = 0;
    let mut i: usize = 0;
    while i < data.len()
        invariant
            i <= data@.len(),
            crc == crc_of(data@.take(i as int)),
        decreases data@.len() - i,
    {
        assert(data@.take(i + 1).drop_last() =~= data@.take(i as int));
        crc = crc ^ ((data[i] as u16) << 8);
        let ghost start = crc;
        let mut k: u8 = 0;
        while k < 8
            invariant
                k <= 8,
                crc == times_x_pow(start, k as nat),
            decreases 8 - k,
        {
            crc = if crc & 0x8000 != 0 {
                (crc << 1) ^ 0x1021
            } else {
                crc << 1
            };
            k = k + 1;
        }
        i = i + 1;
    }
    assert(data@.take(i as int) =~= data@);
    crc
}

// ---------------------------------------------------------------- checksum

/// The sum of the bytes.
pub open spec fn byte_sum(data: Seq<u8>) -> nat
    decreases data.len(),
{
    if data.len() == 0 {
        0
    } else {
        byte_sum(data.drop_last()) + data.last() as nat
    }
}

/// The sum of the bytes modulo 256.
pub open spec fn sum_of(data: Seq<u8>) -> u8 {
    (byte_sum(data) % 256) as u8
}

/// The arithmetic checksum of `data`.
pub fn checksum(data: &[u8]) -> (sum: u8)
    ensures
        sum == sum_of(data@),
{
    let mut sum: u8 = 0;
    let mut i: usize = 0;
    while i < data.len()
        invariant
            i <= data@.len(),
            sum == sum_of(data@.take(i as int)),
        decreases data@.len() - i,
    {
        assert(data@.take(i + 1).drop_last() =~= data@.take(i as int));
        sum = sum.wrapping_add(data[i]);
        i = i + 1;
    }
    assert(data@.take(i as int) =~= data@);
    sum
}

// ---------------------------------------------------------------- framing

/// `payload` cut or filled up to `size` bytes.
pub open spec fn padded(payload: Seq<u8>, size: nat, fill: u8) -> Seq<u8> {
    if payload.len() >= size {
        payload.take(size as int)
    } else {
        payload + Seq::new((size - payload.len()) as nat, |i: int| fill)
    }
}

/// The bytes behind a packet's body: the CRC, high byte first, or the checksum.
pub open spec fn trailer(body: Seq<u8>, crc: bool) -> Seq<u8> {
    if crc {
        seq![(crc_of(body) >> 8) as u8, (crc_of(body) & 0xff) as u8]
    } else {
        seq![sum_of(body)]
    }
}

/// The length of that trailer.
pub open spec fn trailer_len(crc: bool) -> nat {
    if crc {
        2
    } else {
        1
    }
}

/// The start byte of a packet with a body of `size` bytes.
pub open spec fn start_byte(size: nat) -> u8 {
    if size == 1024 {
        STX
    } else {
        SOH
    }
}

/// A block number's complement.
pub open spec fn complement(blk: u8) -> u8 {
    (255 - blk) as u8
}

/// The packet that carries `body` as block `blk`.
pub open spec fn framed(blk: u8, body: Seq<u8>, crc: bool) -> Seq<u8> {
    seq![start_byte(body.len()), blk, complement(blk)] + body + trailer(body, crc)
}

/// Five CAN bytes.
pub open spec fn cancel_seq() -> Seq<u8> {
    seq![CAN, CAN, CAN, CAN, CAN]
}

/// What is sent to abort a transfer.
pub fn cancel_bytes() -> (bytes: Vec<u8>)
    ensures
        bytes@ == cancel_seq(),
{
    let bytes = vec![CAN; 5];
    assert(bytes@ =~= cancel_seq());
    bytes
}

/// Appends `bytes` to `out`.
pub fn append(out: &mut Vec<u8>, bytes: &[u8])
    ensures
        final(out)@ == old(out)@ + bytes@,
{
    out.extend_from_slice(bytes);
    assert(out@ =~= old(out)@ + bytes@);
}

/// A copy of `bytes`.
pub fn copy_bytes(bytes: &[u8]) -> (copy: Vec<u8>)
    ensures
        copy@ == bytes@,
{
    let mut copy: Vec<u8> = Vec::new();
    append(&mut copy, bytes);
    assert(copy@ =~= bytes@);
    copy
}

/// Cuts `data` to `size` bytes, or fills it up with `fill`.
fn resize_with(data: &mut Vec<u8>, size: usize, fill: u8)
    ensures
        final(data)@ == padded(old(data)@, size as nat, fill),
{
    let ghost before = data@;
    data.resize(size, fill);
    proof {
        if size > before.len() {
            assert(data@.subrange(0, before.len() as int) == before);
            assert forall|i: int| 0 <= i < before.len() implies data@[i] == before[i] by {
                assert(data@.subrange(0, before.len() as int)[i] == data@[i]);
            }
        }
        assert(data@ =~= padded(before, size as nat, fill));
    }
}

/// The packet of `size` body bytes that carries `payload` as block `blk`; a short payload is
/// filled up with SUB.
pub fn make_packet(blk: u8, payload: &[u8], size: usize, crc: bool) -> (packet: Vec<u8>)
    ensures
        packet@ == framed(blk, padded(payload@, size as nat, SUB), crc),
{
    let mut data = copy_bytes(payload);
    resize_with(&mut data, size, SUB);
    let mut p: Vec<u8> = Vec::new();
    p.push(if size == 1024 { STX } else { SOH });
    p.push(blk);
    p.push(!blk);
    assert(!blk == 255 - blk) by (bit_vector);
    append(&mut p, data.as_slice());
    let ghost head = p@;
    if crc {
        let code = crc16(data.as_slice());
        p.push((code >> 8) as u8);
        p.push((code & 0xff) as u8);
    } else {
        p.push(checksum(data.as_slice()));
    }
    assert(p@ =~= framed(blk, padded(payload@, size as nat, SUB), crc));
    p
}

// ---------------------------------------------------------------- numbers

/// The digits of `n` in base `base` (at most ten), as ASCII, without leading zeros.
pub open spec fn digits(n: nat, base: nat) -> Seq<u8>
    decreases n,
{
    if base < 2 || n < base {
        seq![(48 + n) as u8]
    } else {
        proof {
            assert(n / base < n) by (nonlinear_arith)
                requires
                    n >= base,
                    base >= 2,
            ;
        }
        digits(n / base, base).push((48 + n % base) as u8)
    }
}

/// Appends the digits of `n` in base `base` to `out`.
pub fn push_digits(out: &mut Vec<u8>, n: u64, base: u64)
    requires
        2 <= base <= 10,
    ensures
        final(out)@ == old(out)@ + digits(n as nat, base as nat),
    decreases n,
{
    if n >= base {
        assert(n / base < n) by (nonlinear_arith)
            requires
                n >= base,
                base >= 2,
        ;
        push_digits(out, n / base, base);
        assert(n % base < base) by (nonlinear_arith)
            requires
                base >= 2,
        ;
        out.push(48u8 + (n % base) as u8);
    } else {
        out.push(48u8 + n as u8);
    }
    assert(out@ =~= old(out)@ + digits(n as nat, base as nat));
}

// ---------------------------------------------------------------- YMODEM header

/// What block 0 says of a file: its name in UTF-8, a NUL, then its size in decimal, its
/// modification time in octal and a fixed octal mode, parted by spaces.
pub open spec fn header_text(name: Seq<u8>, size: nat, mtime: nat) -> Seq<u8> {
    name.push(0) + digits(size, 10).push(0x20) + digits(mtime, 8) + seq![
        0x20u8,
        0x31,
        0x30,
        0x30,
        0x36,
        0x34,
        0x34,
    ]
}

/// The length of the block that carries `text`.
pub open spec fn header_size(text: Seq<u8>) -> nat {
    if text.len() > 128 {
        1024
    } else {
        128
    }
}

/// Block 0 with `text`, filled up with NUL.
pub open spec fn header_packet(text: Seq<u8>) -> Seq<u8> {
    framed(0, padded(text, header_size(text), 0), true)
}

/// Block 0 that carries `h`.
fn header_block(h: Vec<u8>) -> (packet: Vec<u8>)
    ensures
        packet@ == header_packet(h@),
{
    let mut h = h;
    let size: usize = if h.len() > 128 { 1024 } else { 128 };
    let ghost text = h@;
    resize_with(&mut h, size, 0);
    let packet = make_packet(0, h.as_slice(), size, true);
    assert(padded(h@, size as nat, SUB) =~= h@);
    packet
}

/// YMODEM's block 0: of the file with this name, size and modification time, or, for `None`, the
/// empty one that ends a batch.
pub fn ymodem_header(file: Option<(&str, u64, u64)>) -> (packet: Vec<u8>)
    ensures
        packet@ == match file {
            Some((name, size, mtime)) => header_packet(
                header_text(vstd::utf8::encode_utf8(name@), size as nat, mtime as nat),
            ),
            None => header_packet(Seq::empty()),
        },
{
    let mut h: Vec<u8> = Vec::new();
    if let Some((name, size, mtime)) = file {
        append(&mut h, name.as_bytes());
        h.push(0);
        push_digits(&mut h, size, 10);
        h.push(0x20);
        push_digits(&mut h, mtime, 8);
        h.push(0x20);
        h.push(0x31);
        h.push(0x30);
        h.push(0x30);
        h.push(0x36);
        h.push(0x34);
        h.push(0x34);
        assert(h@ =~= header_text(vstd::utf8::encode_utf8(name@), size as nat, mtime as nat));
    }
    header_block(h)
}

// ---------------------------------------------------------------- detection of errors

proof fn lemma_times_x_pow_injective(a: u16, b: u16, n: nat)
    requires
        a != b,
    ensures
        times_x_pow(a, n) != times_x_pow(b, n),
    decreases n,
{
    if n > 0 {
        lemma_times_x_pow_injective(a, b, (n - 1) as nat);
        let c = times_x_pow(a, (n - 1) as nat);
        let d = times_x_pow(b, (n - 1) as nat);
        assert(c != d ==> (if c & 0x8000 != 0 {
            (c << 1) ^ 0x1021
        } else {
            c << 1
        }) != (if d & 0x8000 != 0 {
            (d << 1) ^ 0x1021
        } else {
            d << 1
        })) by (bit_vector);
    }
}

/// The CRC of a text changes with any one of its bytes.
pub proof fn crc_notices_changed_byte(data: Seq<u8>, i: int, b: u8)
    requires
        0 <= i < data.len(),
        data[i] != b,
    ensures
        crc_of(data.update(i, b)) != crc_of(data),
    decreases data.len(),
{
    let changed = data.update(i, b);
    let c = crc_of(data.drop_last());
    if i == data.len() - 1 {
        assert(changed.drop_last() =~= data.drop_last());
        let x = data.last();
        assert(x != b ==> c ^ ((x as u16) << 8) != c ^ ((b as u16) << 8)) by (bit_vector);
        lemma_times_x_pow_injective(c ^ high_byte(x), c ^ high_byte(b), 8);
    } else {
        crc_notices_changed_byte(data.drop_last(), i, b);
        assert(changed.drop_last() =~= data.drop_last().update(i, b));
        let d = crc_of(changed.drop_last());
        let h = high_byte(data.last());
        assert(c != d ==> c ^ h != d ^ h) by (bit_vector);
        lemma_times_x_pow_injective(c ^ h, d ^ h, 8);
    }
}

proof fn lemma_byte_sum_update(data: Seq<u8>, i: int, b: u8)
    requires
        0 <= i < data.len(),
    ensures
        byte_sum(data.update(i, b)) == byte_sum(data) - data[i] + b,
    decreases data.len(),
{
    let changed = data.update(i, b);
    if i == data.len() - 1 {
        assert(changed.drop_last() =~= data.drop_last());
    } else {
        lemma_byte_sum_update(data.drop_last(), i, b);
        assert(changed.drop_last() =~= data.drop_last().update(i, b));
    }
}

/// The checksum of a text changes with any one of its bytes.
pub proof fn checksum_notices_changed_byte(data: Seq<u8>, i: int, b: u8)
    requires
        0 <= i < data.len(),
        data[i] != b,
    ensures
        sum_of(data.update(i, b)) != sum_of(data),
{
    lemma_byte_sum_update(data, i, b);
}

/// A packet's trailer changes with any one byte of its body.
pub proof fn trailer_notices_changed_byte(body: Seq<u8>, i: int, b: u8, crc: bool)
    requires
        0 <= i < body.len(),
        body[i] != b,
    ensures
        trailer(body.update(i, b), crc) != trailer(body, crc),
{
    let t = trailer(body, crc);
    let u = trailer(body.update(i, b), crc);
    if crc {
        crc_notices_changed_byte(body, i, b);
        let c = crc_of(body);
        let d = crc_of(body.update(i, b));
        assert(c != d ==> (c >> 8) as u8 != (d >> 8) as u8 || (c & 0xff) as u8 != (d & 0xff) as u8)
            by (bit_vector);
        assert(t[0] != u[0] || t[1] != u[1]);
    } else {
        checksum_notices_changed_byte(body, i, b);
        assert(t[0] != u[0]);
    }
}

// ---------------------------------------------------------------- what the codes are

/// The CRC goes on byte by byte: the next one follows from the last one and the byte alone, by
/// shifts of their sum, the same way at every length.
pub proof fn crc_goes_on_bytewise(data: Seq<u8>, b: u8)
    ensures
        crc_of(Seq::empty()) == 0,
        ({
            let c = crc_of(data);
            let x = (c >> 8) ^ (b as u16);
            let y = x ^ (x >> 4);
            crc_of(data.push(b)) == (c << 8) ^ (y << 12) ^ (y << 5) ^ y
        }),
{
    reveal_with_fuel(times_x_pow, 9);
    let c = crc_of(data);
    assert(data.push(b).drop_last() =~= data);
    let s0 = c ^ ((b as u16) << 8);
    let s1 = times_x(s0);
    let s2 = times_x(s1);
    let s3 = times_x(s2);
    let s4 = times_x(s3);
    let s5 = times_x(s4);
    let s6 = times_x(s5);
    let s7 = times_x(s6);
    let s8 = times_x(s7);
    assert(crc_of(data.push(b)) == s8);
    let x = (c >> 8) ^ (b as u16);
    let y = x ^ (x >> 4);
    assert(s8 == (c << 8) ^ (y << 12) ^ (y << 5) ^ y) by (bit_vector)
        requires
            s0 == c ^ ((b as u16) << 8),
            s1 == (if s0 & 0x8000 != 0 { (s0 << 1) ^ 0x1021 } else { s0 << 1 }),
            s2 == (if s1 & 0x8000 != 0 { (s1 << 1) ^ 0x1021 } else { s1 << 1 }),
            s3 == (if s2 & 0x8000 != 0 { (s2 << 1) ^ 0x1021 } else { s2 << 1 }),
            s4 == (if s3 & 0x8000 != 0 { (s3 << 1) ^ 0x1021 } else { s3 << 1 }),
            s5 == (if s4 & 0x8000 != 0 { (s4 << 1) ^ 0x1021 } else { s4 << 1 }),
            s6 == (if s5 & 0x8000 != 0 { (s5 << 1) ^ 0x1021 } else { s5 << 1 }),
            s7 == (if s6 & 0x8000 != 0 { (s6 << 1) ^ 0x1021 } else { s6 << 1 }),
            s8 == (if s7 & 0x8000 != 0 { (s7 << 1) ^ 0x1021 } else { s7 << 1 }),
            x == (c >> 8) ^ (b as u16),
            y == x ^ (x >> 4),
    ;
}

/// A text with its own CRC behind it, high byte first, has the CRC 0.
pub proof fn crc_of_text_with_crc_is_zero(data: Seq<u8>)
    ensures
        crc_of(data + seq![(crc_of(data) >> 8) as u8, (crc_of(data) & 0xff) as u8]) == 0,
        crc_of(data + trailer(data, true)) == 0,
{
    let c = crc_of(data);
    let hi = (c >> 8) as u8;
    let lo = (c & 0xff) as u8;
    let d = crc_of(data.push(hi));
    crc_goes_on_bytewise(data, hi);
    crc_goes_on_bytewise(data.push(hi), lo);
    assert(data + seq![hi, lo] =~= data.push(hi).push(lo));
    let x = (c >> 8) ^ (hi as u16);
    let y = x ^ (x >> 4);
    assert(d == c << 8) by (bit_vector)
        requires
            hi == (c >> 8) as u8,
            x == (c >> 8) ^ (hi as u16),
            y == x ^ (x >> 4),
            d == (c << 8) ^ (y << 12) ^ (y << 5) ^ y,
    ;
    let v = (d >> 8) ^ (lo as u16);
    let w = v ^ (v >> 4);
    let e = (d << 8) ^ (w << 12) ^ (w << 5) ^ w;
    assert(e == 0) by (bit_vector)
        requires
            d == c << 8,
            lo == (c & 0xff) as u8,
            v == (d >> 8) ^ (lo as u16),
            w == v ^ (v >> 4),
            e == (d << 8) ^ (w << 12) ^ (w << 5) ^ w,
    ;
}

/// The bytewise sum without carry of two texts of one length.
pub open spec fn xored(a: Seq<u8>, b: Seq<u8>) -> Seq<u8> {
    Seq::new(a.len(), |i: int| a[i] ^ b[i])
}

/// The CRC of a sum without carry is the sum of the CRCs.
pub proof fn crc_is_linear(a: Seq<u8>, b: Seq<u8>)
    requires
        a.len() == b.len(),
    ensures
        crc_of(xored(a, b)) == crc_of(a) ^ crc_of(b),
    decreases a.len(),
{
    let s = xored(a, b);
    if a.len() == 0 {
        assert(0u16 ^ 0u16 == 0u16) by (bit_vector);
    } else {
        let (p, q) = (a.drop_last(), b.drop_last());
        let (m, n) = (a.last(), b.last());
        crc_is_linear(p, q);
        assert(s =~= xored(p, q).push(m ^ n));
        assert(a =~= p.push(m));
        assert(b =~= q.push(n));
        crc_goes_on_bytewise(p, m);
        crc_goes_on_bytewise(q, n);
        crc_goes_on_bytewise(xored(p, q), m ^ n);
        let (c, d) = (crc_of(p), crc_of(q));
        let x = (c >> 8) ^ (m as u16);
        let y = x ^ (x >> 4);
        let u = (d >> 8) ^ (n as u16);
        let v = u ^ (u >> 4);
        let e = c ^ d;
        let z = (e >> 8) ^ ((m ^ n) as u16);
        let w = z ^ (z >> 4);
        assert((e << 8) ^ (w << 12) ^ (w << 5) ^ w == ((c << 8) ^ (y << 12) ^ (y << 5) ^ y) ^ ((d
            << 8) ^ (v << 12) ^ (v << 5) ^ v)) by (bit_vector)
            requires
                e == c ^ d,
                x == (c >> 8) ^ (m as u16),
                y == x ^ (x >> 4),
                u == (d >> 8) ^ (n as u16),
                v == u ^ (u >> 4),
                z == (e >> 8) ^ ((m ^ n) as u16),
                w == z ^ (z >> 4),
        ;
    }
}

/// Zero bytes in front of a text do not change its CRC.
pub proof fn crc_ignores_leading_zeros(data: Seq<u8>)
    ensures
        crc_of(seq![0u8] + data) == crc_of(data),
    decreases data.len(),
{
    let z = seq![0u8] + data;
    if data.len() == 0 {
        crc_goes_on_bytewise(Seq::empty(), 0);
        assert(z =~= Seq::<u8>::empty().push(0));
        let x = (0u16 >> 8) ^ (0u8 as u16);
        let y = x ^ (x >> 4);
        assert((0u16 << 8) ^ (y << 12) ^ (y << 5) ^ y == 0) by (bit_vector)
            requires
                x == (0u16 >> 8) ^ (0u8 as u16),
                y == x ^ (x >> 4),
        ;
        assert(data =~= Seq::empty());
    } else {
        let p = data.drop_last();
        crc_ignores_leading_zeros(p);
        assert(z =~= (seq![0u8] + p).push(data.last()));
        assert(data =~= p.push(data.last()));
        crc_goes_on_bytewise(seq![0u8] + p, data.last());
        crc_goes_on_bytewise(p, data.last());
    }
}

/// Only the CRC of what came before counts for what comes after: where two beginnings have one
/// CRC, so have they with the same text behind.
pub proof fn crc_of_beginning_is_enough(a: Seq<u8>, b: Seq<u8>, rest: Seq<u8>)
    requires
        crc_of(a) == crc_of(b),
    ensures
        crc_of(a + rest) == crc_of(b + rest),
    decreases rest.len(),
{
    if rest.len() == 0 {
        assert(a + rest =~= a);
        assert(b + rest =~= b);
    } else {
        let p = rest.drop_last();
        crc_of_beginning_is_enough(a, b, p);
        assert(a + rest =~= (a + p).push(rest.last()));
        assert(b + rest =~= (b + p).push(rest.last()));
        crc_goes_on_bytewise(a + p, rest.last());
        crc_goes_on_bytewise(b + p, rest.last());
    }
}

proof fn lemma_byte_sum_joined(a: Seq<u8>, b: Seq<u8>)
    ensures
        byte_sum(a + b) == byte_sum(a) + byte_sum(b),
    decreases b.len(),
{
    if b.len() == 0 {
        assert(a + b =~= a);
    } else {
        lemma_byte_sum_joined(a, b.drop_last());
        assert((a + b).drop_last() =~= a + b.drop_last());
    }
}

/// The checksum of a joined text is the sum of the checksums modulo 256, that of one byte is the
/// byte, and that of nothing is 0.
pub proof fn checksum_adds_up(a: Seq<u8>, b: Seq<u8>, x: u8)
    ensures
        sum_of(a + b) == (sum_of(a) + sum_of(b)) % 256,
        sum_of(seq![x]) == x,
        sum_of(Seq::empty()) == 0,
{
    assert(byte_sum(seq![x]) == x) by {
        assert(seq![x].drop_last() =~= Seq::empty());
        assert(byte_sum(seq![x].drop_last()) == 0);
    }
    lemma_byte_sum_joined(a, b);
    let (m, n) = (byte_sum(a), byte_sum(b));
    assert((m + n) % 256 == (m % 256 + n % 256) % 256) by (nonlinear_arith);
}

// ---------------------------------------------------------------- what packets are

/// The control bytes are those of the XMODEM family.
pub proof fn control_bytes_are_those_of_the_family()
    ensures
        SOH == 0x01 && STX == 0x02 && EOT == 0x04 && ACK == 0x06,
        NAK == 0x15 && CAN == 0x18 && CRC_REQ == 0x43 && SUB == 0x1a,
        cancel_seq().len() == 5,
        forall|i: int| 0 <= i < 5 ==> cancel_seq()[i] == 0x18,
{
}

/// A filled-up text has the size asked for, begins with the text as far as that goes, and goes on
/// with the filler.
pub proof fn filling_up_keeps_the_text(payload: Seq<u8>, size: nat, fill: u8)
    ensures
        padded(payload, size, fill).len() == size,
        forall|i: int|
            0 <= i < size ==> #[trigger] padded(payload, size, fill)[i] == if i < payload.len() {
                payload[i]
            } else {
                fill
            },
{
}

/// A packet is one start byte that tells its size, the block number, 255 minus that, the body,
/// and then the CRC, high byte first, or one byte of checksum.
pub proof fn packet_layout(blk: u8, body: Seq<u8>, crc: bool)
    requires
        body.len() == 128 || body.len() == 1024,
    ensures
        ({
            let p = framed(blk, body, crc);
            let n = body.len() as int;
            &&& p.len() == n + (if crc {
                5int
            } else {
                4int
            })
            &&& p[0] == if n == 128 {
                0x01u8
            } else {
                0x02u8
            }
            &&& p[1] == blk
            &&& p[1] + p[2] == 255
            &&& p.subrange(3, 3 + n) == body
            &&& crc ==> p[3 + n] * 256 + p[4 + n] == crc_of(body)
            &&& !crc ==> p[3 + n] == sum_of(body)
        }),
{
    let p = framed(blk, body, crc);
    let n = body.len() as int;
    assert(p.subrange(3, 3 + n) =~= body);
    let c = crc_of(body);
    assert(((c >> 8) as u8) as u16 * 256 + ((c & 0xff) as u8) as u16 == c) by (bit_vector);
}

/// The number that ASCII digits spell in base `base`.
pub open spec fn spelled(d: Seq<u8>, base: nat) -> nat
    decreases d.len(),
{
    if d.len() == 0 {
        0
    } else {
        spelled(d.drop_last(), base) * base + (d.last() - 48) as nat
    }
}

/// The digits of a number spell it, are digits of the base, and do not start with a zero unless
/// the number is zero.
pub proof fn digits_spell_the_number(n: nat, base: nat)
    requires
        2 <= base <= 10,
    ensures
        digits(n, base).len() > 0,
        spelled(digits(n, base), base) == n,
        forall|i: int|
            0 <= i < digits(n, base).len() ==> 48 <= #[trigger] digits(n, base)[i] < 48 + base,
        n > 0 ==> digits(n, base)[0] != 48,
        n == 0 ==> digits(n, base) == seq![48u8],
    decreases n,
{
    let d = digits(n, base);
    if n < base {
        assert(d.drop_last() =~= Seq::empty());
        assert(spelled(d.drop_last(), base) == 0);
        assert(0 * base == 0) by (nonlinear_arith);
    } else {
        assert(0 < n / base < n && (n / base) * base + n % base == n && n % base < base)
            by (nonlinear_arith)
            requires
                n >= base,
                base >= 2,
        ;
        digits_spell_the_number(n / base, base);
        assert(d.drop_last() =~= digits(n / base, base));
        assert(d.last() == (48 + n % base) as u8);
        assert forall|i: int| 0 <= i < d.len() implies 48 <= #[trigger] d[i] < 48 + base by {
            if i < d.len() - 1 {
                assert(d[i] == d.drop_last()[i]);
            }
        }
        assert(d[0] == d.drop_last()[0]);
    }
}

/// What block 0 says of a file is its name, a NUL, its length in decimal, a space, its time in
/// octal, and ` 100644`.
pub proof fn header_text_layout(name: Seq<u8>, size: nat, mtime: nat)
    ensures
        exists|d: Seq<u8>, o: Seq<u8>|
            {
                &&& #[trigger] spelled(d, 10) == size
                &&& #[trigger] spelled(o, 8) == mtime
                &&& d.len() > 0 && o.len() > 0
                &&& forall|i: int| 0 <= i < d.len() ==> (0x30 <= #[trigger] d[i] && d[i] <= 0x39)
                &&& forall|i: int| 0 <= i < o.len() ==> (0x30 <= #[trigger] o[i] && o[i] <= 0x37)
                &&& header_text(name, size, mtime) == name + seq![0u8] + d + seq![0x20u8] + o
                    + seq![0x20u8, 0x31, 0x30, 0x30, 0x36, 0x34, 0x34]
            },
{
    let d = digits(size, 10);
    let o = digits(mtime, 8);
    digits_spell_the_number(size, 10);
    digits_spell_the_number(mtime, 8);
    assert(header_text(name, size, mtime) =~= name + seq![0u8] + d + seq![0x20u8] + o + seq![
        0x20u8,
        0x31,
        0x30,
        0x30,
        0x36,
        0x34,
        0x34,
    ]);
    assert(spelled(d, 10) == size && spelled(o, 8) == mtime);
}

/// Block 0 is a packet with number 0 and a CRC; its body begins with its text and is filled up
/// with NUL to 128 bytes, or to 1024 where the text is longer.
pub proof fn header_packet_layout(text: Seq<u8>)
    ensures
        ({
            let p = header_packet(text);
            let n: int = if text.len() <= 128 {
                128
            } else {
                1024
            };
            &&& p.len() == n + 5
            &&& p[0] == if n == 128 {
                0x01u8
            } else {
                0x02u8
            }
            &&& p[1] == 0 && p[2] == 255
            &&& forall|i: int|
                0 <= i < n ==> #[trigger] p[3 + i] == if i < text.len() {
                    text[i]
                } else {
                    0
                }
            &&& p[3 + n] * 256 + p[4 + n] == crc_of(p.subrange(3, 3 + n))
        }),
{
    let body = padded(text, header_size(text), 0);
    filling_up_keeps_the_text(text, header_size(text), 0);
    packet_layout(0, body, true);
    let p = header_packet(text);
    assert forall|i: int| 0 <= i < body.len() implies #[trigger] p[3 + i] == body[i] by {
        assert(p.subrange(3, 3 + body.len() as int)[i] == p[3 + i]);
    }
}

} // verus!
