//! Bounds-checked big-endian primitives and the domain-name codec.

use vstd::prelude::*;

use crate::errors::DeserializationError;

verus! {

/// The 16-bit value stored big-endian in two bytes.
pub open spec fn u16_of_be_bytes(b0: u8, b1: u8) -> u16 {
    (b0 as u16 * 256 + b1 as u16) as u16
}

/// The 32-bit value stored big-endian in four bytes.
pub open spec fn u32_of_be_bytes(b0: u8, b1: u8, b2: u8, b3: u8) -> u32 {
    (b0 as u32 * 0x1000000 + b1 as u32 * 0x10000 + b2 as u32 * 0x100 + b3 as u32) as u32
}

/// The two big-endian bytes of a 16-bit value, most significant first.
pub open spec fn be_bytes_of_u16(x: u16) -> Seq<u8> {
    seq![(x / 256) as u8, (x % 256) as u8]
}

/// The four big-endian bytes of a 32-bit value, most significant first.
pub open spec fn be_bytes_of_u32(x: u32) -> Seq<u8> {
    seq![
        (x / 0x1000000) as u8,
        ((x / 0x10000) % 256) as u8,
        ((x / 0x100) % 256) as u8,
        (x % 256) as u8,
    ]
}

/// Writing a 16-bit value big-endian and reading it back gives the value back.
pub proof fn lemma_u16_be_round_trip(x: u16)
    ensures
        u16_of_be_bytes(be_bytes_of_u16(x)[0], be_bytes_of_u16(x)[1]) == x,
{
}

/// Writing a 32-bit value big-endian and reading it back gives the value back.
pub proof fn lemma_u32_be_round_trip(x: u32)
    ensures
        u32_of_be_bytes(
            be_bytes_of_u32(x)[0],
            be_bytes_of_u32(x)[1],
            be_bytes_of_u32(x)[2],
            be_bytes_of_u32(x)[3],
        ) == x,
{
}

/// Reads a 16-bit big-endian integer from `buf` starting at `at`; fails if
/// fewer than two bytes remain from that offset.
pub fn parse_u16_from_be_bytes(buf: &[u8], at: usize) -> (r: Result<u16, DeserializationError>)
    ensures
        at + 2 <= buf@.len() ==> r == Ok::<u16, DeserializationError>(
            u16_of_be_bytes(buf@[at as int], buf@[at + 1]),
        ),
        at + 2 > buf@.len() ==> r == Err::<u16, DeserializationError>(
            DeserializationError::UnexpectedEOF,
        ),
{
    if at >= buf.len() || buf.len() - at < 2 {
        return Err(DeserializationError::UnexpectedEOF);
    }
    Ok(buf[at] as u16 * 256 + buf[at + 1] as u16)
}

/// Reads a 32-bit big-endian integer from `buf` starting at `at`; fails if
/// fewer than four bytes remain from that offset.
pub fn parse_u32_from_be_bytes(buf: &[u8], at: usize) -> (r: Result<u32, DeserializationError>)
    ensures
        at + 4 <= buf@.len() ==> r == Ok::<u32, DeserializationError>(
            u32_of_be_bytes(buf@[at as int], buf@[at + 1], buf@[at + 2], buf@[at + 3]),
        ),
        at + 4 > buf@.len() ==> r == Err::<u32, DeserializationError>(
            DeserializationError::UnexpectedEOF,
        ),
{
    if at >= buf.len() || buf.len() - at < 4 {
        return Err(DeserializationError::UnexpectedEOF);
    }
    let b0 = buf[at] as u32;
    let b1 = buf[at + 1] as u32;
    let b2 = buf[at + 2] as u32;
    let b3 = buf[at + 3] as u32;
    Ok(b0 * 0x1000000 + b1 * 0x10000 + b2 * 0x100 + b3)
}

/// How many nested compression pointers a decode will follow before failing.
pub const MAX_POINTER_DEPTH: usize = 3;

/// What decoding a domain name at `pos` in `buf`, with `depth` pointer jumps
/// already taken, returns: the fully expanded name bytes (length-prefixed
/// labels ending in a zero byte, pointers resolved) and the absolute offset
/// just past the bytes the name occupies at `pos` itself.
///
/// A name ends only at a zero byte or at a compression pointer; a buffer that
/// runs out before either is an error. A pointer must target a strictly
/// smaller offset, and at most `MAX_POINTER_DEPTH` jumps may be chained.
pub open spec fn spec_parse_name(buf: Seq<u8>, pos: nat, depth: nat) -> Result<
    (Seq<u8>, nat),
    DeserializationError,
>
    decreases MAX_POINTER_DEPTH + 1 - depth, buf.len() - pos,
{
    if depth > MAX_POINTER_DEPTH {
        Err(DeserializationError::CompressionTooDeep)
    } else if pos >= buf.len() {
        Err(DeserializationError::UnexpectedEOF)
    } else {
        let b = buf[pos as int];
        if b == 0 {
            Ok((seq![0u8], (pos + 1) as nat))
        } else if (b & 0xc0) >> 6 == 3 {
            if pos + 2 > buf.len() {
                Err(DeserializationError::UnexpectedEOF)
            } else {
                let target = (u16_of_be_bytes(b, buf[pos as int + 1]) & 0x3fff) as nat;
                if target >= pos {
                    Err(DeserializationError::InvalidCompressionPointer)
                } else {
                    match spec_parse_name(buf, target, depth + 1) {
                        Ok((sub, _)) => Ok((sub, pos + 2)),
                        Err(e) => Err(e),
                    }
                }
            }
        } else {
            let label_end = (pos + b + 1) as nat;
            if label_end > buf.len() {
                Err(DeserializationError::UnexpectedEOF)
            } else {
                match spec_parse_name(buf, label_end, depth) {
                    Ok((rest, end)) => Ok(
                        (buf.subrange(pos as int, label_end as int) + rest, end),
                    ),
                    Err(e) => Err(e),
                }
            }
        }
    }
}

/// Whether the executable decode result agrees with the specification-level
/// one: same success or failure, same expanded bytes, same end offset.
pub open spec fn name_parse_matches(
    r: Result<(Vec<u8>, usize), DeserializationError>,
    s: Result<(Seq<u8>, nat), DeserializationError>,
) -> bool {
    match (r, s) {
        (Ok(p), Ok(q)) => p.0@ == q.0 && p.1 as nat == q.1,
        (Err(e1), Err(e2)) => e1 == e2,
        _ => false,
    }
}

/// A successful name decode starts inside the buffer and ends past at least
/// one consumed byte, never past the buffer.
pub proof fn lemma_parse_name_end_bounds(buf: Seq<u8>, pos: nat, depth: nat)
    ensures
        spec_parse_name(buf, pos, depth) matches Ok(p) ==> pos < buf.len() && pos + 1 <= p.1
            <= buf.len(),
    decreases MAX_POINTER_DEPTH + 1 - depth, buf.len() - pos,
{
    if depth <= MAX_POINTER_DEPTH && pos < buf.len() {
        let b = buf[pos as int];
        if b == 0 {
        } else if (b & 0xc0) >> 6 == 3 {
        } else {
            if pos + b + 1 <= buf.len() {
                lemma_parse_name_end_bounds(buf, pos + b as nat + 1, depth);
            }
        }
    }
}

/// Whether `s` is a well-formed uncompressed wire-form domain name: one or
/// more length-prefixed labels (a length byte whose top two bits are not `11`,
/// followed by that many label bytes) ending in a single zero byte.
pub open spec fn is_wire_name(s: Seq<u8>) -> bool
    decreases s.len(),
{
    s.len() > 0 && (if s[0] == 0 {
        s.len() == 1
    } else {
        &&& (s[0] & 0xc0) >> 6 != 3
        &&& s[0] + 1 < s.len()
        &&& is_wire_name(s.subrange(s[0] + 1, s.len() as int))
    })
}

/// A well-formed uncompressed name embedded anywhere in a buffer decodes to
/// exactly itself, consuming exactly its own bytes, whatever surrounds it and
/// at any admissible pointer depth.
pub proof fn lemma_parse_wire_name_in_context(buf: Seq<u8>, pos: nat, depth: nat, n: Seq<u8>)
    requires
        is_wire_name(n),
        depth <= MAX_POINTER_DEPTH,
        pos + n.len() <= buf.len(),
        buf.subrange(pos as int, (pos + n.len()) as int) == n,
    ensures
        spec_parse_name(buf, pos, depth) == Ok::<(Seq<u8>, nat), DeserializationError>(
            (n, (pos + n.len()) as nat),
        ),
    decreases n.len(),
{
    assert(buf[pos as int] == n[0]);
    let b = n[0];
    if b == 0 {
        assert(seq![0u8] =~= n);
    } else {
        let label_end = pos + b as nat + 1;
        let rest = n.subrange(b + 1, n.len() as int);
        assert(buf.subrange(label_end as int, (pos + n.len()) as int) =~= rest);
        lemma_parse_wire_name_in_context(buf, label_end, depth, rest);
        assert(buf.subrange(pos as int, label_end as int) + rest =~= n);
    }
}

/// Round trip for domain names: since a decoded name is re-emitted unchanged
/// (encoding never re-compresses), decoding a well-formed uncompressed name
/// from offset zero yields the name itself.
pub proof fn lemma_name_round_trip(n: Seq<u8>, depth: nat)
    requires
        is_wire_name(n),
        depth <= MAX_POINTER_DEPTH,
    ensures
        spec_parse_name(n, 0, depth) == Ok::<(Seq<u8>, nat), DeserializationError>(
            (n, n.len() as nat),
        ),
{
    assert(n.subrange(0, n.len() as int) =~= n);
    lemma_parse_wire_name_in_context(n, 0, depth, n);
}

/// Whatever a name decode expands — plain labels, or labels reached through
/// compression pointers — is itself a well-formed uncompressed name.
pub proof fn lemma_parse_name_yields_wire_name(buf: Seq<u8>, pos: nat, depth: nat)
    ensures
        spec_parse_name(buf, pos, depth) matches Ok(p) ==> is_wire_name(p.0),
    decreases MAX_POINTER_DEPTH + 1 - depth, buf.len() - pos,
{
    if depth <= MAX_POINTER_DEPTH && pos < buf.len() {
        let b = buf[pos as int];
        if b == 0 {
        } else if (b & 0xc0) >> 6 == 3 {
            if pos + 2 <= buf.len() {
                let target = (u16_of_be_bytes(b, buf[pos as int + 1]) & 0x3fff) as nat;
                if target < pos {
                    lemma_parse_name_yields_wire_name(buf, target, depth + 1);
                }
            }
        } else {
            let label_end = (pos + b + 1) as nat;
            if label_end <= buf.len() {
                lemma_parse_name_yields_wire_name(buf, label_end, depth);
                if spec_parse_name(buf, label_end, depth) is Ok {
                    let rest = spec_parse_name(buf, label_end, depth)->Ok_0.0;
                    let label = buf.subrange(pos as int, label_end as int);
                    let whole = label + rest;
                    lemma_parse_name_end_bounds(buf, label_end, depth);
                    assert(whole[0] == b);
                    assert(whole.subrange(b + 1, whole.len() as int) =~= rest);
                }
            }
        }
    }
}

/// A pointer whose 14-bit target offset is at or beyond its own position
/// fails the decode, whatever else the buffer holds.
pub proof fn lemma_pointer_must_point_backward(buf: Seq<u8>, pos: nat, depth: nat)
    requires
        depth <= MAX_POINTER_DEPTH,
        pos + 2 <= buf.len(),
        (buf[pos as int] & 0xc0) >> 6 == 3,
        (u16_of_be_bytes(buf[pos as int], buf[pos as int + 1]) & 0x3fff) >= pos,
    ensures
        spec_parse_name(buf, pos, depth) == Err::<(Seq<u8>, nat), DeserializationError>(
            DeserializationError::InvalidCompressionPointer,
        ),
{
    let b = buf[pos as int];
    assert(b != 0) by (bit_vector)
        requires
            (b & 0xc0) >> 6 == 3,
    ;
}

/// Following a valid backward pointer consumes the two pointer bytes, spends
/// one unit of the depth budget, and otherwise returns whatever the target
/// name expands to.
pub proof fn lemma_pointer_jump(buf: Seq<u8>, pos: nat, depth: nat)
    requires
        depth <= MAX_POINTER_DEPTH,
        pos + 2 <= buf.len(),
        (buf[pos as int] & 0xc0) >> 6 == 3,
        (u16_of_be_bytes(buf[pos as int], buf[pos as int + 1]) & 0x3fff) < pos,
    ensures
        spec_parse_name(buf, pos, depth) == (match spec_parse_name(
            buf,
            (u16_of_be_bytes(buf[pos as int], buf[pos as int + 1]) & 0x3fff) as nat,
            depth + 1,
        ) {
            Ok(p) => Ok::<(Seq<u8>, nat), DeserializationError>((p.0, (pos + 2) as nat)),
            Err(e) => Err::<(Seq<u8>, nat), DeserializationError>(e),
        }),
{
    let b = buf[pos as int];
    assert(b != 0) by (bit_vector)
        requires
            (b & 0xc0) >> 6 == 3,
    ;
}

/// A chain of pointers nested deeper than `MAX_POINTER_DEPTH` fails: once the
/// budget is spent, any further name decode is refused outright.
pub proof fn lemma_pointer_chain_too_deep(buf: Seq<u8>, pos: nat, depth: nat)
    requires
        depth > MAX_POINTER_DEPTH,
    ensures
        spec_parse_name(buf, pos, depth) == Err::<(Seq<u8>, nat), DeserializationError>(
            DeserializationError::CompressionTooDeep,
        ),
{
}

/// Appends `src[from..to]` to `dst`.
pub(crate) fn push_range(dst: &mut Vec<u8>, src: &[u8], from: usize, to: usize)
    requires
        from <= to <= src@.len(),
    ensures
        final(dst)@ == old(dst)@ + src@.subrange(from as int, to as int),
{
    let mut i = from;
    while i < to
        invariant
            from <= i <= to <= src@.len(),
            dst@ == old(dst)@ + src@.subrange(from as int, i as int),
        decreases to - i,
    {
        dst.push(src[i]);
        i = i + 1;
        assert(dst@ =~= old(dst)@ + src@.subrange(from as int, i as int));
    }
    assert(dst@ =~= old(dst)@ + src@.subrange(from as int, to as int));
}

/// A byte string laid down inside a buffer splits there as it splits on its
/// own: the first `k` bytes and the remainder each occupy their own range.
pub proof fn lemma_subrange_split(buf: Seq<u8>, pos: nat, whole: Seq<u8>, k: nat)
    requires
        k <= whole.len(),
        pos + whole.len() <= buf.len(),
        buf.subrange(pos as int, (pos + whole.len()) as int) == whole,
    ensures
        buf.subrange(pos as int, (pos + k) as int) == whole.subrange(0, k as int),
        buf.subrange((pos + k) as int, (pos + whole.len()) as int) == whole.subrange(
            k as int,
            whole.len() as int,
        ),
{
    assert(buf.subrange(pos as int, (pos + k) as int) =~= whole.subrange(0, k as int));
    assert(buf.subrange((pos + k) as int, (pos + whole.len()) as int) =~= whole.subrange(
        k as int,
        whole.len() as int,
    ));
}

/// A fresh copy of a byte string.
pub(crate) fn copy_bytes(src: &[u8]) -> (r: Vec<u8>)
    ensures
        r@ == src@,
{
    let mut out: Vec<u8> = Vec::new();
    push_range(&mut out, src, 0, src.len());
    proof {
        assert(src@.subrange(0, src@.len() as int) =~= src@);
    }
    out
}

/// Appends the two big-endian bytes of `x` to `out`.
pub fn push_u16_be(out: &mut Vec<u8>, x: u16)
    ensures
        final(out)@ == old(out)@ + be_bytes_of_u16(x),
{
    let ghost before = out@;
    out.push((x / 256) as u8);
    out.push((x % 256) as u8);
    proof {
        assert(out@ =~= before + be_bytes_of_u16(x));
    }
}

/// Appends the four big-endian bytes of `x` to `out`.
pub fn push_u32_be(out: &mut Vec<u8>, x: u32)
    ensures
        final(out)@ == old(out)@ + be_bytes_of_u32(x),
{
    let ghost before = out@;
    out.push((x / 0x1000000) as u8);
    out.push(((x / 0x10000) % 256) as u8);
    out.push(((x / 0x100) % 256) as u8);
    out.push((x % 256) as u8);
    proof {
        assert(out@ =~= before + be_bytes_of_u32(x));
    }
}

/// Decodes a (possibly compressed) domain name starting at `start`, returning
/// the expanded name bytes and the absolute offset just past the name.
pub fn parse_domain_name(buf: &[u8], start: usize) -> (r: Result<
    (Vec<u8>, usize),
    DeserializationError,
>)
    ensures
        name_parse_matches(r, spec_parse_name(buf@, start as nat, 0)),
{
    parse_domain_name_impl(buf, start, 0)
}

/// Decodes a domain name at `start` with `depth` pointer jumps already taken.
pub fn parse_domain_name_impl(buf: &[u8], start: usize, depth: usize) -> (r: Result<
    (Vec<u8>, usize),
    DeserializationError,
>)
    ensures
        name_parse_matches(r, spec_parse_name(buf@, start as nat, depth as nat)),
    decreases MAX_POINTER_DEPTH + 1 - depth,
{
    if depth > MAX_POINTER_DEPTH {
        return Err(DeserializationError::CompressionTooDeep);
    }

    let mut current_pos = start;
    let mut domain_name_bytes: Vec<u8> = Vec::new();

    loop
        invariant
            depth <= MAX_POINTER_DEPTH,
            start <= current_pos,
            spec_parse_name(buf@, start as nat, depth as nat) == (match spec_parse_name(
                buf@,
                current_pos as nat,
                depth as nat,
            ) {
                Ok(p) => Ok::<(Seq<u8>, nat), DeserializationError>(
                    (domain_name_bytes@ + p.0, p.1),
                ),
                Err(e) => Err::<(Seq<u8>, nat), DeserializationError>(e),
            }),
        decreases buf@.len() - current_pos,
    {
        if current_pos >= buf.len() {
            // the buffer ran out before a terminator or pointer ended the name
            return Err(DeserializationError::UnexpectedEOF);
        }
        let length_byte = buf[current_pos];

        // first way a name can end: a zero octet
        if length_byte == 0 {
            let ghost before = domain_name_bytes@;
            domain_name_bytes.push(0);
            assert(domain_name_bytes@ =~= before + seq![0u8]);
            return Ok((domain_name_bytes, current_pos + 1));
        }

        // second way a name can end: a compression pointer
        let is_compressed_pointer = ((length_byte & 0xc0) >> 6) == 0b11;
        if is_compressed_pointer {
            let word = match parse_u16_from_be_bytes(buf, current_pos) {
                Ok(w) => w,
                Err(e) => {
                    return Err(e);
                },
            };
            let target_offset = (word & 0x3fff) as usize;
            if target_offset >= current_pos {
                return Err(DeserializationError::InvalidCompressionPointer);
            }
            let label = match parse_domain_name_impl(buf, target_offset, depth + 1) {
                Ok(p) => p.0,
                Err(e) => {
                    return Err(e);
                },
            };
            push_range(&mut domain_name_bytes, label.as_slice(), 0, label.len());
            proof {
                assert(label@.subrange(0, label@.len() as int) =~= label@);
            }
            return Ok((domain_name_bytes, current_pos + 2));
        }

        // otherwise the byte is a label length; the label is that many bytes
        // after the length byte, copied verbatim
        let length = length_byte as usize;
        if length + 1 > buf.len() - current_pos {
            return Err(DeserializationError::UnexpectedEOF);
        }
        let label_end = current_pos + length + 1;
        let ghost before = domain_name_bytes@;
        push_range(&mut domain_name_bytes, buf, current_pos, label_end);
        proof {
            let spec_rest = spec_parse_name(buf@, label_end as nat, depth as nat);
            if spec_rest is Ok {
                let p = spec_rest->Ok_0;
                assert(before + (buf@.subrange(current_pos as int, label_end as int) + p.0) =~= (
                before + buf@.subrange(current_pos as int, label_end as int)) + p.0);
            }
        }
        current_pos = label_end;
    }
}

} // verus!
