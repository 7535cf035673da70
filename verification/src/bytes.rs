use vstd::prelude::*;

verus! {

/// Why a buffer failed to decode under a given version's layout.
#[derive(Debug, Clone, Copy, PartialEq, Eq, Structural)]
pub enum DecodeError {
    /// A fixed-width field or a length-prefixed run reaches past the buffer.
    Truncated,
    /// A tag byte holds a value the version's layout has no meaning for.
    BadTag,
    /// The fields ended before the buffer did.
    Trailing,
}

/// Little-endian image of a u32.
#[verifier::opaque]
pub open spec fn enc_u32(x: u32) -> Seq<u8> {
    seq![
        (x & 0xff) as u8,
        ((x >> 8) & 0xff) as u8,
        ((x >> 16) & 0xff) as u8,
        ((x >> 24) & 0xff) as u8,
    ]
}

/// The u32 whose little-endian image is the four given bytes.
#[verifier::opaque]
pub open spec fn u32_of_le(b0: u8, b1: u8, b2: u8, b3: u8) -> u32 {
    (b0 as u32) | ((b1 as u32) << 8) | ((b2 as u32) << 16) | ((b3 as u32) << 24)
}

/// The little-endian image of a u32 is four bytes long.
pub broadcast proof fn lemma_enc_u32_len(x: u32)
    ensures
        #[trigger] enc_u32(x).len() == 4,
{
    reveal(enc_u32);
}

pub proof fn lemma_u32_le_round_trip(x: u32)
    ensures
        u32_of_le(
            (x & 0xff) as u8,
            ((x >> 8) & 0xff) as u8,
            ((x >> 16) & 0xff) as u8,
            ((x >> 24) & 0xff) as u8,
        ) == x,
{
    reveal(u32_of_le);
    assert(((x & 0xff) as u8 as u32) | (((x >> 8) & 0xff) as u8 as u32) << 8 | (((x >> 16)
        & 0xff) as u8 as u32) << 16 | (((x >> 24) & 0xff) as u8 as u32) << 24 == x)
        by (bit_vector);
}

/// Reading a fixed-width u32 at offset `i`.
pub open spec fn dec_u32(b: Seq<u8>, i: int) -> Result<(u32, int), DecodeError> {
    if 0 <= i && i + 4 <= b.len() {
        Ok((u32_of_le(b[i], b[i + 1], b[i + 2], b[i + 3]), i + 4))
    } else {
        Err(DecodeError::Truncated)
    }
}

/// Reading one byte at offset `i`.
pub open spec fn dec_u8(b: Seq<u8>, i: int) -> Result<(u8, int), DecodeError> {
    if 0 <= i && i + 1 <= b.len() {
        Ok((b[i], i + 1))
    } else {
        Err(DecodeError::Truncated)
    }
}

/// Reading a u32-length-prefixed run of bytes at offset `i`.
pub open spec fn dec_bytes(b: Seq<u8>, i: int) -> Result<(Seq<u8>, int), DecodeError> {
    match dec_u32(b, i) {
        Ok((n, j)) => if j + n <= b.len() {
            Ok((b.subrange(j, j + n), j + n))
        } else {
            Err(DecodeError::Truncated)
        },
        Err(e) => Err(e),
    }
}

/// Reads the little-endian u32 at `*off`, advancing the offset on success.
pub fn read_u32(data: &Vec<u8>, off: &mut usize) -> (r: Result<u32, DecodeError>)
    ensures
        match r {
            Ok(x) => dec_u32(data@, *old(off) as int) == Ok::<(u32, int), DecodeError>(
                (x, *final(off) as int),
            ) && *final(off) == *old(off) + 4,
            Err(e) => dec_u32(data@, *old(off) as int) == Err::<(u32, int), DecodeError>(e)
                && *final(off) == *old(off),
        },
{
    if data.len() < 4 || *off > data.len() - 4 {
        return Err(DecodeError::Truncated);
    }
    let b0 = data[*off];
    let b1 = data[*off + 1];
    let b2 = data[*off + 2];
    let b3 = data[*off + 3];
    let x: u32 = (b0 as u32) | ((b1 as u32) << 8) | ((b2 as u32) << 16) | ((b3 as u32) << 24);
    proof {
        reveal(u32_of_le);
    }
    *off = *off + 4;
    Ok(x)
}

/// Reads the byte at `*off`, advancing the offset on success.
pub fn read_u8(data: &Vec<u8>, off: &mut usize) -> (r: Result<u8, DecodeError>)
    ensures
        match r {
            Ok(x) => dec_u8(data@, *old(off) as int) == Ok::<(u8, int), DecodeError>(
                (x, *final(off) as int),
            ) && *final(off) == *old(off) + 1,
            Err(e) => dec_u8(data@, *old(off) as int) == Err::<(u8, int), DecodeError>(e)
                && *final(off) == *old(off),
        },
{
    if *off >= data.len() {
        return Err(DecodeError::Truncated);
    }
    let b = data[*off];
    *off = *off + 1;
    Ok(b)
}

/// Reads a u32-length-prefixed run of bytes at `*off`, advancing the offset
/// on success.
pub fn read_bytes(data: &Vec<u8>, off: &mut usize) -> (r: Result<Vec<u8>, DecodeError>)
    ensures
        match r {
            Ok(s) => dec_bytes(data@, *old(off) as int) == Ok::<(Seq<u8>, int), DecodeError>(
                (s@, *final(off) as int),
            ),
            Err(e) => dec_bytes(data@, *old(off) as int) == Err::<(Seq<u8>, int), DecodeError>(e)
                && *final(off) == *old(off),
        },
{
    let ghost start = *off as int;
    let mut cur = *off;
    let n = match read_u32(data, &mut cur) {
        Ok(n) => n,
        Err(e) => {
            return Err(e);
        },
    };
    if (n as usize) > data.len() - cur {
        return Err(DecodeError::Truncated);
    }
    let end = cur + (n as usize);
    let mut out: Vec<u8> = Vec::new();
    let mut k = cur;
    while k < end
        invariant
            cur <= k <= end,
            end <= data.len(),
            out@ == data@.subrange(cur as int, k as int),
        decreases end - k,
    {
        out.push(data[k]);
        proof {
            assert(out@ =~= data@.subrange(cur as int, k as int + 1));
        }
        k = k + 1;
    }
    *off = end;
    proof {
        assert(out@ =~= data@.subrange(cur as int, cur as int + n as int));
    }
    Ok(out)
}

/// Appends the little-endian image of `x`.
pub fn write_u32(out: &mut Vec<u8>, x: u32)
    ensures
        final(out)@ == old(out)@ + enc_u32(x),
{
    out.push((x & 0xff) as u8);
    out.push(((x >> 8) & 0xff) as u8);
    out.push(((x >> 16) & 0xff) as u8);
    out.push(((x >> 24) & 0xff) as u8);
    proof {
        reveal(enc_u32);
        assert(out@ =~= old(out)@ + enc_u32(x));
    }
}

/// Appends the bytes of `src` as they stand, with no length prefix.
pub fn append_bytes(out: &mut Vec<u8>, src: &Vec<u8>)
    ensures
        final(out)@ == old(out)@ + src@,
{
    let mut k: usize = 0;
    while k < src.len()
        invariant
            k <= src.len(),
            out@ == old(out)@ + src@.subrange(0, k as int),
        decreases src.len() - k,
    {
        out.push(src[k]);
        proof {
            assert(out@ =~= old(out)@ + src@.subrange(0, k as int + 1));
        }
        k = k + 1;
    }
    proof {
        assert(old(out)@ + src@.subrange(0, src@.len() as int) =~= old(out)@ + src@);
    }
}

} // verus!
