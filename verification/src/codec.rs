//! Frame codec: consistent-overhead byte stuffing (COBS).
//!
//! An encoded frame carries no zero byte, so the byte value 0x00 serves
//! unambiguously as the frame delimiter appended after every frame. The
//! payload is split into blocks: a leading block-length byte `c` (1..=255)
//! followed by `c - 1` non-zero data bytes. A block with `c < 255` stands
//! for its data followed by one zero byte, except for the final block of
//! the frame; a block with `c == 255` stands for 254 data bytes with no
//! zero after them.

use vstd::prelude::*;

verus! {

/// Why a received buffer failed to decode.
#[derive(Clone, Copy, Debug, PartialEq, Eq, Structural)]
pub enum DecodeError {
    /// A block-length byte points past the end of the buffer.
    OffsetOutOfRange,
    /// The buffer does not end with the frame delimiter where the block
    /// structure expects it.
    MissingDelimiter,
}

/// Index of the first zero byte of `s`, or `s.len()` if `s` has none.
pub open spec fn first_zero(s: Seq<u8>) -> nat
    decreases s.len(),
{
    if s.len() == 0 {
        0
    } else if s[0] == 0 {
        0
    } else {
        1 + first_zero(s.subrange(1, s.len() as int))
    }
}

/// The COBS encoding of a payload `s`, one block per step: a run of
/// non-zero bytes of length below 254 ended by a zero becomes a short
/// block standing for the run and the zero; a run of 254 non-zero bytes
/// becomes a maximal block; whatever remains at the end becomes a final
/// block that stands for itself only. The empty payload encodes as the
/// single byte 0x01.
pub open spec fn encode_spec(s: Seq<u8>) -> Seq<u8>
    decreases s.len(),
{
    let z = first_zero(s);
    if z < 254 && z < s.len() {
        seq![(z + 1) as u8] + s.subrange(0, z as int) + encode_spec(
            s.subrange(z as int + 1, s.len() as int),
        )
    } else if z < 254 {
        seq![(z + 1) as u8] + s
    } else if s.len() > 254 {
        seq![255u8] + s.subrange(0, 254) + encode_spec(s.subrange(254, s.len() as int))
    } else {
        seq![255u8] + s
    }
}

/// What decoding a buffer yields. The buffer must hold exactly one stuffed
/// frame followed by its 0x00 delimiter: the block walk has to land the
/// delimiter exactly on the last byte. A block-length byte reaching past
/// the end of the buffer is `OffsetOutOfRange`; a walk that runs out of
/// bytes, or meets a delimiter anywhere but at the end, is
/// `MissingDelimiter`. On success the payload is returned without the
/// delimiter.
pub open spec fn decode_spec(e: Seq<u8>) -> Result<Seq<u8>, DecodeError>
    decreases e.len(),
{
    if e.len() == 0 {
        Err(DecodeError::MissingDelimiter)
    } else if e[0] == 0 {
        if e.len() == 1 {
            Ok(Seq::empty())
        } else {
            Err(DecodeError::MissingDelimiter)
        }
    } else if e[0] as int > e.len() as int {
        Err(DecodeError::OffsetOutOfRange)
    } else if e[0] as int == e.len() as int {
        Err(DecodeError::MissingDelimiter)
    } else {
        let code = e[0] as int;
        let data = e.subrange(1, code);
        let rest = e.subrange(code, e.len() as int);
        match decode_spec(rest) {
            Ok(tail) => {
                if rest[0] == 0 || e[0] == 255 {
                    Ok(data + tail)
                } else {
                    Ok(data + seq![0u8] + tail)
                }
            },
            Err(err) => Err(err),
        }
    }
}

/// The defining properties of `first_zero`: it never passes the end, every
/// byte before it is non-zero, and the byte at it (when inside the
/// sequence) is zero.
pub proof fn lemma_first_zero_props(s: Seq<u8>)
    ensures
        first_zero(s) <= s.len(),
        forall|i: int| 0 <= i < first_zero(s) ==> s[i] != 0,
        first_zero(s) < s.len() ==> s[first_zero(s) as int] == 0,
    decreases s.len(),
{
    if s.len() == 0 {
    } else if s[0] == 0 {
    } else {
        let s1 = s.subrange(1, s.len() as int);
        lemma_first_zero_props(s1);
        assert(forall|i: int| 0 <= i < first_zero(s1) ==> s1[i] != 0);
        assert(forall|i: int| 1 <= i < first_zero(s) ==> s[i] == s1[i - 1]);
    }
}

/// `first_zero` is pinned down by the two properties above: an index whose
/// prefix is zero-free and which is the end or a zero byte is the first
/// zero.
pub proof fn lemma_first_zero_char(s: Seq<u8>, k: nat)
    requires
        k <= s.len(),
        forall|i: int| 0 <= i < k ==> s[i] != 0,
        k < s.len() ==> s[k as int] == 0,
    ensures
        first_zero(s) == k,
{
    lemma_first_zero_props(s);
    let z = first_zero(s);
    if z < k {
        assert(s[z as int] != 0);
        assert(s[z as int] == 0);
    }
    if k < z {
        assert(s[k as int] != 0);
    }
}

/// A zero-free prefix pushes the first zero at least that far out.
pub proof fn lemma_first_zero_ge(s: Seq<u8>, k: nat)
    requires
        k <= s.len(),
        forall|i: int| 0 <= i < k ==> s[i] != 0,
    ensures
        first_zero(s) >= k,
{
    lemma_first_zero_props(s);
    let z = first_zero(s);
    if z < k {
        assert(s[z as int] != 0);
        assert(s[z as int] == 0);
    }
}

/// An encoded frame is never empty and never begins with a zero byte.
pub proof fn lemma_encode_head(s: Seq<u8>)
    ensures
        encode_spec(s).len() >= 1,
        encode_spec(s)[0] != 0,
{
    let z = first_zero(s);
    if z < 254 {
        assert(encode_spec(s)[0] == (z + 1) as u8);
    } else {
        assert(encode_spec(s)[0] == 255u8);
    }
}

/// The encoding guarantee that makes 0x00 usable as a delimiter: the
/// encoded stream contains no zero byte at all.
pub proof fn lemma_encode_no_zeros(s: Seq<u8>)
    ensures
        forall|i: int| 0 <= i < encode_spec(s).len() ==> encode_spec(s)[i] != 0,
    decreases s.len(),
{
    lemma_first_zero_props(s);
    let z = first_zero(s);
    let e = encode_spec(s);
    if z < 254 && z < s.len() {
        let s2 = s.subrange(z as int + 1, s.len() as int);
        lemma_encode_no_zeros(s2);
        assert forall|i: int| 0 <= i < e.len() implies e[i] != 0 by {
            if 1 <= i <= z {
                assert(e[i] == s[i - 1]);
            } else if i > z {
                assert(e[i] == encode_spec(s2)[i - z - 1]);
            }
        }
    } else if z < 254 {
        assert forall|i: int| 0 <= i < e.len() implies e[i] != 0 by {
            if i >= 1 {
                assert(e[i] == s[i - 1]);
            }
        }
    } else if s.len() > 254 {
        let s2 = s.subrange(254, s.len() as int);
        lemma_encode_no_zeros(s2);
        assert forall|i: int| 0 <= i < e.len() implies e[i] != 0 by {
            if 1 <= i <= 254 {
                assert(e[i] == s[i - 1]);
            } else if i > 254 {
                assert(e[i] == encode_spec(s2)[i - 255]);
            }
        }
    } else {
        assert forall|i: int| 0 <= i < e.len() implies e[i] != 0 by {
            if i >= 1 {
                assert(e[i] == s[i - 1]);
            }
        }
    }
}

/// A buffer that does not end in the frame delimiter never decodes: the
/// failure is reported, whatever else the buffer holds.
pub proof fn lemma_no_delimiter_fails(e: Seq<u8>)
    requires
        e.len() == 0 || e.last() != 0,
    ensures
        decode_spec(e) is Err,
    decreases e.len(),
{
    if e.len() == 0 {
    } else if e[0] == 0 {
        assert(e.len() > 1);
    } else if e[0] as int >= e.len() as int {
    } else {
        let code = e[0] as int;
        let rest = e.subrange(code, e.len() as int);
        assert(rest.last() == e.last());
        lemma_no_delimiter_fails(rest);
    }
}

/// A decoded payload is strictly shorter than the buffer it came from.
pub proof fn lemma_decode_len(e: Seq<u8>)
    ensures
        decode_spec(e) matches Ok(p) ==> p.len() < e.len(),
    decreases e.len(),
{
    if e.len() == 0 {
    } else if e[0] == 0 {
    } else if e[0] as int >= e.len() as int {
    } else {
        let code = e[0] as int;
        let rest = e.subrange(code, e.len() as int);
        lemma_decode_len(rest);
    }
}

/// Round trip: decoding an encoded frame followed by its delimiter gives
/// back exactly the original payload, for every payload.
pub proof fn lemma_round_trip(s: Seq<u8>)
    ensures
        decode_spec(encode_spec(s) + seq![0u8]) == Ok::<Seq<u8>, DecodeError>(s),
    decreases s.len(),
{
    lemma_first_zero_props(s);
    let z = first_zero(s);
    let e = encode_spec(s) + seq![0u8];
    if z < 254 && z < s.len() {
        let s2 = s.subrange(z as int + 1, s.len() as int);
        let enc2 = encode_spec(s2);
        lemma_encode_head(s2);
        lemma_round_trip(s2);
        let code = z as int + 1;
        assert(e[0] == (z + 1) as u8);
        assert(e[0] as int == code);
        let data = e.subrange(1, code);
        let rest = e.subrange(code, e.len() as int);
        assert(data =~= s.subrange(0, z as int));
        assert(rest =~= enc2 + seq![0u8]);
        assert(rest[0] == enc2[0]);
        assert(decode_spec(rest) == Ok::<Seq<u8>, DecodeError>(s2));
        assert(data + seq![0u8] + s2 =~= s);
    } else if z < 254 {
        // no zero byte: z == s.len() and the frame is one final short block
        let code = z as int + 1;
        assert(e[0] as int == code);
        let data = e.subrange(1, code);
        let rest = e.subrange(code, e.len() as int);
        assert(rest =~= seq![0u8]);
        assert(decode_spec(rest) == Ok::<Seq<u8>, DecodeError>(Seq::empty()));
        assert(data =~= s);
        assert(data + Seq::<u8>::empty() =~= s);
    } else if s.len() > 254 {
        let s2 = s.subrange(254, s.len() as int);
        let enc2 = encode_spec(s2);
        lemma_encode_head(s2);
        lemma_round_trip(s2);
        assert(e[0] == 255u8);
        let data = e.subrange(1, 255);
        let rest = e.subrange(255, e.len() as int);
        assert(data =~= s.subrange(0, 254));
        assert(rest =~= enc2 + seq![0u8]);
        assert(rest[0] == enc2[0]);
        assert(decode_spec(rest) == Ok::<Seq<u8>, DecodeError>(s2));
        assert(data + s2 =~= s);
    } else {
        // exactly 254 bytes, none zero: one final maximal block
        assert(s.len() == 254);
        assert(e[0] == 255u8);
        let data = e.subrange(1, 255);
        let rest = e.subrange(255, e.len() as int);
        assert(rest =~= seq![0u8]);
        assert(decode_spec(rest) == Ok::<Seq<u8>, DecodeError>(Seq::empty()));
        assert(data =~= s);
        assert(data + Seq::<u8>::empty() =~= s);
    }
}

/// Append `data[from..to]` to `out`.
fn push_range(data: &Vec<u8>, from: usize, to: usize, out: &mut Vec<u8>)
    requires
        from <= to <= data@.len(),
    ensures
        final(out)@ == old(out)@ + data@.subrange(from as int, to as int),
{
    let mut i: usize = from;
    while i < to
        invariant
            from <= i <= to <= data@.len(),
            out@ == old(out)@ + data@.subrange(from as int, i as int),
        decreases to - i,
    {
        let b = data[i];
        out.push(b);
        assert(out@ =~= old(out)@ + data@.subrange(from as int, i as int + 1));
        i = i + 1;
    }
    assert(out@ =~= old(out)@ + data@.subrange(from as int, to as int));
}

/// Encode `data[from..]`, appending the frame bytes to `out`.
fn encode_from(data: &Vec<u8>, from: usize, out: &mut Vec<u8>)
    requires
        from <= data@.len(),
    ensures
        final(out)@ == old(out)@ + encode_spec(data@.subrange(from as int, data@.len() as int)),
    decreases data@.len() - from,
{
    let ghost tail = data@.subrange(from as int, data@.len() as int);
    let len = data.len();
    let mut j: usize = from;
    while j < len && j - from < 254 && data[j] != 0
        invariant
            from <= j <= len,
            len == data@.len(),
            j - from <= 254,
            forall|k: int| from <= k < j ==> data@[k] != 0,
        decreases len - j,
    {
        j = j + 1;
    }
    proof {
        assert(forall|i: int| 0 <= i < j - from ==> tail[i] == data@[from + i] && tail[i] != 0);
    }
    if j < len && j - from < 254 {
        // data[j] is the first zero of the remaining payload
        proof {
            lemma_first_zero_char(tail, (j - from) as nat);
        }
        out.push((j - from + 1) as u8);
        push_range(data, from, j, out);
        encode_from(data, j + 1, out);
        proof {
            assert(tail.subrange(0, j - from) =~= data@.subrange(from as int, j as int));
            assert(tail.subrange(j - from + 1, tail.len() as int) =~= data@.subrange(
                j as int + 1,
                len as int,
            ));
            assert(out@ =~= old(out)@ + encode_spec(tail));
        }
    } else if j - from == 254 {
        // a maximal block of 254 non-zero bytes
        proof {
            lemma_first_zero_ge(tail, 254);
        }
        out.push(255u8);
        push_range(data, from, j, out);
        proof {
            assert(tail.subrange(0, 254) =~= data@.subrange(from as int, j as int));
        }
        if j < len {
            encode_from(data, j, out);
            proof {
                assert(tail.subrange(254, tail.len() as int) =~= data@.subrange(
                    j as int,
                    len as int,
                ));
                assert(out@ =~= old(out)@ + encode_spec(tail));
            }
        } else {
            proof {
                assert(tail =~= data@.subrange(from as int, j as int));
                assert(out@ =~= old(out)@ + encode_spec(tail));
            }
        }
    } else {
        // the payload ends in a short zero-free run: one final block
        proof {
            lemma_first_zero_char(tail, (j - from) as nat);
        }
        out.push((j - from + 1) as u8);
        push_range(data, from, j, out);
        proof {
            assert(tail =~= data@.subrange(from as int, j as int));
            assert(out@ =~= old(out)@ + encode_spec(tail));
        }
    }
}

/// COBS-encode a payload. The result carries no zero byte; the frame
/// delimiter is not appended here.
pub fn encode(data: &Vec<u8>) -> (r: Vec<u8>)
    ensures
        r@ == encode_spec(data@),
        forall|i: int| 0 <= i < r@.len() ==> r@[i] != 0,
{
    let mut out: Vec<u8> = Vec::new();
    encode_from(data, 0, &mut out);
    proof {
        assert(data@.subrange(0, data@.len() as int) =~= data@);
        assert(out@ =~= encode_spec(data@));
        lemma_encode_no_zeros(data@);
    }
    out
}

/// Decode the frame held in `e[from..]` into a fresh vector.
fn decode_from(e: &Vec<u8>, from: usize) -> (r: Result<Vec<u8>, DecodeError>)
    requires
        from <= e@.len(),
    ensures
        ({
            let sub = e@.subrange(from as int, e@.len() as int);
            match r {
                Ok(p) => decode_spec(sub) == Ok::<Seq<u8>, DecodeError>(p@),
                Err(er) => decode_spec(sub) == Err::<Seq<u8>, DecodeError>(er),
            }
        }),
    decreases e@.len() - from,
{
    let ghost sub = e@.subrange(from as int, e@.len() as int);
    let len = e.len();
    if from == len {
        return Err(DecodeError::MissingDelimiter);
    }
    let code = e[from];
    assert(sub[0] == e@[from as int]);
    if code == 0 {
        if from + 1 == len {
            let p: Vec<u8> = Vec::new();
            assert(p@ =~= Seq::<u8>::empty());
            return Ok(p);
        } else {
            return Err(DecodeError::MissingDelimiter);
        }
    }
    if code as usize > len - from {
        return Err(DecodeError::OffsetOutOfRange);
    }
    if code as usize == len - from {
        return Err(DecodeError::MissingDelimiter);
    }
    let next = from + code as usize;
    proof {
        assert(sub.subrange(code as int, sub.len() as int) =~= e@.subrange(
            next as int,
            len as int,
        ));
    }
    match decode_from(e, next) {
        Err(er) => Err(er),
        Ok(tail) => {
            let mut p: Vec<u8> = Vec::new();
            push_range(e, from + 1, next, &mut p);
            proof {
                assert(sub.subrange(1, code as int) =~= e@.subrange(from as int + 1, next as int));
            }
            if e[next] == 0 || code == 255 {
                let mut tail = tail;
                p.append(&mut tail);
                assert(p@ =~= sub.subrange(1, code as int) + decode_spec(
                    sub.subrange(code as int, sub.len() as int),
                )->Ok_0);
                Ok(p)
            } else {
                p.push(0u8);
                let mut tail = tail;
                p.append(&mut tail);
                assert(p@ =~= sub.subrange(1, code as int) + seq![0u8] + decode_spec(
                    sub.subrange(code as int, sub.len() as int),
                )->Ok_0);
                Ok(p)
            }
        },
    }
}

/// Decode one complete stuffed frame, including its trailing 0x00
/// delimiter, destructively in the buffer it arrived in. On success the
/// decoded payload occupies the front of the buffer and the returned
/// length counts the payload plus the now-redundant delimiter placeholder,
/// so callers subtract one to exclude the sentinel. On failure the buffer
/// is left as it was and the error says what was malformed; malformed
/// input is reported, never a panic or an out-of-bounds access.
pub fn decode_in_place(buffer: &mut Vec<u8>) -> (r: Result<usize, DecodeError>)
    ensures
        final(buffer)@.len() == old(buffer)@.len(),
        ({
            match r {
                Ok(n) => {
                    &&& decode_spec(old(buffer)@) is Ok
                    &&& n == decode_spec(old(buffer)@)->Ok_0.len() + 1
                    &&& n <= final(buffer)@.len()
                    &&& final(buffer)@.subrange(0, n - 1) == decode_spec(old(buffer)@)->Ok_0
                    &&& final(buffer)@[n - 1] == 0
                },
                Err(er) => {
                    &&& decode_spec(old(buffer)@) == Err::<Seq<u8>, DecodeError>(er)
                    &&& final(buffer)@ == old(buffer)@
                },
            }
        }),
{
    proof {
        assert(buffer@.subrange(0, buffer@.len() as int) =~= buffer@);
    }
    match decode_from(buffer, 0) {
        Err(er) => Err(er),
        Ok(p) => {
            proof {
                lemma_decode_len(buffer@);
            }
            let n = p.len();
            let mut i: usize = 0;
            while i < n
                invariant
                    i <= n,
                    n < buffer@.len(),
                    n == p@.len(),
                    buffer@.len() == old(buffer)@.len(),
                    forall|k: int| 0 <= k < i ==> buffer@[k] == p@[k],
                decreases n - i,
            {
                let b = p[i];
                buffer[i] = b;
                i = i + 1;
            }
            buffer[n] = 0;
            proof {
                assert(buffer@.subrange(0, n as int) =~= p@);
            }
            let cap = buffer.len();
            assert(n < cap);
            Ok(n + 1)
        },
    }
}

} // verus!
