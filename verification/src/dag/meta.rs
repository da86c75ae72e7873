//! The metadata table of a chunk: the list of chunks that it refers to.
//!
//! The table is a flatbuffer with one field, `refs`, a vector of strings. A
//! buffer starts with the little-endian u32 offset of its root table (after
//! a u32 size, in the size-prefixed form). A table starts with an i32 that
//! the vtable lies that many bytes before; the vtable starts with its own
//! length in bytes (u16), and the u16 at byte 4 of it is where in the table
//! the `refs` field lies (0, or past the vtable's end, for no field). The
//! field holds a u32 offset, forward from itself, to the vector: a u32
//! count, then that many u32 offsets, each forward from itself, to a
//! string: a u32 byte length, then the UTF-8 bytes.

use vstd::prelude::*;
use vstd::slice::slice_subrange;
use vstd::string::StringSliceAdditionalSpecFns;
use vstd::utf8::{decode_utf8, decode_utf8_encode_utf8, encode_utf8, valid_utf8};

use crate::utf8::decode_text;

verus! {

/// `n` bytes from `pos` lie within the buffer.
pub open spec fn fits(buf: Seq<u8>, pos: int, n: int) -> bool {
    0 <= pos && 0 <= n && pos + n <= buf.len()
}

/// The little-endian u16 at `pos`.
pub open spec fn le_u16(buf: Seq<u8>, pos: int) -> int {
    buf[pos] + 256 * buf[pos + 1]
}

/// The little-endian u32 at `pos`.
pub open spec fn le_u32(buf: Seq<u8>, pos: int) -> int {
    buf[pos] + 256 * buf[pos + 1] + 65536 * buf[pos + 2] + 16777216 * buf[pos + 3]
}

/// The little-endian i32 at `pos`.
pub open spec fn le_i32(buf: Seq<u8>, pos: int) -> int {
    let u = le_u32(buf, pos);
    if u < 0x8000_0000 {
        u
    } else {
        u - 0x1_0000_0000
    }
}

/// The text of the string that the offset at `p` refers to; `Err` where a
/// read falls outside the buffer or the bytes are not UTF-8.
pub open spec fn meta_string_at(buf: Seq<u8>, p: int) -> Result<Seq<char>, ()> {
    if !fits(buf, p, 4) {
        Err(())
    } else {
        let s = p + le_u32(buf, p);
        if !fits(buf, s, 4) {
            Err(())
        } else {
            let n = le_u32(buf, s);
            if !fits(buf, s + 4, n) {
                Err(())
            } else {
                let bytes = buf.subrange(s + 4, s + 4 + n);
                if valid_utf8(bytes) {
                    Ok(decode_utf8(bytes))
                } else {
                    Err(())
                }
            }
        }
    }
}

/// The first `k` strings of the vector at `v`.
pub open spec fn meta_strings(buf: Seq<u8>, v: int, k: nat) -> Result<Seq<Seq<char>>, ()>
    decreases k,
{
    if k == 0 {
        Ok(Seq::empty())
    } else {
        match meta_strings(buf, v, (k - 1) as nat) {
            Err(_) => Err(()),
            Ok(prev) => match meta_string_at(buf, v + 4 + 4 * (k - 1)) {
                Err(_) => Err(()),
                Ok(s) => Ok(prev.push(s)),
            },
        }
    }
}

/// The `refs` field of the table at `t`: `None` where the table has no such
/// field, `Err` where the bytes do not hold a well-formed table.
pub open spec fn meta_refs_at(buf: Seq<u8>, t: int) -> Result<Option<Seq<Seq<char>>>, ()> {
    if !fits(buf, t, 4) {
        Err(())
    } else {
        let vt = t - le_i32(buf, t);
        if !fits(buf, vt, 2) {
            Err(())
        } else if le_u16(buf, vt) <= 4 {
            Ok(None)
        } else if !fits(buf, vt + 4, 2) {
            Err(())
        } else {
            let fo = le_u16(buf, vt + 4);
            if fo == 0 {
                Ok(None)
            } else {
                let f = t + fo;
                if !fits(buf, f, 4) {
                    Err(())
                } else {
                    let v = f + le_u32(buf, f);
                    if !fits(buf, v, 4) {
                        Err(())
                    } else {
                        match meta_strings(buf, v, le_u32(buf, v) as nat) {
                            Ok(refs) => Ok(Some(refs)),
                            Err(_) => Err(()),
                        }
                    }
                }
            }
        }
    }
}

/// A string is read whole: where its offset, its length and all of its
/// bytes lie within the buffer and the bytes are UTF-8, the text read is the
/// text whose UTF-8 encoding is exactly those bytes, as many as the length
/// says.
pub proof fn law_string_read_whole(buf: Seq<u8>, p: int)
    requires
        fits(buf, p, 4),
        fits(buf, p + le_u32(buf, p), 4),
        fits(buf, p + le_u32(buf, p) + 4, le_u32(buf, p + le_u32(buf, p))),
        valid_utf8(
            buf.subrange(
                p + le_u32(buf, p) + 4,
                p + le_u32(buf, p) + 4 + le_u32(buf, p + le_u32(buf, p)),
            ),
        ),
    ensures
        meta_string_at(buf, p) matches Ok(t) && encode_utf8(t) == buf.subrange(
            p + le_u32(buf, p) + 4,
            p + le_u32(buf, p) + 4 + le_u32(buf, p + le_u32(buf, p)),
        ) && encode_utf8(t).len() == le_u32(buf, p + le_u32(buf, p)),
{
    let s = p + le_u32(buf, p);
    let bytes = buf.subrange(s + 4, s + 4 + le_u32(buf, s));
    decode_utf8_encode_utf8(bytes);
}

/// The strings of a vector are read in order, one for each of its offsets:
/// the `i`-th text read is the string that the `i`-th offset refers to.
pub proof fn law_strings_in_order(buf: Seq<u8>, v: int, k: nat)
    ensures
        meta_strings(buf, v, k) matches Ok(r) ==> {
            &&& r.len() == k
            &&& forall|i: int|
                0 <= i < k ==> meta_string_at(buf, v + 4 + 4 * i) == Ok::<Seq<char>, ()>(
                    #[trigger] r[i],
                )
        },
    decreases k,
{
    if k > 0 {
        law_strings_in_order(buf, v, (k - 1) as nat);
    }
}

/// The references that a metadata buffer holds.
pub open spec fn meta_refs_spec(buf: Seq<u8>) -> Result<Option<Seq<Seq<char>>>, ()> {
    if !fits(buf, 0, 4) {
        Err(())
    } else {
        meta_refs_at(buf, le_u32(buf, 0))
    }
}

/// The references that a size-prefixed metadata buffer holds.
pub open spec fn size_prefixed_meta_refs_spec(buf: Seq<u8>) -> Result<Option<Seq<Seq<char>>>, ()> {
    if !fits(buf, 4, 4) {
        Err(())
    } else {
        meta_refs_at(buf, 4 + le_u32(buf, 4))
    }
}

/// The texts of a sequence of strings.
pub open spec fn texts(v: Seq<String>) -> Seq<Seq<char>> {
    v.map_values(|s: String| s@)
}

/// Why metadata could not be read.
#[derive(Clone, Copy, Debug, PartialEq, Eq, Structural)]
pub enum MetaError {
    /// A read falls outside the buffer, or a string is not UTF-8.
    Malformed,
}

/// What a read of references stands for.
pub open spec fn refs_result(r: Result<Option<Vec<String>>, MetaError>) -> Result<
    Option<Seq<Seq<char>>>,
    (),
> {
    match r {
        Ok(Some(v)) => Ok(Some(texts(v@))),
        Ok(None) => Ok(None),
        Err(_) => Err(()),
    }
}

/// The u16 at `base + off`, if it lies within the buffer.
fn read_u16_at(buf: &[u8], base: usize, off: usize) -> (r: Option<u16>)
    ensures
        r is Some <==> fits(buf@, base + off, 2),
        r matches Some(x) ==> x == le_u16(buf@, base + off),
{
    if base > buf.len() || off > buf.len() - base || buf.len() - base - off < 2 {
        return None;
    }
    let p: usize = base + off;
    Some(buf[p] as u16 + 256 * (buf[p + 1] as u16))
}

/// The u32 at `base + off`, if it lies within the buffer.
fn read_u32_at(buf: &[u8], base: usize, off: usize) -> (r: Option<u32>)
    ensures
        r is Some <==> fits(buf@, base + off, 4),
        r matches Some(x) ==> x == le_u32(buf@, base + off),
{
    if base > buf.len() || off > buf.len() - base || buf.len() - base - off < 4 {
        return None;
    }
    let p: usize = base + off;
    Some(
        buf[p] as u32 + 256 * (buf[p + 1] as u32) + 65536 * (buf[p + 2] as u32) + 16777216 * (buf[p
            + 3] as u32),
    )
}

/// Where the root table of a metadata buffer starts.
pub fn meta_root_loc(buf: &[u8]) -> (r: Option<usize>)
    ensures
        r is Some <==> buf@.len() >= 4,
        r matches Some(l) ==> l == buf@[0] + 256 * buf@[1] + 65536 * buf@[2] + 16777216 * buf@[3],
{
    match read_u32_at(buf, 0, 0) {
        Some(x) => Some(x as usize),
        None => None,
    }
}

/// Where the root table of a size-prefixed metadata buffer starts: past the
/// size, by the offset that follows it.
pub fn size_prefixed_meta_root_loc(buf: &[u8]) -> (r: Option<usize>)
    ensures
        r is Some <==> buf@.len() >= 8 && 4 + le_u32(buf@, 4) <= usize::MAX,
        r matches Some(l) ==> l == 4 + le_u32(buf@, 4),
{
    match read_u32_at(buf, 4, 0) {
        Some(x) => {
            if x as usize > usize::MAX - 4 {
                None
            } else {
                Some(4 + x as usize)
            }
        },
        None => None,
    }
}

/// The string that the offset at `p` refers to.
fn string_at(buf: &[u8], p: usize) -> (r: Result<String, MetaError>)
    ensures
        match r {
            Ok(s) => meta_string_at(buf@, p as int) == Ok::<Seq<char>, ()>(s@),
            Err(_) => meta_string_at(buf@, p as int) is Err,
        },
{
    let off = match read_u32_at(buf, p, 0) {
        Some(x) => x,
        None => return Err(MetaError::Malformed),
    };
    if off as usize > buf.len() - p {
        return Err(MetaError::Malformed);
    }
    let s: usize = p + off as usize;
    let n = match read_u32_at(buf, s, 0) {
        Some(x) => x,
        None => return Err(MetaError::Malformed),
    };
    let start: usize = s + 4;
    if n as usize > buf.len() - start {
        return Err(MetaError::Malformed);
    }
    let end: usize = start + n as usize;
    let bytes = slice_subrange(buf, start, end);
    match decode_text(bytes) {
        Ok(t) => Ok(t),
        Err(_) => Err(MetaError::Malformed),
    }
}

/// Once the first strings fail to read, so do any more.
proof fn lemma_meta_strings_err(buf: Seq<u8>, v: int, k: nat, m: nat)
    requires
        k <= m,
        meta_strings(buf, v, k) is Err,
    ensures
        meta_strings(buf, v, m) is Err,
    decreases m - k,
{
    if k < m {
        assert(meta_strings(buf, v, (k + 1) as nat) is Err);
        lemma_meta_strings_err(buf, v, (k + 1) as nat, m);
    }
}

/// The `refs` field of the table at `t`.
fn refs_at(buf: &[u8], t: usize) -> (r: Result<Option<Vec<String>>, MetaError>)
    ensures
        refs_result(r) == meta_refs_at(buf@, t as int),
{
    let blen: usize = buf.len();
    let raw = match read_u32_at(buf, t, 0) {
        Some(x) => x,
        None => return Err(MetaError::Malformed),
    };
    let vt: usize;
    if raw < 0x8000_0000 {
        if raw as usize > t {
            return Err(MetaError::Malformed);
        }
        vt = t - raw as usize;
    } else {
        let d: u32 = (0xFFFF_FFFFu32 - raw) + 1;
        if d as usize > buf.len() - t {
            return Err(MetaError::Malformed);
        }
        vt = t + d as usize;
    }
    assert(vt == t - le_i32(buf@, t as int));
    let vlen = match read_u16_at(buf, vt, 0) {
        Some(x) => x,
        None => return Err(MetaError::Malformed),
    };
    if vlen <= 4 {
        return Ok(None);
    }
    let fo = match read_u16_at(buf, vt, 4) {
        Some(x) => x,
        None => return Err(MetaError::Malformed),
    };
    if fo == 0 {
        return Ok(None);
    }
    let u = match read_u32_at(buf, t, fo as usize) {
        Some(x) => x,
        None => return Err(MetaError::Malformed),
    };
    let f: usize = t + fo as usize;
    if u as usize > buf.len() - f {
        return Err(MetaError::Malformed);
    }
    let v: usize = f + u as usize;
    let n = match read_u32_at(buf, v, 0) {
        Some(x) => x,
        None => return Err(MetaError::Malformed),
    };
    let mut out: Vec<String> = Vec::new();
    assert(texts(out@) =~= Seq::<Seq<char>>::empty());
    assert(meta_refs_at(buf@, t as int) == (match meta_strings(buf@, v as int, n as nat) {
        Ok(refs) => Ok(Some(refs)),
        Err(_) => Err(()),
    }));
    let mut i: u32 = 0;
    let mut p: usize = v + 4;
    while i < n
        invariant
            blen == buf@.len(),
            meta_refs_at(buf@, t as int) == (match meta_strings(buf@, v as int, n as nat) {
                Ok(refs) => Ok(Some(refs)),
                Err(_) => Err(()),
            }),
            fits(buf@, v as int, 4),
            n == le_u32(buf@, v as int),
            i <= n,
            p == v + 4 + 4 * i,
            p <= buf@.len(),
            meta_strings(buf@, v as int, i as nat) == Ok::<Seq<Seq<char>>, ()>(texts(out@)),
        decreases n - i,
    {
        match string_at(buf, p) {
            Ok(s) => {
                assert(fits(buf@, p as int, 4));
                proof {
                    assert(texts(out@.push(s)) =~= texts(out@).push(s@));
                }
                out.push(s);
            },
            Err(_) => {
                proof {
                    assert(meta_strings(buf@, v as int, (i + 1) as nat) is Err);
                    lemma_meta_strings_err(buf@, v as int, (i + 1) as nat, n as nat);
                }
                return Err(MetaError::Malformed);
            },
        }
        i = i + 1;
        p = p + 4;
    }
    Ok(Some(out))
}

/// The metadata buffer `buf` holds a table whose `refs` are `refs`.
pub open spec fn holds_refs(buf: Seq<u8>, refs: Seq<Seq<char>>) -> bool {
    meta_refs_spec(buf) == Ok::<Option<Seq<Seq<char>>>, ()>(Some(refs))
}

/// The bytes that the metadata builder produces for a table whose `refs`
/// are `refs`.
pub uninterp spec fn meta_encoding(refs: Seq<Seq<char>>) -> Seq<u8>;

/// A bound on the bytes that encoding `refs` takes: per string its UTF-8
/// bytes, a length, a terminator, padding and its offset in the vector;
/// then the vector's count, the table, its vtable and the root offset.
pub open spec fn meta_size(refs: Seq<Seq<char>>) -> int
    decreases refs.len(),
{
    if refs.len() == 0 {
        64
    } else {
        meta_size(refs.drop_last()) + encode_utf8(refs.last()).len() + 8
    }
}

/// flatbuffers' `FlatBufferBuilder` (`create_vector_of_strings`,
/// `start_table`, `push_slot_always` of the `refs` slot, `end_table`,
/// `finish`, `finished_data`), driven as the generated builder of the
/// metadata table drives it. The contract names the bytes, and states what
/// the builder's source shows: the table that the bytes hold has the given
/// `refs`, read back in order. The builder refuses (panics) when one piece
/// exceeds 2 GiB and writes 32-bit offsets, so the bytes are bounded to stay
/// well under that.
#[verifier::external_body]
pub fn encode_meta(refs: &Vec<String>) -> (r: Vec<u8>)
    requires
        meta_size(texts(refs@)) < 0x8000_0000,
    ensures
        r@ == meta_encoding(texts(refs@)),
        holds_refs(r@, texts(refs@)),
{
    let names: Vec<&str> = refs.iter().map(|s| s.as_str()).collect();
    let mut fbb = flatbuffers::FlatBufferBuilder::new();
    let list = fbb.create_vector_of_strings(&names);
    let table = fbb.start_table();
    fbb.push_slot_always::<flatbuffers::WIPOffset<_>>(4, list);
    let root = fbb.end_table(table);
    fbb.finish(root, None);
    fbb.finished_data().to_vec()
}

/// Whether `refs` are small enough for `encode_meta`.
pub fn meta_fits(refs: &Vec<String>) -> (r: bool)
    ensures
        r == (meta_size(texts(refs@)) < 0x8000_0000),
{
    let mut total: u64 = 64;
    let mut i: usize = 0;
    while i < refs.len()
        invariant
            i <= refs@.len(),
            total < 0x8000_0000,
            total == meta_size(texts(refs@.take(i as int))),
        decreases refs@.len() - i,
    {
        let text = refs[i].as_str();
        let n: usize = text.as_bytes().len();
        assert(n == encode_utf8(refs@[i as int]@).len());
        proof {
            assert(texts(refs@.take(i + 1)).drop_last() =~= texts(refs@.take(i as int)));
            assert(texts(refs@.take(i + 1)).last() == refs@[i as int]@);
        }
        if n as u64 >= 0x8000_0000 - total {
            proof {
                lemma_meta_size_grows(texts(refs@), i + 1);
                assert(texts(refs@).take(i + 1) =~= texts(refs@.take(i + 1)));
            }
            return false;
        }
        if n as u64 + 8 >= 0x8000_0000 - total {
            proof {
                lemma_meta_size_grows(texts(refs@), i + 1);
                assert(texts(refs@).take(i + 1) =~= texts(refs@.take(i + 1)));
            }
            return false;
        }
        total = total + n as u64 + 8;
        assert(total == meta_size(texts(refs@.take(i + 1))));
        i = i + 1;
    }
    assert(refs@.take(i as int) =~= refs@);
    true
}

/// The bound only grows as strings are added.
proof fn lemma_meta_size_grows(refs: Seq<Seq<char>>, k: int)
    requires
        0 <= k <= refs.len(),
    ensures
        meta_size(refs.take(k)) <= meta_size(refs),
    decreases refs.len() - k,
{
    if k < refs.len() {
        lemma_meta_size_grows(refs, k + 1);
        assert(refs.take(k + 1).drop_last() =~= refs.take(k));
    } else {
        assert(refs.take(k) =~= refs);
    }
}

/// A metadata table within a buffer.
pub struct Meta<'a> {
    buf: &'a [u8],
    loc: usize,
}

impl<'a> Meta<'a> {
    /// The buffer that holds the table.
    pub closed spec fn bytes(&self) -> Seq<u8> {
        self.buf@
    }

    /// Where in the buffer the table starts.
    pub closed spec fn start(&self) -> int {
        self.loc as int
    }

    /// The chunks that the table refers to: `None` where it has no `refs`
    /// field.
    pub fn refs(&self) -> (r: Result<Option<Vec<String>>, MetaError>)
        ensures
            refs_result(r) == meta_refs_at(self.bytes(), self.start()),
    {
        refs_at(self.buf, self.loc)
    }
}

/// The root table of a metadata buffer, if the buffer holds its offset.
pub fn get_root_as_meta<'a>(buf: &'a [u8]) -> (r: Option<Meta<'a>>)
    ensures
        r is Some <==> buf@.len() >= 4,
        r matches Some(m) ==> m.bytes() == buf@ && m.start() == le_u32(buf@, 0),
{
    match meta_root_loc(buf) {
        Some(loc) => Some(Meta { buf, loc }),
        None => None,
    }
}

/// The root table of a size-prefixed metadata buffer, if the buffer holds
/// its offset.
pub fn get_size_prefixed_root_as_meta<'a>(buf: &'a [u8]) -> (r: Option<Meta<'a>>)
    ensures
        r is Some <==> buf@.len() >= 8 && 4 + le_u32(buf@, 4) <= usize::MAX,
        r matches Some(m) ==> m.bytes() == buf@ && m.start() == 4 + le_u32(buf@, 4),
{
    match size_prefixed_meta_root_loc(buf) {
        Some(loc) => Some(Meta { buf, loc }),
        None => None,
    }
}

/// The references that a metadata buffer holds.
pub fn read_meta_refs(buf: &[u8]) -> (r: Result<Option<Vec<String>>, MetaError>)
    ensures
        refs_result(r) == meta_refs_spec(buf@),
{
    match get_root_as_meta(buf) {
        Some(m) => m.refs(),
        None => Err(MetaError::Malformed),
    }
}

/// The references that a size-prefixed metadata buffer holds.
pub fn read_size_prefixed_meta_refs(buf: &[u8]) -> (r: Result<Option<Vec<String>>, MetaError>)
    ensures
        refs_result(r) == size_prefixed_meta_refs_spec(buf@),
{
    let blen: usize = buf.len();
    match get_size_prefixed_root_as_meta(buf) {
        Some(m) => m.refs(),
        None => {
            proof {
                if fits(buf@, 4, 4) {
                    assert(4 + le_u32(buf@, 4) > usize::MAX);
                    assert(!fits(buf@, 4 + le_u32(buf@, 4), 4));
                }
            }
            Err(MetaError::Malformed)
        },
    }
}

} // verus!
