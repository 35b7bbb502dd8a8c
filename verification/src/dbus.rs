//! The D-Bus wire protocol, little-endian: bus addresses, marshalling a
//! no-argument method call, reading strings, message headers and the reply
//! serial out of received messages, and the client's decisions (the SASL
//! `EXTERNAL` exchange, matching replies to calls). The socket is driven by
//! the caller.

use vstd::prelude::*;
use vstd::string::StringSliceAdditionalSpecFns;
use vstd::utf8::*;
use crate::edit::{str_bytes, substring};
use crate::utf8::{is_boundary, lemma_after_ascii, lemma_boundary_iff};
use crate::wire::{le32, le32_at, push_all, push_le32, rd_u32};
use crate::x11::{first_index_of, padding};

verus! {

broadcast use vstd::utf8::group_utf8_lib;

// ---- bus addresses ----------------------------------------------------------

/// The bytes of `unix:`.
pub open spec fn unix_prefix() -> Seq<u8> {
    seq![117u8, 110, 105, 120, 58]
}

/// The bytes of `path=`.
pub open spec fn path_key() -> Seq<u8> {
    seq![112u8, 97, 116, 104, 61]
}

/// The bytes of `abstract=`.
pub open spec fn abstract_key() -> Seq<u8> {
    seq![97u8, 98, 115, 116, 114, 97, 99, 116, 61]
}

pub open spec fn starts_with(b: Seq<u8>, p: Seq<u8>) -> bool {
    b.len() >= p.len() && b.subrange(0, p.len() as int) == p
}

/// Offset after every leading `unix:` of `b` from `i` on.
pub open spec fn after_unix_prefixes(b: Seq<u8>, i: int) -> int
    decreases b.len() - i,
{
    if 0 <= i && i + 5 <= b.len() && b.subrange(i, i + 5) == unix_prefix() {
        after_unix_prefixes(b, i + 5)
    } else {
        i
    }
}

/// The socket path named by the comma-separated `key=value` pairs of `b`
/// from offset `i`: the first `path=` value, or the first `abstract=` value
/// with a leading NUL (the abstract-namespace form), whichever pair comes
/// first.
pub open spec fn path_in_pairs(b: Seq<u8>, i: int) -> Option<Seq<u8>>
    decreases b.len() - i,
{
    if i < 0 || i > b.len() {
        None
    } else {
        let rest = b.subrange(i, b.len() as int);
        let end = i + first_index_of(rest, 44);
        let kv = b.subrange(i, end);
        if starts_with(kv, path_key()) {
            Some(kv.subrange(5, kv.len() as int))
        } else if starts_with(kv, abstract_key()) {
            Some(seq![0u8] + kv.subrange(9, kv.len() as int))
        } else if i <= end < b.len() {
            path_in_pairs(b, end + 1)
        } else {
            None
        }
    }
}

/// The connectable socket path of a bus address: only the first `;`
/// alternative counts, any leading `unix:` is dropped, then the first
/// `path=` / `abstract=` pair names the socket.
pub open spec fn bus_socket_path(addr: Seq<u8>) -> Option<Seq<u8>> {
    let first = addr.subrange(0, first_index_of(addr, 59));
    path_in_pairs(first, after_unix_prefixes(first, 0))
}

proof fn lemma_first_index_props(b: Seq<u8>, c: u8)
    ensures
        0 <= first_index_of(b, c) <= b.len(),
        first_index_of(b, c) < b.len() ==> b[first_index_of(b, c)] == c,
        forall|j: int| 0 <= j < first_index_of(b, c) ==> b[j] != c,
    decreases b.len(),
{
    if b.len() > 0 && b[0] != c {
        let t = b.drop_first();
        lemma_first_index_props(t, c);
        assert forall|j: int| 0 <= j < first_index_of(b, c) implies b[j] != c by {
            if j > 0 {
                assert(b[j] == t[j - 1]);
            }
        }
    }
}

/// Index of the first `c` in `b[from..to]` (or `to`).
fn find_byte(b: &[u8], from: usize, to: usize, c: u8) -> (r: usize)
    requires
        from <= to <= b@.len(),
    ensures
        r == from + first_index_of(b@.subrange(from as int, to as int), c),
        from <= r <= to,
        r < to ==> b@[r as int] == c,
{
    let mut i = from;
    while i < to && b[i] != c
        invariant
            from <= i <= to <= b@.len(),
            forall|j: int| from <= j < i ==> b@[j] != c,
        decreases to - i,
    {
        i = i + 1;
    }
    proof {
        let rest = b@.subrange(from as int, to as int);
        lemma_first_index_props(rest, c);
        let k = first_index_of(rest, c);
        if k < i - from {
            assert(rest[k] == b@[from + k]);
        } else if k > i - from {
            assert(rest[i - from] == b@[i as int]);
        }
    }
    i
}

fn has_prefix_at(b: &[u8], i: usize, end: usize, p: &[u8]) -> (r: bool)
    requires
        i <= end <= b@.len(),
    ensures
        r == starts_with(b@.subrange(i as int, end as int), p@),
{
    if end - i < p.len() {
        return false;
    }
    let mut k: usize = 0;
    while k < p.len()
        invariant
            k <= p@.len() <= end - i,
            i <= end <= b@.len(),
            forall|j: int| 0 <= j < k ==> b@[i + j] == p@[j],
        decreases p@.len() - k,
    {
        if b[i + k] != p[k] {
            assert(b@.subrange(i as int, end as int).subrange(0, p@.len() as int)[k as int] != p@[k as int]);
            return false;
        }
        k = k + 1;
    }
    assert(b@.subrange(i as int, end as int).subrange(0, p@.len() as int) =~= p@);
    true
}

/// In valid UTF-8, a position next to an ASCII byte is a char boundary.
proof fn lemma_ascii_neighbors(b: Seq<u8>, j: int)
    requires
        valid_utf8(b),
        0 <= j < b.len(),
        b[j] <= 0x7f,
    ensures
        is_boundary(b, j),
        is_boundary(b, j + 1),
{
    if j + 1 < b.len() {
        lemma_after_ascii(b, j);
    }
}

/// Map `unix:path=/x` or `unix:abstract=/x` (with optional further
/// `,key=value` pairs and `;` alternatives) to a connectable path; abstract
/// sockets get a leading NUL.
pub fn parse_unix_path(addr: &str) -> (r: Option<String>)
    ensures
        match r {
            Some(p) => bus_socket_path(addr.spec_bytes()) == Some(encode_utf8(p@)),
            None => bus_socket_path(addr.spec_bytes()) is None,
        },
{
    let b = str_bytes(addr);
    let ghost bb = b@;
    let n = b.len();
    let semi = find_byte(b, 0, n, 59);
    let ghost first = bb.subrange(0, semi as int);
    proof {
        assert(bb.subrange(0, n as int) =~= bb);
        if semi < n {
            lemma_ascii_neighbors(bb, semi as int);
        } else {
            lemma_boundary_iff(bb, n as int);
        }
        lemma_boundary_iff(bb, 0);
    }
    // Skip every leading "unix:".
    let unix: [u8; 5] = [117, 110, 105, 120, 58];
    assert(unix@ =~= unix_prefix());
    let mut i: usize = 0;
    while has_prefix_at(b, i, semi, unix.as_slice())
        invariant
            i <= semi <= bb.len(),
            b@ == bb,
            unix@ == unix_prefix(),
            first == bb.subrange(0, semi as int),
            after_unix_prefixes(first, 0) == after_unix_prefixes(first, i as int),
            is_boundary(bb, i as int),
            valid_utf8(bb),
        decreases semi - i,
    {
        proof {
            assert(bb.subrange(i as int, semi as int).subrange(0, 5) =~= first.subrange(i as int, i + 5));
            assert(bb[i + 4] == bb.subrange(i as int, semi as int).subrange(0, 5)[4]);
            lemma_ascii_neighbors(bb, i + 4);
        }
        i = i + 5;
    }
    proof {
        if i + 5 <= semi {
            assert(bb.subrange(i as int, semi as int).subrange(0, 5) =~= first.subrange(i as int, i + 5));
        }
        assert(after_unix_prefixes(first, i as int) == i);
    }
    let path: [u8; 5] = [112, 97, 116, 104, 61];
    let abs: [u8; 9] = [97, 98, 115, 116, 114, 97, 99, 116, 61];
    assert(path@ =~= path_key());
    assert(abs@ =~= abstract_key());
    loop
        invariant
            i <= semi <= bb.len(),
            b@ == bb,
            first == bb.subrange(0, semi as int),
            path@ == path_key(),
            abs@ == abstract_key(),
            bus_socket_path(bb) == path_in_pairs(first, i as int),
            bb == encode_utf8(addr@),
            is_boundary(bb, i as int),
            is_boundary(bb, semi as int),
            valid_utf8(bb),
        decreases semi - i,
    {
        let end = find_byte(b, i, semi, 44);
        proof {
            assert(first.subrange(i as int, first.len() as int) =~= bb.subrange(i as int, semi as int));
            assert(first.subrange(i as int, end as int) =~= bb.subrange(i as int, end as int));
            lemma_first_index_props(bb.subrange(i as int, semi as int), 44);
            if end < semi {
                lemma_ascii_neighbors(bb, end as int);
            }
        }
        if has_prefix_at(b, i, end, path.as_slice()) {
            proof {
                assert(bb[i + 4] == bb.subrange(i as int, end as int).subrange(0, 5)[4]);
                lemma_ascii_neighbors(bb, i + 4);
                assert(bb.subrange(i as int, end as int).subrange(5, end - i) =~= bb.subrange(i + 5, end as int));
            }
            let p = substring(addr, i + 5, end);
            return Some(p);
        }
        if has_prefix_at(b, i, end, abs.as_slice()) {
            proof {
                assert(bb[i + 8] == bb.subrange(i as int, end as int).subrange(0, 9)[8]);
                lemma_ascii_neighbors(bb, i + 8);
                assert(bb.subrange(i as int, end as int).subrange(9, end - i) =~= bb.subrange(i + 9, end as int));
            }
            let p = substring(addr, i + 9, end);
            let mut r = String::from_str("\0");
            r.append(p.as_str());
            proof {
                reveal_strlit("\0");
                assert("\0"@ =~= seq!['\0']);
                crate::utf8::lemma_encode_concat("\0"@, p@);
                let s = seq!['\0'];
                assert(s[0] as u32 == 0);
                assert((0u32 & 0x7F) as u8 == 0u8) by (bit_vector);
                assert(s.drop_first() =~= Seq::<char>::empty());
                assert(encode_utf8(s.drop_first()) =~= Seq::<u8>::empty());
                assert(encode_scalar(0u32) =~= seq![0u8]);
                assert(encode_utf8(s) =~= seq![0u8]);
            }
            return Some(r);
        }
        if end >= semi {
            return None;
        }
        i = end + 1;
    }
}

// ---- marshalling ------------------------------------------------------------

/// `buf` padded with zeros to a multiple of `n`.
pub open spec fn aligned(buf: Seq<u8>, n: int) -> Seq<u8> {
    buf + padding(buf.len() as int, n)
}

/// Pad `buf` with zeros to a multiple of `n`.
pub fn align(buf: &mut Vec<u8>, n: usize)
    requires
        n > 0,
    ensures
        final(buf)@ == aligned(old(buf)@, n as int),
{
    let r = buf.len() % n;
    let need = if r == 0 { 0 } else { n - r };
    proof {
        let l0 = old(buf)@.len() as int;
        if r == 0 {
            vstd::arithmetic::div_mod::lemma_mod_self_0(n as int);
        } else {
            vstd::arithmetic::div_mod::lemma_small_mod((n - r) as nat, n as nat);
        }
        assert(need == (n as int - l0 % (n as int)) % (n as int));
    }
    let mut i: usize = 0;
    while i < need
        invariant
            i <= need,
            buf@ == old(buf)@ + Seq::new(i as nat, |j: int| 0u8),
        decreases need - i,
    {
        buf.push(0);
        i = i + 1;
        assert(buf@ =~= old(buf)@ + Seq::new(i as nat, |j: int| 0u8));
    }
    assert(buf@ =~= aligned(old(buf)@, n as int));
}

/// A STRING / OBJECT_PATH value appended to `buf`: aligned to 4, a `u32`
/// length, the bytes, and a NUL.
pub open spec fn with_string(buf: Seq<u8>, s: Seq<u8>) -> Seq<u8> {
    aligned(buf, 4) + le32(s.len() as u32 as int) + s + seq![0u8]
}

/// Append a D-Bus STRING/OBJECT_PATH value.
pub fn put_string(buf: &mut Vec<u8>, s: &str)
    ensures
        final(buf)@ == with_string(old(buf)@, s.spec_bytes()),
{
    align(buf, 4);
    let b = str_bytes(s);
    push_le32(buf, b.len() as u32);
    push_all(buf, b);
    buf.push(0);
}

/// A header field appended to `buf`: `STRUCT(BYTE code, VARIANT(sig,
/// value))`, aligned to 8.
#[verifier::opaque]
pub open spec fn with_field(buf: Seq<u8>, code: u8, sig: u8, value: Seq<u8>) -> Seq<u8> {
    with_string(aligned(buf, 8) + seq![code, 1u8, sig, 0u8], value)
}

/// Append a header field with a string-like value.
pub fn put_field(buf: &mut Vec<u8>, code: u8, sig: u8, value: &str)
    ensures
        final(buf)@ == with_field(old(buf)@, code, sig, value.spec_bytes()),
{
    proof {
        reveal(with_field);
    }
    align(buf, 8);
    buf.push(code);
    buf.push(1);
    buf.push(sig);
    buf.push(0);
    put_string(buf, value);
}

/// The header-fields array of a method call: PATH, DESTINATION, INTERFACE
/// and MEMBER, in that order.
pub open spec fn method_call_fields(destination: Seq<u8>, path: Seq<u8>, interface: Seq<u8>, member: Seq<u8>) -> Seq<
    u8,
> {
    with_field(
        with_field(with_field(with_field(Seq::empty(), 1, 111, path), 6, 115, destination), 2, 115, interface),
        3,
        115,
        member,
    )
}

/// The little-endian `METHOD_CALL` message (no arguments) with serial
/// `serial` to `member` of `interface` on object `path` at `destination`.
pub open spec fn method_call_bytes(
    serial: u32,
    destination: Seq<u8>,
    path: Seq<u8>,
    interface: Seq<u8>,
    member: Seq<u8>,
) -> Seq<u8> {
    let fields = method_call_fields(destination, path, interface, member);
    aligned(
        seq![108u8, 1u8, 0u8, 1u8] + le32(0) + le32(serial as int) + le32(fields.len() as u32 as int) + fields,
        8,
    )
}

/// Marshal a no-argument `METHOD_CALL` (little-endian).
pub fn marshal_method_call(serial: u32, destination: &str, path: &str, interface: &str, member: &str) -> (r: Vec<u8>)
    ensures
        r@ == method_call_bytes(
            serial,
            destination.spec_bytes(),
            path.spec_bytes(),
            interface.spec_bytes(),
            member.spec_bytes(),
        ),
{
    let mut fields: Vec<u8> = Vec::new();
    put_field(&mut fields, 1, 111, path);
    put_field(&mut fields, 6, 115, destination);
    put_field(&mut fields, 2, 115, interface);
    put_field(&mut fields, 3, 115, member);
    let mut msg: Vec<u8> = Vec::new();
    msg.push(108);
    msg.push(1);
    msg.push(0);
    msg.push(1);
    push_le32(&mut msg, 0);
    push_le32(&mut msg, serial);
    push_le32(&mut msg, fields.len() as u32);
    push_all(&mut msg, fields.as_slice());
    align(&mut msg, 8);
    msg
}

// ---- demarshalling ----------------------------------------------------------

/// `String::from_utf8_lossy`: the bytes decoded as UTF-8, each invalid
/// sequence replaced by U+FFFD.
pub uninterp spec fn utf8_lossy(bytes: Seq<u8>) -> Seq<char>;

/// Calls `String::from_utf8_lossy` and takes the owned string. Believed,
/// not proved: the result is the one `utf8_lossy` names for these bytes
/// (the replacement rules are not restated), and on valid UTF-8 it is
/// exactly the decoded text, as the function's documentation says.
#[verifier::external_body]
fn lossy_string(bytes: &[u8]) -> (s: String)
    ensures
        s@ == utf8_lossy(bytes@),
        valid_utf8(bytes@) ==> s@ == decode_utf8(bytes@),
{
    String::from_utf8_lossy(bytes).into_owned()
}

/// `off` rounded up to a multiple of 4.
pub open spec fn up4(off: int) -> int {
    (off + 3) / 4 * 4
}

/// Where a STRING read at `off` starts (its length word, 4-aligned), and
/// whether its length word and body lie inside `buf`.
pub open spec fn string_length_fits(buf: Seq<u8>, off: int) -> bool {
    up4(off) + 4 <= buf.len()
}

/// The byte length a STRING at `off` declares.
pub open spec fn string_len_at(buf: Seq<u8>, off: int) -> int {
    le32_at(buf, up4(off))->0 as int
}

pub open spec fn string_body_fits(buf: Seq<u8>, off: int) -> bool {
    up4(off) + 4 + string_len_at(buf, off) <= buf.len()
}

/// The bytes of the STRING at `off`.
pub open spec fn string_bytes_at(buf: Seq<u8>, off: int) -> Seq<u8> {
    buf.subrange(up4(off) + 4, up4(off) + 4 + string_len_at(buf, off))
}

/// The offset after the STRING at `off` (past its trailing NUL).
pub open spec fn string_end(buf: Seq<u8>, off: int) -> int {
    up4(off) + 4 + string_len_at(buf, off) + 1
}

/// Read a D-Bus STRING at `*off` in `buf` (u32 length + bytes + NUL),
/// advancing `*off` past it (or to where reading stopped on error).
pub fn read_string(buf: &[u8], off: &mut usize) -> (r: Result<String, String>)
    requires
        *old(off) + 3 <= usize::MAX,
        buf@.len() < usize::MAX,
    ensures
        !string_length_fits(buf@, *old(off) as int) ==> r is Err && *final(off) == up4(*old(off) as int),
        string_length_fits(buf@, *old(off) as int) && !string_body_fits(buf@, *old(off) as int) ==> r is Err
            && *final(off) == up4(*old(off) as int) + 4,
        string_length_fits(buf@, *old(off) as int) && string_body_fits(buf@, *old(off) as int) ==> (r matches Ok(
            s,
        ) && s@ == utf8_lossy(string_bytes_at(buf@, *old(off) as int)) && *final(off) == string_end(
            buf@,
            *old(off) as int,
        )),
        string_length_fits(buf@, *old(off) as int) && string_body_fits(buf@, *old(off) as int) && valid_utf8(
            string_bytes_at(buf@, *old(off) as int),
        ) ==> (r matches Ok(s) && s@ == decode_utf8(string_bytes_at(buf@, *old(off) as int))),
{
    let ghost o0 = *off as int;
    while *off % 4 != 0
        invariant
            o0 <= *off <= up4(o0),
            *off % 4 != 0 ==> *off < up4(o0),
            *off % 4 == 0 ==> *off == up4(o0),
            o0 + 3 <= usize::MAX,
        decreases up4(o0) - *off,
    {
        *off = *off + 1;
    }
    let len_total = buf.len();
    if *off > len_total || len_total - *off < 4 {
        return Err(String::from_str("truncated string length"));
    }
    let len = rd_u32(buf, *off).unwrap() as usize;
    *off = *off + 4;
    if len > len_total - *off {
        return Err(String::from_str("truncated string body"));
    }
    let body = vstd::slice::slice_subrange(buf, *off, *off + len);
    assert(body@ == string_bytes_at(buf@, o0));
    let s = lossy_string(body);
    *off = *off + len + 1;
    Ok(s)
}

/// The REPLY_SERIAL (header field 5, a UINT32) found by scanning the
/// header-fields array `f` from offset `off`; 0 if absent or the scan stops
/// on a truncated or unknown field.
pub open spec fn reply_serial_from(f: Seq<u8>, off: int) -> u32
    decreases f.len() - off,
{
    if off >= f.len() || off < 0 {
        0
    } else {
        let o1 = if (off + 7) / 8 * 8 < f.len() { (off + 7) / 8 * 8 } else { f.len() as int };
        if o1 >= f.len() {
            0
        } else {
            let code = f[o1];
            let o2 = o1 + 1;
            if o2 >= f.len() {
                0
            } else {
                let sig_len = f[o2] as int;
                let o3 = o2 + 1;
                let sig_first: Option<u8> = if o3 + sig_len <= f.len() && sig_len > 0 {
                    Some(f[o3])
                } else {
                    None
                };
                let o4 = o3 + sig_len + 1;
                match sig_first {
                    Some(c) => if c == 117 || c == 105 {
                        let o5 = if o4 >= f.len() {
                            o4
                        } else if up4(o4) < f.len() {
                            up4(o4)
                        } else {
                            f.len() as int
                        };
                        if o5 + 4 > f.len() {
                            0
                        } else if code == 5 {
                            le32_at(f, o5)->0
                        } else if o5 + 4 < f.len() {
                            reply_serial_from(f, o5 + 4)
                        } else {
                            0
                        }
                    } else if c == 103 {
                        let l = if 0 <= o4 < f.len() { f[o4] as int } else { 0 };
                        if o4 + 1 + l + 1 < f.len() {
                            reply_serial_from(f, o4 + 1 + l + 1)
                        } else {
                            0
                        }
                    } else if c == 115 || c == 111 {
                        if string_length_fits(f, o4) && string_body_fits(f, o4) && string_end(f, o4)
                            < f.len() {
                            reply_serial_from(f, string_end(f, o4))
                        } else {
                            0
                        }
                    } else {
                        0
                    },
                    None => 0,
                }
            }
        }
    }
}

/// One step of the REPLY_SERIAL scan from `off` (which lies inside the
/// array): `Ok(v)` when the field there is REPLY_SERIAL, `Err(next)` to go on
/// at `next`, `None` when the scan stops.
fn scan_field(fields: &[u8], off: usize) -> (r: Option<Result<u32, usize>>)
    requires
        off < fields@.len(),
        fields@.len() + 0x1000 <= usize::MAX,
    ensures
        match r {
            None => reply_serial_from(fields@, off as int) == 0,
            Some(Ok(v)) => reply_serial_from(fields@, off as int) == v,
            Some(Err(n)) => off < n <= fields@.len() + 0x1000 && reply_serial_from(fields@, off as int)
                == reply_serial_from(fields@, n as int),
        },
{
    let len = fields.len();
    let ghost s0 = off as int;
    let mut off = off;
    while off % 8 != 0 && off < len
        invariant
            s0 <= off <= (s0 + 7) / 8 * 8,
            s0 < len,
            off <= len,
            len == fields@.len(),
        decreases len - off,
    {
        off = off + 1;
    }
    assert(off as int == (if (s0 + 7) / 8 * 8 < len { (s0 + 7) / 8 * 8 } else { len as int }));
    if off >= len {
        return None;
    }
    let code = fields[off];
    off = off + 1;
    if off >= len {
        return None;
    }
    let sig_len = fields[off] as usize;
    off = off + 1;
    let sig_first: Option<u8> = if sig_len <= len - off && sig_len > 0 {
        Some(fields[off])
    } else {
        None
    };
    off = off + sig_len + 1;
    let ghost o4 = off as int;
    match sig_first {
        Some(c) => {
            if c == 117 || c == 105 {
                while off % 4 != 0 && off < len
                    invariant
                        o4 <= off,
                        o4 < len ==> off <= up4(o4),
                        o4 < len ==> off <= len,
                        o4 >= len ==> off == o4,
                        o4 <= len + 0x200,
                        len == fields@.len(),
                    decreases len + 0x200 - off,
                {
                    off = off + 1;
                }
                assert(off as int == (if o4 >= len { o4 } else if up4(o4) < len { up4(o4) } else { len as int }));
                if off > len || len - off < 4 {
                    return None;
                }
                let v = rd_u32(fields, off).unwrap();
                if code == 5 {
                    return Some(Ok(v));
                }
                Some(Err(off + 4))
            } else if c == 103 {
                let l: usize = if off < len { fields[off] as usize } else { 0 };
                Some(Err(off + 1 + l + 1))
            } else if c == 115 || c == 111 {
                let mut o = off;
                match read_string(fields, &mut o) {
                    Ok(_) => Some(Err(o)),
                    Err(_) => None,
                }
            } else {
                None
            }
        },
        None => None,
    }
}

/// Scan a header-fields array for REPLY_SERIAL (field code 5, a UINT32).
/// Returns 0 if absent.
pub fn parse_reply_serial(fields: &[u8]) -> (r: u32)
    requires
        fields@.len() + 0x1000 <= usize::MAX,
    ensures
        r == reply_serial_from(fields@, 0),
{
    let len = fields.len();
    let mut off: usize = 0;
    while off < len
        invariant
            len == fields@.len(),
            len + 0x1000 <= usize::MAX,
            off <= len + 0x1000,
            reply_serial_from(fields@, 0) == reply_serial_from(fields@, off as int),
        decreases len + 0x1000 - off,
    {
        match scan_field(fields, off) {
            None => {
                return 0;
            },
            Some(Ok(v)) => {
                return v;
            },
            Some(Err(n)) => {
                off = n;
            },
        }
    }
    0
}

// ---- the connection's decisions ------------------------------------------------

/// The ASCII decimal digits of `n`.
pub open spec fn decimal_digits(n: nat) -> Seq<u8>
    decreases n,
{
    if n < 10 {
        seq![(48 + n) as u8]
    } else {
        decimal_digits(n / 10).push((48 + n % 10) as u8)
    }
}

/// The lowercase hexadecimal digit of `d < 16`.
pub open spec fn hex_char(d: int) -> u8 {
    if d < 10 { (48 + d) as u8 } else { (87 + d) as u8 }
}

/// Each byte of `s` as two lowercase hexadecimal digits.
pub open spec fn hex_of(s: Seq<u8>) -> Seq<u8>
    decreases s.len(),
{
    if s.len() == 0 {
        Seq::empty()
    } else {
        hex_of(s.drop_last()) + seq![hex_char(s.last() as int / 16), hex_char(s.last() as int % 16)]
    }
}

/// The bytes of `AUTH EXTERNAL `.
pub open spec fn auth_external() -> Seq<u8> {
    seq![65u8, 85, 84, 72, 32, 69, 88, 84, 69, 82, 78, 65, 76, 32]
}

/// The SASL `EXTERNAL` command authenticating as user `uid`: the uid is sent
/// as the hex of its ASCII-decimal form, then CR LF.
pub open spec fn auth_line(uid: u32) -> Seq<u8> {
    auth_external() + hex_of(decimal_digits(uid as nat)) + seq![13u8, 10u8]
}

fn decimal_bytes(n: u32) -> (r: Vec<u8>)
    ensures
        r@ == decimal_digits(n as nat),
    decreases n,
{
    if n < 10 {
        let mut v: Vec<u8> = Vec::new();
        v.push(48 + n as u8);
        assert(v@ =~= decimal_digits(n as nat));
        v
    } else {
        let mut v = decimal_bytes(n / 10);
        v.push(48 + (n % 10) as u8);
        v
    }
}

fn hex_digit_byte(d: u8) -> (r: u8)
    requires
        d < 16,
    ensures
        r == hex_char(d as int),
{
    if d < 10 { 48 + d } else { 87 + d }
}

/// The SASL `EXTERNAL` authentication command for user `uid`.
pub fn sasl_auth_line(uid: u32) -> (r: Vec<u8>)
    ensures
        r@ == auth_line(uid),
{
    let digits = decimal_bytes(uid);
    let mut out: Vec<u8> = Vec::new();
    let head: [u8; 14] = [65, 85, 84, 72, 32, 69, 88, 84, 69, 82, 78, 65, 76, 32];
    push_all(&mut out, head.as_slice());
    assert(head@ =~= auth_external());
    let mut i: usize = 0;
    while i < digits.len()
        invariant
            i <= digits@.len(),
            out@ == auth_external() + hex_of(digits@.subrange(0, i as int)),
        decreases digits@.len() - i,
    {
        let b = digits[i];
        out.push(hex_digit_byte(b / 16));
        out.push(hex_digit_byte(b % 16));
        proof {
            let p = digits@.subrange(0, i + 1);
            assert(p.drop_last() =~= digits@.subrange(0, i as int));
            assert(p.last() == b);
        }
        i = i + 1;
        assert(out@ =~= auth_external() + hex_of(digits@.subrange(0, i as int)));
    }
    assert(digits@.subrange(0, i as int) =~= digits@);
    out.push(13);
    out.push(10);
    out
}

/// The server accepted the authentication: its reply line starts `OK `.
pub fn sasl_accepted(line: &str) -> (r: bool)
    ensures
        r == (line.spec_bytes().len() >= 3 && line.spec_bytes().subrange(0, 3) == seq![79u8, 75u8, 32u8]),
{
    let b = str_bytes(line);
    let ok = b.len() >= 3 && b[0] == 79 && b[1] == 75 && b[2] == 32;
    proof {
        if b@.len() >= 3 {
            assert(ok == (b@.subrange(0, 3) =~= seq![79u8, 75u8, 32u8]));
        }
    }
    ok
}

/// How one byte read while collecting a SASL reply line ends up.
#[derive(Clone, Copy, Debug, PartialEq, Eq, Structural)]
pub enum LineStep {
    /// Keep reading.
    More,
    /// The line is complete (`\n` seen).
    Done,
    /// The line exceeded 4096 bytes.
    TooLong,
}

/// A CR LF-terminated SASL line being collected byte by byte.
pub struct LineReader {
    bytes: Vec<u8>,
}

impl View for LineReader {
    type V = Seq<u8>;

    closed spec fn view(&self) -> Seq<u8> {
        self.bytes@
    }
}

/// Calls `String::from_utf8`. Believed, not proved: it succeeds exactly
/// when `bytes` are valid UTF-8, and then the string's bytes are `bytes`.
#[verifier::external_body]
fn utf8_string(bytes: Vec<u8>) -> (r: Option<String>)
    ensures
        r is Some <==> valid_utf8(bytes@),
        r matches Some(s) ==> encode_utf8(s@) == bytes@,
{
    String::from_utf8(bytes).ok()
}

impl LineReader {
    /// Nothing read yet.
    pub fn new() -> (r: Self)
        ensures
            r@ == Seq::<u8>::empty(),
    {
        LineReader { bytes: Vec::new() }
    }

    /// Take one byte: a `\n` ends the line (dropping a `\r` just before it);
    /// any other byte is kept, and more than 4096 kept bytes is an error.
    pub fn push(&mut self, b: u8) -> (r: LineStep)
        ensures
            b == 10 ==> r == LineStep::Done && final(self)@ == (if old(self)@.len() > 0 && old(self)@.last()
                == 13 {
                old(self)@.drop_last()
            } else {
                old(self)@
            }),
            b != 10 ==> final(self)@ == old(self)@.push(b) && r == (if old(self)@.len() + 1 > 4096 {
                LineStep::TooLong
            } else {
                LineStep::More
            }),
    {
        if b == 10 {
            let n = self.bytes.len();
            if n > 0 && self.bytes[n - 1] == 13 {
                self.bytes.pop();
            }
            return LineStep::Done;
        }
        self.bytes.push(b);
        if self.bytes.len() > 4096 {
            LineStep::TooLong
        } else {
            LineStep::More
        }
    }

    /// The collected line as text, or the error the handshake reports when
    /// it is not UTF-8.
    pub fn text(self) -> (r: Result<String, String>)
        ensures
            valid_utf8(self@) ==> (r matches Ok(s) && encode_utf8(s@) == self@),
            !valid_utf8(self@) ==> (r matches Err(e) && e@ == "SASL line not UTF-8"@),
    {
        match utf8_string(self.bytes) {
            Some(s) => Ok(s),
            None => Err(String::from_str("SASL line not UTF-8")),
        }
    }
}

/// The fixed part of a received message header.
#[derive(Clone, Copy, Debug, PartialEq, Eq, Structural)]
pub struct MessageHeader {
    /// Message type (2 = method return, 3 = error, 4 = signal).
    pub message_type: u8,
    /// Bytes of body after the padded header.
    pub body_len: u32,
    /// Bytes of the header-fields array.
    pub fields_len: u32,
    /// Zero bytes between the header-fields array and the body.
    pub pad: u32,
}

/// What the first 16 bytes of a received message announce, or why it
/// cannot be read: only little-endian messages are supported.
pub open spec fn message_header(fixed: Seq<u8>) -> Result<MessageHeader, Seq<char>> {
    if fixed[0] != 108 {
        Err("only little-endian D-Bus is supported"@)
    } else {
        let fields_len = le32_at(fixed, 12)->0;
        Ok(
            MessageHeader {
                message_type: fixed[1],
                body_len: le32_at(fixed, 4)->0,
                fields_len,
                pad: ((8 - (16 + fields_len as int) % 8) % 8) as u32,
            },
        )
    }
}

/// Read the fixed 16-byte start of a received message.
pub fn parse_message_header(fixed: &[u8; 16]) -> (r: Result<MessageHeader, String>)
    ensures
        match r {
            Ok(h) => message_header(fixed@) == Ok::<MessageHeader, Seq<char>>(h),
            Err(e) => message_header(fixed@) == Err::<MessageHeader, Seq<char>>(e@),
        },
{
    if fixed[0] != 108 {
        return Err(String::from_str("only little-endian D-Bus is supported"));
    }
    let b = fixed.as_slice();
    let body_len = rd_u32(b, 4).unwrap();
    let fields_len = rd_u32(b, 12).unwrap();
    let pad = (8 - (16 + (fields_len % 8)) % 8) % 8;
    proof {
        assert((16 + fields_len as int) % 8 == (16 + (fields_len % 8) as int) % 8) by {
            vstd::arithmetic::div_mod::lemma_add_mod_noop(16, fields_len as int, 8);
            vstd::arithmetic::div_mod::lemma_mod_twice(fields_len as int, 8);
            vstd::arithmetic::div_mod::lemma_add_mod_noop(16, (fields_len % 8) as int, 8);
        }
    }
    Ok(MessageHeader { message_type: fixed[1], body_len, fields_len, pad })
}

/// What a received message means to a pending call with serial `serial`.
#[derive(Clone, Copy, Debug, PartialEq, Eq, Structural)]
pub enum ReplyMatch {
    /// The call's method return: its body is the result.
    Return,
    /// The call failed with an error reply.
    Error,
    /// Something else (a signal, another call's reply): keep reading.
    Skip,
}

/// Match a received message of type `message_type` answering
/// `reply_serial` against the pending call `serial`.
pub fn match_reply(message_type: u8, reply_serial: u32, serial: u32) -> (r: ReplyMatch)
    ensures
        r == (if message_type == 2 && reply_serial == serial {
            ReplyMatch::Return
        } else if message_type == 3 && reply_serial == serial {
            ReplyMatch::Error
        } else {
            ReplyMatch::Skip
        }),
{
    if message_type == 2 && reply_serial == serial {
        ReplyMatch::Return
    } else if message_type == 3 && reply_serial == serial {
        ReplyMatch::Error
    } else {
        ReplyMatch::Skip
    }
}

/// `off` rounded up to 4 is where the zeros of `aligned(.., 4)` end.
proof fn lemma_up4_aligned(buf: Seq<u8>)
    ensures
        up4(buf.len() as int) == aligned(buf, 4).len(),
{
    let o = buf.len() as int;
    let q = o / 4;
    let r = o % 4;
    assert(o == 4 * q + r && 0 <= r < 4) by {
        vstd::arithmetic::div_mod::lemma_fundamental_div_mod(o, 4);
    }
    if r == 0 {
        assert((o + 3) / 4 == q) by {
            vstd::arithmetic::div_mod::lemma_fundamental_div_mod_converse(o + 3, 4, q, 3);
        }
    } else {
        assert((o + 3) / 4 == q + 1) by {
            vstd::arithmetic::div_mod::lemma_fundamental_div_mod_converse(o + 3, 4, q + 1, r - 1);
        }
    }
}

/// A STRING written after `buf` reads back, at `buf`'s end, as the same
/// bytes, and the read ends exactly where the written value ends.
pub proof fn law_string_read_after_write(buf: Seq<u8>, s: Seq<u8>)
    requires
        s.len() <= u32::MAX,
    ensures
        ({
            let w = with_string(buf, s);
            let o = buf.len() as int;
            &&& string_length_fits(w, o)
            &&& string_body_fits(w, o)
            &&& string_bytes_at(w, o) == s
            &&& string_end(w, o) == w.len()
        }),
{
    let a = aligned(buf, 4);
    let w = with_string(buf, s);
    let o = buf.len() as int;
    lemma_up4_aligned(buf);
    let k = a.len() as int;
    assert(up4(o) == k);
    crate::wire::law_le32_round_trip(a, s.len() as u32);
    let p = a + le32(s.len() as u32 as int);
    assert(w == p + s + seq![0u8]);
    assert(le32_at(w, k) == le32_at(p, k)) by {
        assert(w[k] == p[k]);
        assert(w[k + 1] == p[k + 1]);
        assert(w[k + 2] == p[k + 2]);
        assert(w[k + 3] == p[k + 3]);
    }
    assert(string_len_at(w, o) == s.len());
    assert(w.subrange(k + 4, k + 4 + s.len()) =~= s);
}

/// A method call read back by the receiving side's header parser announces
/// a `METHOD_CALL` with an empty body whose padded header is the whole
/// message.
pub proof fn law_method_call_header_reads_back(
    serial: u32,
    destination: Seq<u8>,
    path: Seq<u8>,
    interface: Seq<u8>,
    member: Seq<u8>,
)
    requires
        method_call_fields(destination, path, interface, member).len() <= u32::MAX,
    ensures
        ({
            let msg = method_call_bytes(serial, destination, path, interface, member);
            let f = method_call_fields(destination, path, interface, member);
            &&& msg.len() >= 16
            &&& message_header(msg.subrange(0, 16)) == Ok::<MessageHeader, Seq<char>>(
                MessageHeader {
                    message_type: 1,
                    body_len: 0,
                    fields_len: f.len() as u32,
                    pad: (msg.len() - 16 - f.len()) as u32,
                },
            )
            &&& msg.subrange(16, 16 + f.len() as int) == f
        }),
{
    let f = method_call_fields(destination, path, interface, member);
    let h0 = seq![108u8, 1u8, 0u8, 1u8];
    let h1 = h0 + le32(0);
    let h2 = h1 + le32(serial as int);
    let h3 = h2 + le32(f.len() as u32 as int);
    let msg = method_call_bytes(serial, destination, path, interface, member);
    assert(msg == aligned(h3 + f, 8));
    crate::wire::law_le32_round_trip(h0, 0);
    crate::wire::law_le32_round_trip(h2, f.len() as u32);
    let fixed = msg.subrange(0, 16);
    assert(fixed =~= h3);
    assert(le32_at(fixed, 4) == le32_at(h1, 4));
    assert(le32_at(fixed, 12) == le32_at(h3, 12));
    let n = 16 + f.len();
    assert((n as int) % 8 == (16 + f.len() as int) % 8);
    assert(msg.subrange(16, 16 + f.len() as int) =~= f);
}

/// `off` rounded up to a multiple of 8.
pub open spec fn up8(off: int) -> int {
    (off + 7) / 8 * 8
}

/// The header field at `off` of a fields array `f` reads as code `code`
/// with a one-byte signature `sig` and a STRING / OBJECT_PATH value `value`:
/// bytes `code, 1, sig, 0`, then the string (length word, bytes, NUL).
pub open spec fn field_reads(f: Seq<u8>, off: int, code: u8, sig: u8, value: Seq<u8>) -> bool {
    &&& 0 <= off
    &&& off + 4 <= f.len()
    &&& f[off] == code
    &&& f[off + 1] == 1
    &&& f[off + 2] == sig
    &&& f[off + 3] == 0
    &&& string_length_fits(f, off + 4)
    &&& string_body_fits(f, off + 4)
    &&& string_bytes_at(f, off + 4) == value
}

/// Where the header field after the one at `off` starts: past its string,
/// rounded up to 8.
pub open spec fn field_next(f: Seq<u8>, off: int) -> int {
    up8(string_end(f, off + 4))
}

proof fn lemma_up8_aligned(buf: Seq<u8>)
    ensures
        up8(buf.len() as int) == aligned(buf, 8).len(),
        up8(buf.len() as int) % 8 == 0,
        buf.len() <= up8(buf.len() as int) <= buf.len() + 7,
{
    let o = buf.len() as int;
    let q = o / 8;
    let r = o % 8;
    assert(o == 8 * q + r && 0 <= r < 8) by {
        vstd::arithmetic::div_mod::lemma_fundamental_div_mod(o, 8);
    }
    if r == 0 {
        assert((o + 7) / 8 == q) by {
            vstd::arithmetic::div_mod::lemma_fundamental_div_mod_converse(o + 7, 8, q, 7);
        }
    } else {
        assert((o + 7) / 8 == q + 1) by {
            vstd::arithmetic::div_mod::lemma_fundamental_div_mod_converse(o + 7, 8, q + 1, r - 1);
        }
    }
    assert(((o + 7) / 8 * 8) % 8 == 0) by {
        vstd::arithmetic::div_mod::lemma_mod_multiples_basic((o + 7) / 8, 8);
    }
}

/// A field appended by `with_field` reads back at `buf`'s end rounded up
/// to 8, leaves `buf` in front, and the next field would start at the new
/// end rounded up to 8.
proof fn lemma_with_field_reads(buf: Seq<u8>, code: u8, sig: u8, v: Seq<u8>)
    requires
        v.len() <= u32::MAX,
    ensures
        ({
            let w = with_field(buf, code, sig, v);
            let o = up8(buf.len() as int);
            &&& w.subrange(0, buf.len() as int) == buf
            &&& field_reads(w, o, code, sig, v)
            &&& string_end(w, o + 4) == w.len()
            &&& w.len() == o + 9 + v.len()
            &&& buf.len() <= o <= buf.len() + 7
        }),
{
    reveal(with_field);
    lemma_up8_aligned(buf);
    let a = aligned(buf, 8);
    let o = up8(buf.len() as int);
    let p = a + seq![code, 1u8, sig, 0u8];
    assert(p.len() == o + 4);
    assert((o + 4) % 4 == 0);
    assert(padding(p.len() as int, 4) =~= Seq::<u8>::empty());
    assert(aligned(p, 4) =~= p);
    let w = with_field(buf, code, sig, v);
    assert(w == with_string(p, v));
    law_string_read_after_write(p, v);
    assert(w.subrange(0, buf.len() as int) =~= buf);
    assert(w[o] == code && w[o + 1] == 1 && w[o + 2] == sig && w[o + 3] == 0);
}

/// Reading a field inside a prefix of `f` reads the same in `f`.
proof fn lemma_field_reads_prefix(w: Seq<u8>, f: Seq<u8>, off: int, code: u8, sig: u8, v: Seq<u8>)
    requires
        w.len() <= f.len(),
        f.subrange(0, w.len() as int) == w,
        field_reads(w, off, code, sig, v),
        string_end(w, off + 4) <= w.len(),
    ensures
        field_reads(f, off, code, sig, v),
        field_next(f, off) == field_next(w, off),
{
    let k = up4(off + 4);
    assert(w[off] == f[off] && w[off + 1] == f[off + 1] && w[off + 2] == f[off + 2] && w[off + 3] == f[off + 3]);
    assert(w[k] == f[k] && w[k + 1] == f[k + 1] && w[k + 2] == f[k + 2] && w[k + 3] == f[k + 3]);
    assert(le32_at(w, k) == le32_at(f, k));
    assert(string_bytes_at(w, off + 4) =~= string_bytes_at(f, off + 4));
}

/// A prefix of a prefix of `c` is a prefix of `c`.
proof fn lemma_prefix_of_prefix(a: Seq<u8>, b: Seq<u8>, c: Seq<u8>)
    requires
        a.len() <= b.len() <= c.len(),
        b.subrange(0, a.len() as int) == a,
        c.subrange(0, b.len() as int) == b,
    ensures
        c.subrange(0, a.len() as int) == a,
{
    assert forall|i: int| 0 <= i < a.len() implies c.subrange(0, a.len() as int)[i] == a[i] by {
        assert(b.subrange(0, a.len() as int)[i] == b[i]);
        assert(c.subrange(0, b.len() as int)[i] == c[i]);
    }
    assert(c.subrange(0, a.len() as int) =~= a);
}

/// The header-fields array of a method call reads, from offset 0, field by
/// field: PATH, DESTINATION, INTERFACE, MEMBER.
proof fn lemma_method_call_fields_read(
    destination: Seq<u8>,
    path: Seq<u8>,
    interface: Seq<u8>,
    member: Seq<u8>,
)
    requires
        destination.len() + path.len() + interface.len() + member.len() <= 0x1000_0000,
    ensures
        ({
            let f = method_call_fields(destination, path, interface, member);
            let o1 = field_next(f, 0);
            let o2 = field_next(f, o1);
            let o3 = field_next(f, o2);
            &&& f.len() <= 0x1000_0040
            &&& field_reads(f, 0, 1, 111, path)
            &&& field_reads(f, o1, 6, 115, destination)
            &&& field_reads(f, o2, 2, 115, interface)
            &&& field_reads(f, o3, 3, 115, member)
        }),
{
    let e = Seq::<u8>::empty();
    lemma_with_field_reads(e, 1, 111, path);
    let w1 = with_field(e, 1, 111, path);
    lemma_with_field_reads(w1, 6, 115, destination);
    let w2 = with_field(w1, 6, 115, destination);
    lemma_with_field_reads(w2, 2, 115, interface);
    let w3 = with_field(w2, 2, 115, interface);
    lemma_with_field_reads(w3, 3, 115, member);
    let w4 = with_field(w3, 3, 115, member);
    assert(up8(0) == 0);
    assert(w4 == method_call_fields(destination, path, interface, member));
    lemma_prefix_of_prefix(w2, w3, w4);
    lemma_prefix_of_prefix(w1, w2, w3);
    lemma_prefix_of_prefix(w1, w3, w4);
    assert(w4.subrange(0, w4.len() as int) =~= w4);
    lemma_field_reads_prefix(w1, w4, 0, 1, 111, path);
    lemma_field_reads_prefix(w2, w4, up8(w1.len() as int), 6, 115, destination);
    lemma_field_reads_prefix(w3, w4, up8(w2.len() as int), 2, 115, interface);
    lemma_field_reads_prefix(w4, w4, up8(w3.len() as int), 3, 115, member);
}

/// A marshalled method call carries, in its header-fields array (the
/// `u32` at byte 12 gives its length; it starts at byte 16), four fields
/// read one after another from offset 0, each starting at the previous
/// field's end rounded up to 8: code 1 (PATH, signature `o`) holding `path`,
/// code 6 (DESTINATION, `s`) holding `destination`, code 2 (INTERFACE, `s`)
/// holding `interface`, and code 3 (MEMBER, `s`) holding `member`.
pub proof fn law_method_call_fields_read_back(
    serial: u32,
    destination: Seq<u8>,
    path: Seq<u8>,
    interface: Seq<u8>,
    member: Seq<u8>,
)
    requires
        destination.len() + path.len() + interface.len() + member.len() <= 0x1000_0000,
    ensures
        ({
            let msg = method_call_bytes(serial, destination, path, interface, member);
            let n = le32_at(msg, 12)->0 as int;
            let f = msg.subrange(16, 16 + n);
            let o1 = field_next(f, 0);
            let o2 = field_next(f, o1);
            let o3 = field_next(f, o2);
            &&& le32_at(msg, 12) is Some
            &&& 16 + n <= msg.len()
            &&& field_reads(f, 0, 1, 111, path)
            &&& field_reads(f, o1, 6, 115, destination)
            &&& field_reads(f, o2, 2, 115, interface)
            &&& field_reads(f, o3, 3, 115, member)
        }),
{
    let w = method_call_fields(destination, path, interface, member);
    lemma_method_call_fields_read(destination, path, interface, member);
    law_method_call_header_reads_back(serial, destination, path, interface, member);
    let msg = method_call_bytes(serial, destination, path, interface, member);
    let fixed = msg.subrange(0, 16);
    assert(fixed[0] == 108);
    assert(le32_at(msg, 12) == le32_at(fixed, 12)) by {
        assert(msg[12] == fixed[12] && msg[13] == fixed[13] && msg[14] == fixed[14] && msg[15] == fixed[15]);
    }
    assert(le32_at(msg, 12)->0 as int == w.len());
    assert(msg.subrange(16, 16 + w.len() as int) == w);
}

} // verus!
