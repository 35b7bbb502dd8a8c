//! The X11 wire protocol: parsing `$DISPLAY`, the connection-setup reply and
//! `.Xauthority`, encoding requests, converting RGBA rows to ZPixmap,
//! decoding the keyboard map and 32-byte events, what each event means to
//! the application, and which pixels each present uploads. The socket itself
//! is driven by the caller.

use vstd::prelude::*;
use vstd::utf8::is_scalar;
use crate::geometry::PhysicalSize;
use crate::input::{char_from_u32, char_to_string, ButtonState, DeviceEvent, KeyCode, Modifiers, PointerButton};
use vstd::string::StringSliceAdditionalSpecFns;
use crate::wire::{
    be16_at, decimal_u32, le16, le16_at, le32, le32_at, parse_u32, push_all, push_le16, push_le32,
    rd_be16, rd_u16, rd_u32,
};

verus! {

/// Minor opcode of MIT-SHM `ShmAttach`.
pub const SHM_ATTACH: u8 = 1;

/// Minor opcode of MIT-SHM `ShmPutImage`.
pub const SHM_PUT_IMAGE: u8 = 3;

// ---- $DISPLAY -----------------------------------------------------------------

/// A parsed `$DISPLAY` (the local, unix-socket case).
#[derive(Clone, Copy, Debug, PartialEq, Eq, Structural)]
pub struct DisplayAddr {
    /// Display number (the `0` in `:0`).
    pub number: u32,
    /// Screen number (rarely non-zero).
    pub screen: u32,
}

/// Index of the last `c` in `b`, or -1.
pub open spec fn last_index_of(b: Seq<u8>, c: u8) -> int
    decreases b.len(),
{
    if b.len() == 0 {
        -1
    } else if b.last() == c {
        b.len() - 1
    } else {
        last_index_of(b.drop_last(), c)
    }
}

/// Index of the first `c` in `b`, or `b.len()`.
pub open spec fn first_index_of(b: Seq<u8>, c: u8) -> int
    decreases b.len(),
{
    if b.len() == 0 {
        0
    } else if b[0] == c {
        0
    } else {
        1 + first_index_of(b.drop_first(), c)
    }
}

/// The display address spelled by `$DISPLAY` bytes `b`: the part after the
/// last `:`, split at its first `.` into a display number (required) and a
/// screen number (0 when absent or unparsable).
pub open spec fn display_addr(b: Seq<u8>) -> Option<DisplayAddr> {
    let after = b.subrange(last_index_of(b, 58) + 1, b.len() as int);
    let dot = first_index_of(after, 46);
    let screen = if dot < after.len() {
        match decimal_u32(after.subrange(dot + 1, after.len() as int)) {
            Some(s) => s,
            None => 0,
        }
    } else {
        0
    };
    match decimal_u32(after.subrange(0, dot)) {
        Some(number) => Some(DisplayAddr { number, screen }),
        None => None,
    }
}

proof fn lemma_last_index_unique(b: Seq<u8>, c: u8, k: int)
    requires
        -1 <= k < b.len(),
        k >= 0 ==> b[k] == c,
        forall|j: int| k < j < b.len() ==> b[j] != c,
    ensures
        last_index_of(b, c) == k,
    decreases b.len(),
{
    if b.len() > 0 && b.last() != c {
        lemma_last_index_unique(b.drop_last(), c, k);
    }
}

proof fn lemma_first_index_unique(b: Seq<u8>, c: u8, k: int)
    requires
        0 <= k <= b.len(),
        k < b.len() ==> b[k] == c,
        forall|j: int| 0 <= j < k ==> b[j] != c,
    ensures
        first_index_of(b, c) == k,
    decreases b.len(),
{
    if b.len() > 0 && b[0] != c {
        lemma_first_index_unique(b.drop_first(), c, k - 1);
    }
}

/// Parse `$DISPLAY` (`":0"`, `":0.1"`, `"hostname:0"`): only the part after
/// the last `:` matters for the local socket.
pub fn parse_display(display: &str) -> (r: Option<DisplayAddr>)
    ensures
        r == display_addr(display.spec_bytes()),
{
    let b = display.as_bytes();
    let n = b.len();
    let mut k = n;
    while k > 0 && b[k - 1] != 58
        invariant
            k <= n == b@.len(),
            forall|j: int| k <= j < n ==> b@[j] != 58,
        decreases k,
    {
        k = k - 1;
    }
    proof {
        lemma_last_index_unique(b@, 58, k - 1);
    }
    let after = vstd::slice::slice_subrange(b, k, n);
    let m = after.len();
    let mut dot: usize = 0;
    while dot < m && after[dot] != 46
        invariant
            dot <= m == after@.len(),
            forall|j: int| 0 <= j < dot ==> after@[j] != 46,
        decreases m - dot,
    {
        dot = dot + 1;
    }
    proof {
        lemma_first_index_unique(after@, 46, dot as int);
    }
    let number = parse_u32(vstd::slice::slice_subrange(after, 0, dot))?;
    let screen = if dot < m {
        match parse_u32(vstd::slice::slice_subrange(after, dot + 1, m)) {
            Some(s) => s,
            None => 0,
        }
    } else {
        0
    };
    Some(DisplayAddr { number, screen })
}

// ---- connection setup -----------------------------------------------------------

/// The fields used from the X11 connection-setup reply.
#[derive(Clone, Copy, Debug, PartialEq, Eq, Structural)]
pub struct Setup {
    pub resource_id_base: u32,
    pub resource_id_mask: u32,
    pub root: u32,
    pub root_visual: u32,
    pub root_depth: u8,
    /// Server's max request length, in 4-byte units.
    pub max_request_len: u32,
    pub min_keycode: u8,
    pub max_keycode: u8,
}

/// The byte at `i`, if in bounds.
pub open spec fn byte_at(d: Seq<u8>, i: int) -> Option<u8> {
    if 0 <= i < d.len() {
        Some(d[i])
    } else {
        None
    }
}

/// `v` rounded up to a multiple of 4.
pub open spec fn round_up4(v: int) -> int {
    (v + 3) / 4 * 4
}

/// Offset of the first SCREEN in the setup reply's additional data: the
/// 32-byte fixed block, the vendor string padded to 4, then 8 bytes per
/// pixmap format.
pub open spec fn screens_offset(vendor_len: int, num_formats: int) -> int {
    32 + round_up4(vendor_len) + num_formats * 8
}

/// The setup fields read from the additional data `d` of a successful setup
/// reply, or `None` when a field lies past its end.
pub open spec fn setup_of(d: Seq<u8>) -> Option<Setup> {
    match (le32_at(d, 4), le32_at(d, 8), le16_at(d, 18), le16_at(d, 16), byte_at(d, 21)) {
        (Some(base), Some(mask), Some(max_req), Some(vendor_len), Some(nf)) => {
            let off = screens_offset(vendor_len as int, nf as int);
            match (
                byte_at(d, 26),
                byte_at(d, 27),
                le32_at(d, off),
                le32_at(d, off + 32),
                byte_at(d, off + 38),
            ) {
                (Some(min_kc), Some(max_kc), Some(root), Some(visual), Some(depth)) => Some(
                    Setup {
                        resource_id_base: base,
                        resource_id_mask: mask,
                        root,
                        root_visual: visual,
                        root_depth: depth,
                        max_request_len: max_req as u32,
                        min_keycode: min_kc,
                        max_keycode: max_kc,
                    },
                ),
                _ => None,
            }
        },
        _ => None,
    }
}

fn get_byte(d: &[u8], i: usize) -> (r: Option<u8>)
    ensures
        r == byte_at(d@, i as int),
{
    if i < d.len() {
        Some(d[i])
    } else {
        None
    }
}

/// Parse the additional-data portion of a successful setup reply
/// (everything after the first 8-byte header).
pub fn parse_setup(data: &[u8]) -> (r: Option<Setup>)
    ensures
        r == setup_of(data@),
{
    let resource_id_base = rd_u32(data, 4)?;
    let resource_id_mask = rd_u32(data, 8)?;
    let max_request_len = rd_u16(data, 18)? as u32;
    let vendor_len = rd_u16(data, 16)? as usize;
    let num_formats = get_byte(data, 21)? as usize;
    let vendor_pad = (vendor_len + 3) / 4 * 4;
    let screens_off = 32 + vendor_pad + num_formats * 8;
    let min_keycode = get_byte(data, 26)?;
    let max_keycode = get_byte(data, 27)?;
    let root = rd_u32(data, screens_off)?;
    let root_visual = rd_u32(data, screens_off + 32)?;
    let root_depth = get_byte(data, screens_off + 38)?;
    Some(
        Setup {
            resource_id_base,
            resource_id_mask,
            root,
            root_visual,
            root_depth,
            max_request_len,
            min_keycode,
            max_keycode,
        },
    )
}

// ---- pixel conversion -------------------------------------------------------

/// Byte `i` of the ZPixmap (`[B, G, R, 0]` per pixel) form of RGBA bytes `s`.
pub open spec fn bgrx_byte(s: Seq<u8>, i: int) -> u8 {
    let p = i / 4 * 4;
    if i % 4 == 0 {
        s[p + 2]
    } else if i % 4 == 1 {
        s[p + 1]
    } else if i % 4 == 2 {
        s[p]
    } else {
        0
    }
}

/// The ZPixmap bytes of every whole RGBA pixel in `s`.
pub open spec fn bgrx(s: Seq<u8>) -> Seq<u8> {
    Seq::new(s.len() / 4 * 4, |i: int| bgrx_byte(s, i))
}

/// Convert a straight-RGBA8 row into X11 ZPixmap bytes for a 24-depth
/// little-endian server: each pixel becomes `[B, G, R, 0]`.
pub fn rgba_to_bgrx(rgba: &[u8], out: &mut Vec<u8>)
    ensures
        final(out)@ == bgrx(rgba@),
{
    out.clear();
    let len = rgba.len();
    let n = len / 4;
    let mut p: usize = 0;
    while p < n
        invariant
            n == rgba@.len() / 4,
            len == rgba@.len(),
            p <= n,
            out@.len() == p * 4,
            forall|i: int| 0 <= i < p * 4 ==> #[trigger] out@[i] == bgrx_byte(rgba@, i),
        decreases n - p,
    {
        let q = p * 4;
        out.push(rgba[q + 2]);
        out.push(rgba[q + 1]);
        out.push(rgba[q]);
        out.push(0);
        p = p + 1;
    }
    assert(out@ =~= bgrx(rgba@));
}

/// Swizzle a straight-RGBA8 row into a ZPixmap (`[B, G, R, 0]`) row in
/// place, for as many whole pixels as both rows hold.
pub fn swizzle_row(src: &[u8], dst: &mut [u8])
    ensures
        final(dst)@.len() == old(dst)@.len(),
        forall|i: int|
            0 <= i < old(dst)@.len() ==> #[trigger] final(dst)@[i] == if i < swizzled_len(
                src@.len() as int,
                old(dst)@.len() as int,
            ) {
                bgrx_byte(src@, i)
            } else {
                old(dst)@[i]
            },
{
    let src_len = src.len();
    let dst_len = dst.len();
    let a = src_len / 4;
    let b = dst_len / 4;
    let n = if a < b { a } else { b };
    let mut p: usize = 0;
    while p < n
        invariant
            n == (if src@.len() / 4 < old(dst)@.len() / 4 { src@.len() / 4 } else { old(dst)@.len() / 4 }),
            p <= n,
            src_len == src@.len(),
            dst_len == old(dst)@.len(),
            dst@.len() == old(dst)@.len(),
            forall|i: int|
                0 <= i < dst@.len() ==> #[trigger] dst@[i] == if i < p * 4 {
                    bgrx_byte(src@, i)
                } else {
                    old(dst)@[i]
                },
        decreases n - p,
    {
        let q = p * 4;
        dst[q] = src[q + 2];
        dst[q + 1] = src[q + 1];
        dst[q + 2] = src[q];
        dst[q + 3] = 0;
        p = p + 1;
    }
}

/// Bytes converted by [`swizzle_row`]: whole pixels present in both rows.
pub open spec fn swizzled_len(src_len: int, dst_len: int) -> int {
    (if src_len / 4 < dst_len / 4 { src_len / 4 } else { dst_len / 4 }) * 4
}

// ---- requests ---------------------------------------------------------------

/// The bytes of a `ShmPutImage` request blitting the sub-rectangle `(x, y,
/// rw, rh)` of a `total_w × total_h` ZPixmap image (depth 24) from segment
/// `seg` to the drawable at the same position. Sizes and positions travel as
/// 16-bit fields (the destination position as signed 16-bit, same bytes).
pub open spec fn shm_put_image_bytes(
    major: u8,
    drawable: u32,
    gc: u32,
    seg: u32,
    total_w: int,
    total_h: int,
    x: int,
    y: int,
    rw: int,
    rh: int,
) -> Seq<u8> {
    seq![major, SHM_PUT_IMAGE, 0u8, 0u8] + le32(drawable as int) + le32(gc as int) + le16(
        total_w as u16 as int,
    ) + le16(total_h as u16 as int) + le16(x as u16 as int) + le16(y as u16 as int) + le16(
        rw as u16 as int,
    ) + le16(rh as u16 as int) + le16(x as u16 as int) + le16(y as u16 as int) + seq![
        24u8,
        2u8,
        0u8,
        0u8,
    ] + le32(seg as int) + le32(0)
}

/// Encode a `ShmPutImage` request (before [`finish`] sets its length).
pub fn shm_put_image(
    major: u8,
    drawable: u32,
    gc: u32,
    seg: u32,
    total_w: usize,
    total_h: usize,
    x: usize,
    y: usize,
    rw: usize,
    rh: usize,
) -> (r: Vec<u8>)
    ensures
        r@ == shm_put_image_bytes(
            major,
            drawable,
            gc,
            seg,
            total_w as int,
            total_h as int,
            x as int,
            y as int,
            rw as int,
            rh as int,
        ),
{
    let mut req: Vec<u8> = Vec::new();
    req.push(major);
    req.push(SHM_PUT_IMAGE);
    req.push(0);
    req.push(0);
    push_le32(&mut req, drawable);
    push_le32(&mut req, gc);
    push_le16(&mut req, total_w as u16);
    push_le16(&mut req, total_h as u16);
    push_le16(&mut req, x as u16);
    push_le16(&mut req, y as u16);
    push_le16(&mut req, rw as u16);
    push_le16(&mut req, rh as u16);
    push_le16(&mut req, x as u16);
    push_le16(&mut req, y as u16);
    req.push(24);
    req.push(2);
    req.push(0);
    req.push(0);
    push_le32(&mut req, seg);
    push_le32(&mut req, 0);
    assert(req@ =~= shm_put_image_bytes(
        major,
        drawable,
        gc,
        seg,
        total_w as int,
        total_h as int,
        x as int,
        y as int,
        rw as int,
        rh as int,
    ));
    req
}

/// Zero bytes that pad a length `n` up to a multiple of `k`.
pub open spec fn padding(n: int, k: int) -> Seq<u8> {
    Seq::new(((k - n % k) % k) as nat, |i: int| 0u8)
}

/// Pad `buf` with zeros to a multiple of 4 bytes.
pub fn pad4(buf: &mut Vec<u8>)
    ensures
        final(buf)@ == old(buf)@ + padding(old(buf)@.len() as int, 4),
{
    while buf.len() % 4 != 0
        invariant
            buf@.len() <= old(buf)@.len() + padding(old(buf)@.len() as int, 4).len(),
            buf@ == old(buf)@ + Seq::new((buf@.len() - old(buf)@.len()) as nat, |i: int| 0u8),
            (buf@.len() - old(buf)@.len()) <= (4 - old(buf)@.len() % 4) % 4,
            (buf@.len() % 4 == 0) ==> buf@.len() == old(buf)@.len() + (4 - old(buf)@.len() % 4) % 4,
        decreases (4 - buf@.len() % 4) % 4,
    {
        buf.push(0);
        assert(buf@ =~= old(buf)@ + Seq::new((buf@.len() - old(buf)@.len()) as nat, |i: int| 0u8));
    }
    assert(buf@ =~= old(buf)@ + padding(old(buf)@.len() as int, 4));
}

/// Set the request-length field (offset 2, in 4-byte units) from the final
/// buffer length, then return the buffer.
pub fn finish(req: Vec<u8>) -> (r: Vec<u8>)
    requires
        req@.len() >= 4,
    ensures
        r@ == req@.update(2, le16((req@.len() / 4) as u16 as int)[0]).update(
            3,
            le16((req@.len() / 4) as u16 as int)[1],
        ),
{
    let mut req = req;
    let words = (req.len() / 4) as u16;
    req.set(2, (words % 256) as u8);
    req.set(3, (words / 256) as u8);
    req
}

// ---- .Xauthority --------------------------------------------------------------

/// The name of the cookie authorization protocol, `MIT-MAGIC-COOKIE-1`.
pub open spec fn cookie_protocol() -> Seq<u8> {
    seq![77u8, 73, 84, 45, 77, 65, 71, 73, 67, 45, 67, 79, 79, 75, 73, 69, 45, 49]
}

/// The cookie of the first `MIT-MAGIC-COOKIE-1` entry of an `.Xauthority`
/// file `d`, scanning entries from offset `o`. Each entry is family(2),
/// then four big-endian length-prefixed fields: address, display number,
/// protocol name and data. A truncated entry ends the scan with `None`.
pub open spec fn xauth_cookie_from(d: Seq<u8>, o: int) -> Option<Seq<u8>>
    decreases d.len() - o,
{
    if o < 0 || o + 2 > d.len() {
        None
    } else {
        let o1 = o + 2;
        match be16_at(d, o1) {
            None => None,
            Some(addr_len) => {
                let o2 = o1 + 2 + addr_len;
                match be16_at(d, o2) {
                    None => None,
                    Some(num_len) => {
                        let o3 = o2 + 2 + num_len;
                        match be16_at(d, o3) {
                            None => None,
                            Some(name_len) => {
                                let ns = o3 + 2;
                                let ne = ns + name_len;
                                if ne > d.len() {
                                    None
                                } else {
                                    match be16_at(d, ne) {
                                        None => None,
                                        Some(data_len) => {
                                            let cs = ne + 2;
                                            let ce = cs + data_len;
                                            if ce > d.len() {
                                                None
                                            } else if d.subrange(ns, ne) == cookie_protocol() {
                                                Some(d.subrange(cs, ce))
                                            } else {
                                                xauth_cookie_from(d, ce)
                                            }
                                        },
                                    }
                                }
                            },
                        }
                    },
                }
            },
        }
    }
}

fn is_cookie_protocol(d: &[u8], start: usize, end: usize) -> (r: bool)
    requires
        start <= end <= d@.len(),
    ensures
        r == (d@.subrange(start as int, end as int) == cookie_protocol()),
{
    let key: [u8; 18] = [77, 73, 84, 45, 77, 65, 71, 73, 67, 45, 67, 79, 79, 75, 73, 69, 45, 49];
    assert(key@ =~= cookie_protocol());
    if end - start != 18 {
        return false;
    }
    let mut i: usize = 0;
    while i < 18
        invariant
            i <= 18,
            end - start == 18,
            start <= end <= d@.len(),
            key@ == cookie_protocol(),
            forall|j: int| 0 <= j < i ==> d@[start + j] == key@[j],
        decreases 18 - i,
    {
        if d[start + i] != key[i] {
            assert(d@.subrange(start as int, end as int)[i as int] != cookie_protocol()[i as int]);
            return false;
        }
        i = i + 1;
    }
    assert(d@.subrange(start as int, end as int) =~= cookie_protocol());
    true
}

/// The cookie of the first `MIT-MAGIC-COOKIE-1` entry in `.Xauthority`
/// contents, if any.
pub fn parse_xauth_cookie(data: &[u8]) -> (r: Option<Vec<u8>>)
    ensures
        match r {
            Some(c) => xauth_cookie_from(data@, 0) == Some(c@),
            None => xauth_cookie_from(data@, 0) is None,
        },
{
    let len = data.len();
    let mut o: usize = 0;
    while o <= len && len - o >= 2
        invariant
            len == data@.len(),
            o <= len,
            xauth_cookie_from(data@, 0) == xauth_cookie_from(data@, o as int),
        decreases len - o,
    {
        let o1 = o + 2;
        let addr_len = rd_be16(data, o1)? as usize;
        if addr_len + 2 > len - (o1 + 2) {
            return None;
        }
        let o2 = o1 + 2 + addr_len;
        let num_len = rd_be16(data, o2)? as usize;
        if num_len + 2 > len - (o2 + 2) {
            return None;
        }
        let o3 = o2 + 2 + num_len;
        let name_len = rd_be16(data, o3)? as usize;
        let ns = o3 + 2;
        if name_len > len - ns {
            return None;
        }
        let ne = ns + name_len;
        let data_len = rd_be16(data, ne)? as usize;
        let cs = ne + 2;
        if data_len > len - cs {
            return None;
        }
        let ce = cs + data_len;
        if is_cookie_protocol(data, ns, ne) {
            return Some(vstd::slice::slice_to_vec(vstd::slice::slice_subrange(data, cs, ce)));
        }
        o = ce;
    }
    None
}


// ---- keyboard ---------------------------------------------------------------

/// The keyboard mapping (keycode → keysyms) fetched via `GetKeyboardMapping`:
/// `per` keysyms for each keycode from `min` up.
pub struct Keymap {
    syms: Vec<u32>,
    per: usize,
    min: u8,
}

/// The little-endian 32-bit words of `body` (a trailing partial word is
/// ignored).
pub open spec fn words_of(body: Seq<u8>) -> Seq<u32> {
    Seq::new(
        body.len() / 4,
        |k: int|
            (body[4 * k] + body[4 * k + 1] * 256 + body[4 * k + 2] * 65536 + body[4 * k + 3]
                * 16777216) as u32,
    )
}

/// The keysym for `keycode` (shifted when `shift` and the map has a shifted
/// column), falling back to the unshifted keysym when the shifted slot is
/// empty; 0 when the keycode is below the map or the slot is missing.
pub open spec fn keysym_of(syms: Seq<u32>, per: int, min: int, keycode: int, shift: bool) -> u32 {
    if keycode < min || per == 0 {
        0
    } else {
        let base = (keycode - min) * per;
        let i = base + if shift && per > 1 { 1int } else { 0int };
        let ks = if i < syms.len() { syms[i] } else { 0u32 };
        if ks == 0 {
            if base < syms.len() { syms[base] } else { 0u32 }
        } else {
            ks
        }
    }
}

impl Keymap {
    #[verifier::type_invariant]
    spec fn inv(self) -> bool {
        self.per <= 255
    }

    pub closed spec fn symbols(&self) -> Seq<u32> {
        self.syms@
    }

    pub closed spec fn per_keycode(&self) -> int {
        self.per as int
    }

    pub closed spec fn min_keycode(&self) -> int {
        self.min as int
    }

    /// The map carried by a `GetKeyboardMapping` reply: `per` keysyms per
    /// keycode (reply byte 1), starting at keycode `min`, as the
    /// little-endian words of the reply `body`.
    pub fn from_reply(per: u8, min: u8, body: &[u8]) -> (k: Self)
        ensures
            k.symbols() == words_of(body@),
            k.per_keycode() == per,
            k.min_keycode() == min,
    {
        let len = body.len();
        let n = len / 4;
        let mut syms: Vec<u32> = Vec::new();
        let mut i: usize = 0;
        while i < n
            invariant
                n == body@.len() / 4,
                len == body@.len(),
                i <= n,
                syms@ == words_of(body@).subrange(0, i as int),
            decreases n - i,
        {
            let q = i * 4;
            let w = body[q] as u32 + (body[q + 1] as u32) * 256 + (body[q + 2] as u32) * 65536
                + (body[q + 3] as u32) * 16777216;
            syms.push(w);
            i = i + 1;
            assert(syms@ =~= words_of(body@).subrange(0, i as int));
        }
        assert(words_of(body@).subrange(0, n as int) =~= words_of(body@));
        Keymap { syms, per: per as usize, min }
    }

    /// Number of keysyms held.
    pub fn symbol_count(&self) -> (n: usize)
        ensures
            n == self.symbols().len(),
    {
        self.syms.len()
    }

    /// Keysyms per keycode.
    pub fn per(&self) -> (n: usize)
        ensures
            n == self.per_keycode(),
    {
        self.per
    }

    /// The keysym a key press of `keycode` produces.
    pub fn keysym(&self, keycode: u8, shift: bool) -> (r: u32)
        ensures
            r == keysym_of(self.symbols(), self.per_keycode(), self.min_keycode(), keycode as int, shift),
    {
        proof {
            use_type_invariant(self);
        }
        if keycode < self.min || self.per == 0 {
            return 0;
        }
        let d = (keycode - self.min) as usize;
        assert(d * self.per <= 255 * 255) by (nonlinear_arith)
            requires
                d <= 255,
                self.per <= 255,
        ;
        let base = d * self.per;
        let i = base + if shift && self.per > 1 { 1 } else { 0 };
        let ks = if i < self.syms.len() { self.syms[i] } else { 0 };
        if ks == 0 {
            if base < self.syms.len() { self.syms[base] } else { 0 }
        } else {
            ks
        }
    }
}

/// The editing / navigation key an X11 keysym names, if any.
pub open spec fn keysym_key(ks: u32) -> Option<KeyCode> {
    if ks == 0xff08 {
        Some(KeyCode::Backspace)
    } else if ks == 0xff09 {
        Some(KeyCode::Tab)
    } else if ks == 0xff0d {
        Some(KeyCode::Enter)
    } else if ks == 0xff1b {
        Some(KeyCode::Escape)
    } else if ks == 0xff51 {
        Some(KeyCode::ArrowLeft)
    } else if ks == 0xff52 {
        Some(KeyCode::ArrowUp)
    } else if ks == 0xff53 {
        Some(KeyCode::ArrowRight)
    } else if ks == 0xff54 {
        Some(KeyCode::ArrowDown)
    } else if ks == 0xff50 {
        Some(KeyCode::Home)
    } else if ks == 0xff57 {
        Some(KeyCode::End)
    } else if ks == 0xffff {
        Some(KeyCode::Delete)
    } else {
        None
    }
}

/// The code point a printable keysym stands for: Latin-1 keysyms map
/// directly; the Unicode plane is `0x0100_0000 | codepoint`.
pub open spec fn keysym_codepoint(ks: u32) -> Option<u32> {
    if (0x20 <= ks <= 0x7e) || (0xa0 <= ks <= 0xff) {
        Some(ks)
    } else if ks & 0xff00_0000 == 0x0100_0000 {
        Some(ks & 0x00ff_ffff)
    } else {
        None
    }
}

/// What `keysym_to_event` answers for keysym `ks`: an editing / navigation
/// key press or release carrying `m`, committed text on a press of a
/// printable keysym, or nothing.
pub open spec fn keysym_result(ks: u32, state: ButtonState, m: Modifiers, r: Option<DeviceEvent>) -> bool {
    match r {
        Some(DeviceEvent::Key { code, state: s, modifiers: mm }) => keysym_key(ks) == Some(code) && s == state
            && mm == m,
        Some(DeviceEvent::Text(t)) => {
            &&& keysym_key(ks) is None
            &&& state == ButtonState::Pressed
            &&& keysym_codepoint(ks) matches Some(cp) && is_scalar(cp) && t@ == seq![cp as char]
        },
        Some(_) => false,
        None => keysym_key(ks) is None && (state != ButtonState::Pressed || match keysym_codepoint(ks) {
            Some(cp) => !is_scalar(cp),
            None => true,
        }),
    }
}

/// Translate an X11 keysym into a device event: editing / navigation
/// keysyms become [`DeviceEvent::Key`] (press or release, carrying
/// `modifiers`); printable Latin-1 / Unicode keysyms become
/// [`DeviceEvent::Text`] on press.
pub fn keysym_to_event(ks: u32, state: ButtonState, modifiers: Modifiers) -> (r: Option<DeviceEvent>)
    ensures
        keysym_result(ks, state, modifiers, r),
{
    let code = if ks == 0xff08 {
        Some(KeyCode::Backspace)
    } else if ks == 0xff09 {
        Some(KeyCode::Tab)
    } else if ks == 0xff0d {
        Some(KeyCode::Enter)
    } else if ks == 0xff1b {
        Some(KeyCode::Escape)
    } else if ks == 0xff51 {
        Some(KeyCode::ArrowLeft)
    } else if ks == 0xff52 {
        Some(KeyCode::ArrowUp)
    } else if ks == 0xff53 {
        Some(KeyCode::ArrowRight)
    } else if ks == 0xff54 {
        Some(KeyCode::ArrowDown)
    } else if ks == 0xff50 {
        Some(KeyCode::Home)
    } else if ks == 0xff57 {
        Some(KeyCode::End)
    } else if ks == 0xffff {
        Some(KeyCode::Delete)
    } else {
        None
    };
    if let Some(code) = code {
        return Some(DeviceEvent::Key { code, state, modifiers });
    }
    if state != ButtonState::Pressed {
        return None;
    }
    let cp = if (0x20 <= ks && ks <= 0x7e) || (0xa0 <= ks && ks <= 0xff) {
        ks
    } else if ks & 0xff00_0000 == 0x0100_0000 {
        ks & 0x00ff_ffff
    } else {
        return None;
    };
    match char_from_u32(cp) {
        Some(c) => Some(DeviceEvent::Text(char_to_string(c))),
        None => None,
    }
}

/// The `GetKeyboardMapping` request for keycodes `min..=max`.
pub open spec fn keyboard_mapping_bytes(min: u8, max: u8) -> Seq<u8> {
    let count = if max >= min { (max - min) as int } else { 0int };
    let count = if count + 1 > 255 { 255int } else { count + 1 };
    seq![101u8, 0u8, 2u8, 0u8, min, count as u8, 0u8, 0u8]
}

/// Encode the (finished) `GetKeyboardMapping` request for keycodes
/// `min..=max`.
pub fn keyboard_mapping_request(min: u8, max: u8) -> (r: Vec<u8>)
    ensures
        r@ == keyboard_mapping_bytes(min, max),
{
    let count = max.saturating_sub(min).saturating_add(1);
    let req = finish(vec![101, 0, 0, 0, min, count, 0, 0]);
    assert(req@ =~= keyboard_mapping_bytes(min, max));
    req
}

// ---- events -----------------------------------------------------------------

/// A decoded 32-byte X11 event, in integer device coordinates.
#[derive(Clone, Copy, Debug, PartialEq, Eq, Structural)]
pub enum XInput {
    /// An error packet (first byte 0), with its error code.
    Error { code: u8 },
    /// The window needs repainting.
    Expose,
    /// The window was resized.
    Configure { width: u16, height: u16 },
    /// The pointer moved.
    Motion { x: i16, y: i16 },
    /// A wheel step (buttons 4/5 pressed): `down` for button 5.
    Wheel { down: bool },
    /// A pointer button changed state.
    Button { button: PointerButton, state: ButtonState, x: i16, y: i16 },
    /// A key changed state.
    Key { keycode: u8, state: ButtonState, modifiers: Modifiers },
    /// A client message whose first data word is `atom`.
    Client { atom: u32 },
    /// Anything else (replies, wheel releases, unhandled events).
    Ignored,
}

/// The signed 16-bit little-endian value at `off`.
pub open spec fn i16_at(b: Seq<u8>, off: int) -> i16 {
    let u = b[off] + b[off + 1] * 256;
    (if u >= 32768 { u - 65536 } else { u }) as i16
}

/// The pointer button of a button-event detail byte.
pub open spec fn button_of(detail: u8) -> PointerButton {
    if detail == 1 {
        PointerButton::Left
    } else if detail == 2 {
        PointerButton::Middle
    } else if detail == 3 {
        PointerButton::Right
    } else {
        PointerButton::Other(detail as u16)
    }
}

/// What a 32-byte X11 event packet `b` reports.
pub open spec fn x_event(b: Seq<u8>) -> XInput {
    if b[0] == 0 {
        XInput::Error { code: b[1] }
    } else {
        let kind = b[0] % 128;
        if kind == 12 {
            XInput::Expose
        } else if kind == 22 {
            XInput::Configure {
                width: (b[20] + b[21] * 256) as u16,
                height: (b[22] + b[23] * 256) as u16,
            }
        } else if kind == 6 {
            XInput::Motion { x: i16_at(b, 24), y: i16_at(b, 26) }
        } else if kind == 4 || kind == 5 {
            if b[1] == 4 || b[1] == 5 {
                if kind == 4 {
                    XInput::Wheel { down: b[1] == 5 }
                } else {
                    XInput::Ignored
                }
            } else {
                XInput::Button {
                    button: button_of(b[1]),
                    state: if kind == 4 { ButtonState::Pressed } else { ButtonState::Released },
                    x: i16_at(b, 24),
                    y: i16_at(b, 26),
                }
            }
        } else if kind == 2 || kind == 3 {
            let mask = b[28] + b[29] * 256;
            XInput::Key {
                keycode: b[1],
                state: if kind == 2 { ButtonState::Pressed } else { ButtonState::Released },
                modifiers: Modifiers {
                    shift: mask % 2 == 1,
                    ctrl: (mask / 4) % 2 == 1,
                    alt: false,
                    meta: false,
                },
            }
        } else if kind == 33 {
            XInput::Client {
                atom: (b[12] + b[13] * 256 + b[14] * 65536 + b[15] * 16777216) as u32,
            }
        } else {
            XInput::Ignored
        }
    }
}

fn i16_le(lo: u8, hi: u8) -> (r: i16)
    ensures
        r == i16_at(seq![lo, hi], 0),
{
    let u = lo as i32 + (hi as i32) * 256;
    (if u >= 32768 { u - 65536 } else { u }) as i16
}

/// Decode one 32-byte event packet.
pub fn decode_event(buf: &[u8; 32]) -> (r: XInput)
    ensures
        r == x_event(buf@),
{
    if buf[0] == 0 {
        return XInput::Error { code: buf[1] };
    }
    let kind = buf[0] % 128;
    if kind == 12 {
        XInput::Expose
    } else if kind == 22 {
        XInput::Configure {
            width: buf[20] as u16 + (buf[21] as u16) * 256,
            height: buf[22] as u16 + (buf[23] as u16) * 256,
        }
    } else if kind == 6 {
        XInput::Motion { x: i16_le(buf[24], buf[25]), y: i16_le(buf[26], buf[27]) }
    } else if kind == 4 || kind == 5 {
        let detail = buf[1];
        if detail == 4 || detail == 5 {
            if kind == 4 {
                XInput::Wheel { down: detail == 5 }
            } else {
                XInput::Ignored
            }
        } else {
            let button = if detail == 1 {
                PointerButton::Left
            } else if detail == 2 {
                PointerButton::Middle
            } else if detail == 3 {
                PointerButton::Right
            } else {
                PointerButton::Other(detail as u16)
            };
            XInput::Button {
                button,
                state: if kind == 4 { ButtonState::Pressed } else { ButtonState::Released },
                x: i16_le(buf[24], buf[25]),
                y: i16_le(buf[26], buf[27]),
            }
        }
    } else if kind == 2 || kind == 3 {
        let mask = buf[28] as u16 + (buf[29] as u16) * 256;
        XInput::Key {
            keycode: buf[1],
            state: if kind == 2 { ButtonState::Pressed } else { ButtonState::Released },
            modifiers: Modifiers { shift: mask % 2 == 1, ctrl: (mask / 4) % 2 == 1, alt: false, meta: false },
        }
    } else if kind == 33 {
        XInput::Client {
            atom: buf[12] as u32 + (buf[13] as u32) * 256 + (buf[14] as u32) * 65536 + (buf[15] as u32)
                * 16777216,
        }
    } else {
        XInput::Ignored
    }
}

/// The device event the event loop hands the application for the decoded
/// packet `input`, given the keyboard map (`syms`, `per` keysyms per keycode
/// from keycode `min`) and the `WM_DELETE_WINDOW` atom: X errors, wheel
/// releases, unknown client messages and unhandled packets give nothing.
pub open spec fn x_event_result(
    input: XInput,
    syms: Seq<u32>,
    per: int,
    min: int,
    wm_delete: u32,
    r: Option<DeviceEvent>,
) -> bool {
    match input {
        XInput::Expose => r == Some(DeviceEvent::RedrawRequested),
        XInput::Configure { width, height } => r == Some(
            DeviceEvent::Resized(PhysicalSize { width: width as u32, height: height as u32 }),
        ),
        XInput::Motion { x, y } => r == Some(DeviceEvent::PointerMoved { x, y }),
        XInput::Wheel { down } => r == Some(DeviceEvent::Scroll { down }),
        XInput::Button { button, state, x, y } => r == Some(
            DeviceEvent::PointerButton { button, state, x, y },
        ),
        XInput::Key { keycode, state, modifiers } => keysym_result(
            keysym_of(syms, per, min, keycode as int, modifiers.shift),
            state,
            modifiers,
            r,
        ),
        XInput::Client { atom } => r == (if atom == wm_delete {
            Some(DeviceEvent::CloseRequested)
        } else {
            None
        }),
        XInput::Error { .. } => r is None,
        XInput::Ignored => r is None,
    }
}

/// One step of the X11 event loop: what a decoded packet means to the
/// application. Key presses go through the keyboard map (shifted column
/// when Shift is held); a client message is a close request when it carries
/// `wm_delete`.
pub fn translate_x_event(input: XInput, keymap: &Keymap, wm_delete: u32) -> (r: Option<DeviceEvent>)
    ensures
        x_event_result(input, keymap.symbols(), keymap.per_keycode(), keymap.min_keycode(), wm_delete, r),
{
    match input {
        XInput::Expose => Some(DeviceEvent::RedrawRequested),
        XInput::Configure { width, height } => Some(
            DeviceEvent::Resized(PhysicalSize { width: width as u32, height: height as u32 }),
        ),
        XInput::Motion { x, y } => Some(DeviceEvent::PointerMoved { x, y }),
        XInput::Wheel { down } => Some(DeviceEvent::Scroll { down }),
        XInput::Button { button, state, x, y } => Some(DeviceEvent::PointerButton { button, state, x, y }),
        XInput::Key { keycode, state, modifiers } => {
            let ks = keymap.keysym(keycode, modifiers.shift);
            keysym_to_event(ks, state, modifiers)
        },
        XInput::Client { atom } => if atom == wm_delete {
            Some(DeviceEvent::CloseRequested)
        } else {
            None
        },
        XInput::Error { .. } => None,
        XInput::Ignored => None,
    }
}

// ---- connection and window requests ------------------------------------------

/// A request with its length field (offset 2, in 4-byte units) set.
pub open spec fn finished(req: Seq<u8>) -> Seq<u8> {
    req.update(2, le16((req.len() / 4) as u16 as int)[0]).update(3, le16((req.len() / 4) as u16 as int)[1])
}

/// `s` followed by the zeros that pad it to a multiple of 4.
pub open spec fn padded(s: Seq<u8>) -> Seq<u8> {
    s + padding(s.len() as int, 4)
}

/// The connection-setup request (little-endian, protocol 11.0) offering
/// `MIT-MAGIC-COOKIE-1` with `cookie`, or no authorization when `cookie` is
/// empty.
pub open spec fn setup_request_bytes(cookie: Seq<u8>) -> Seq<u8> {
    let name = if cookie.len() == 0 { Seq::<u8>::empty() } else { cookie_protocol() };
    let head = seq![108u8, 0u8] + le16(11) + le16(0) + le16(name.len() as u16 as int) + le16(
        cookie.len() as u16 as int,
    ) + le16(0);
    padded(padded(head + name) + cookie)
}

/// Encode the connection-setup request for an optional auth `cookie`.
pub fn setup_request(cookie: &[u8]) -> (r: Vec<u8>)
    ensures
        r@ == setup_request_bytes(cookie@),
{
    let key: [u8; 18] = [77, 73, 84, 45, 77, 65, 71, 73, 67, 45, 67, 79, 79, 75, 73, 69, 45, 49];
    assert(key@ =~= cookie_protocol());
    let empty: [u8; 0] = [];
    let name: &[u8] = if cookie.len() == 0 { empty.as_slice() } else { key.as_slice() };
    let mut req: Vec<u8> = Vec::new();
    req.push(108);
    req.push(0);
    push_le16(&mut req, 11);
    push_le16(&mut req, 0);
    push_le16(&mut req, name.len() as u16);
    push_le16(&mut req, cookie.len() as u16);
    push_le16(&mut req, 0);
    push_all(&mut req, name);
    pad4(&mut req);
    push_all(&mut req, cookie);
    pad4(&mut req);
    proof {
        let nm = if cookie@.len() == 0 { Seq::<u8>::empty() } else { cookie_protocol() };
        assert(name@ =~= nm);
    }
    assert(req@ =~= setup_request_bytes(cookie@));
    req
}

/// How the server answered the setup request: the number of additional
/// bytes to read on success (status 1), else the refusing status.
pub open spec fn setup_reply_answer(header: Seq<u8>) -> Result<int, u8> {
    if header[0] != 1 {
        Err(header[0])
    } else {
        Ok((header[6] + header[7] * 256) * 4)
    }
}

/// Interpret the 8-byte setup-reply header.
pub fn setup_reply_length(header: &[u8; 8]) -> (r: Result<usize, u8>)
    ensures
        match r {
            Ok(n) => setup_reply_answer(header@) == Ok::<int, u8>(n as int),
            Err(s) => setup_reply_answer(header@) == Err::<int, u8>(s),
        },
{
    if header[0] != 1 {
        return Err(header[0]);
    }
    let words = header[6] as usize + (header[7] as usize) * 256;
    Ok(words * 4)
}

/// Allocator of fresh X resource ids (XIDs) within the client's id range.
pub struct XidAllocator {
    base: u32,
    next: u32,
    step: u32,
}

/// The id step: the lowest set bit of the id mask (at least 1).
pub open spec fn id_step_of(mask: u32) -> u32 {
    let low = mask & 0u32.wrapping_sub(mask);
    if low > 1 { low } else { 1 }
}

impl XidAllocator {
    pub closed spec fn base(&self) -> u32 {
        self.base
    }

    pub closed spec fn next_index(&self) -> u32 {
        self.next
    }

    pub closed spec fn step(&self) -> u32 {
        self.step
    }

    /// Another id can be allocated without overflow.
    pub open spec fn can_allocate(&self) -> bool {
        self.next_index() * self.step() <= u32::MAX && self.next_index() < u32::MAX
    }

    /// The allocator for a connection with `setup`: ids are
    /// `resource_id_base | (n * step)` for n = 0, 1, ….
    pub fn from_setup(setup: &Setup) -> (a: Self)
        ensures
            a.base() == setup.resource_id_base,
            a.next_index() == 0,
            a.step() == id_step_of(setup.resource_id_mask),
    {
        let mask = setup.resource_id_mask;
        let low = mask & 0u32.wrapping_sub(mask);
        XidAllocator { base: setup.resource_id_base, next: 0, step: if low > 1 { low } else { 1 } }
    }

    /// Whether another id can be allocated without overflow.
    pub fn has_capacity(&self) -> (r: bool)
        ensures
            r == self.can_allocate(),
    {
        let a = self.next as u64;
        let b = self.step as u64;
        assert(a * b <= 0xffff_ffff * 0xffff_ffffu64) by (nonlinear_arith)
            requires
                a <= 0xffff_ffff,
                b <= 0xffff_ffff,
        ;
        let prod = a * b;
        assert(prod == self.next_index() * self.step());
        self.next < u32::MAX && prod <= 0xffff_ffff
    }

    /// Allocate a fresh XID.
    pub fn new_id(&mut self) -> (id: u32)
        requires
            old(self).can_allocate(),
        ensures
            id == old(self).base() | ((old(self).next_index() * old(self).step()) as u32),
            final(self).base() == old(self).base(),
            final(self).step() == old(self).step(),
            final(self).next_index() == old(self).next_index() + 1,
    {
        let id = self.base | (self.next * self.step);
        self.next = self.next + 1;
        id
    }
}

/// Event mask a new window selects: exposure, key press/release, button
/// press/release, pointer motion and structure notifications.
pub open spec fn window_event_mask() -> u32 {
    0x0000_8000u32 | 0x0000_0001u32 | 0x0000_0002u32 | 0x0000_0004u32 | 0x0000_0008u32 | 0x0000_0040u32
        | 0x0002_0000u32
}

/// `CreateWindow` (InputOutput, at 0,0, no border, black background,
/// selecting [`window_event_mask`]) for `window` as a child of the setup's
/// root with its visual and depth.
pub open spec fn create_window_bytes(window: u32, setup: Setup, w: u16, h: u16) -> Seq<u8> {
    finished(
        seq![1u8, setup.root_depth, 0u8, 0u8] + le32(window as int) + le32(setup.root as int) + le16(0)
            + le16(0) + le16(w as int) + le16(h as int) + le16(0) + le16(1) + le32(
            setup.root_visual as int,
        ) + le32((0x0000_0002u32 | 0x0000_0800u32) as int) + le32(0) + le32(
            window_event_mask() as int,
        ),
    )
}

/// Encode the `CreateWindow` request.
pub fn create_window_request(window: u32, setup: &Setup, w: u16, h: u16) -> (r: Vec<u8>)
    ensures
        r@ == create_window_bytes(window, *setup, w, h),
{
    let mut req: Vec<u8> = Vec::new();
    req.push(1);
    req.push(setup.root_depth);
    req.push(0);
    req.push(0);
    push_le32(&mut req, window);
    push_le32(&mut req, setup.root);
    push_le16(&mut req, 0);
    push_le16(&mut req, 0);
    push_le16(&mut req, w);
    push_le16(&mut req, h);
    push_le16(&mut req, 0);
    push_le16(&mut req, 1);
    push_le32(&mut req, setup.root_visual);
    push_le32(&mut req, 0x0000_0002u32 | 0x0000_0800u32);
    push_le32(&mut req, 0);
    let mask: u32 = 0x0000_8000 | 0x0000_0001 | 0x0000_0002 | 0x0000_0004 | 0x0000_0008 | 0x0000_0040
        | 0x0002_0000;
    push_le32(&mut req, mask);
    let ghost raw = req@;
    let r = finish(req);
    assert(raw =~= seq![1u8, setup.root_depth, 0u8, 0u8] + le32(window as int) + le32(setup.root as int)
        + le16(0) + le16(0) + le16(w as int) + le16(h as int) + le16(0) + le16(1) + le32(
        setup.root_visual as int,
    ) + le32((0x0000_0002u32 | 0x0000_0800u32) as int) + le32(0) + le32(window_event_mask() as int));
    r
}

/// `CreateGC` for `gc` on drawable `window`, with no values.
pub open spec fn create_gc_bytes(gc: u32, window: u32) -> Seq<u8> {
    finished(seq![55u8, 0u8, 0u8, 0u8] + le32(gc as int) + le32(window as int) + le32(0))
}

/// Encode the `CreateGC` request.
pub fn create_gc_request(gc: u32, window: u32) -> (r: Vec<u8>)
    ensures
        r@ == create_gc_bytes(gc, window),
{
    let mut req: Vec<u8> = Vec::new();
    req.push(55);
    req.push(0);
    req.push(0);
    req.push(0);
    push_le32(&mut req, gc);
    push_le32(&mut req, window);
    push_le32(&mut req, 0);
    let ghost raw = req@;
    assert(raw =~= seq![55u8, 0u8, 0u8, 0u8] + le32(gc as int) + le32(window as int) + le32(0));
    finish(req)
}

/// `ChangeProperty` (Replace) setting `prop` of `window` to the 8-bit
/// values `val` of type `ty`.
pub open spec fn change_property_bytes(window: u32, prop: u32, ty: u32, val: Seq<u8>) -> Seq<u8> {
    finished(
        padded(
            seq![18u8, 0u8, 0u8, 0u8] + le32(window as int) + le32(prop as int) + le32(ty as int) + seq![
                8u8,
                0u8,
                0u8,
                0u8,
            ] + le32(val.len() as u32 as int) + val,
        ),
    )
}

/// Encode a `ChangeProperty` request with 8-bit data (e.g. the title).
pub fn change_property_request(window: u32, prop: u32, ty: u32, val: &[u8]) -> (r: Vec<u8>)
    ensures
        r@ == change_property_bytes(window, prop, ty, val@),
{
    let mut req: Vec<u8> = Vec::new();
    req.push(18);
    req.push(0);
    req.push(0);
    req.push(0);
    push_le32(&mut req, window);
    push_le32(&mut req, prop);
    push_le32(&mut req, ty);
    req.push(8);
    req.push(0);
    req.push(0);
    req.push(0);
    push_le32(&mut req, val.len() as u32);
    push_all(&mut req, val);
    let ghost unpadded = req@;
    assert(unpadded =~= seq![18u8, 0u8, 0u8, 0u8] + le32(window as int) + le32(prop as int) + le32(ty as int)
        + seq![8u8, 0u8, 0u8, 0u8] + le32(val@.len() as u32 as int) + val@);
    pad4(&mut req);
    finish(req)
}

/// The little-endian bytes of each of `atoms`, in order.
pub open spec fn atoms_bytes(atoms: Seq<u32>) -> Seq<u8>
    decreases atoms.len(),
{
    if atoms.len() == 0 {
        Seq::empty()
    } else {
        atoms_bytes(atoms.drop_last()) + le32(atoms.last() as int)
    }
}

/// `ChangeProperty` (Replace) setting `prop` of `window` to a list of atoms
/// (type ATOM, 32-bit format).
pub open spec fn change_property_atoms_bytes(window: u32, prop: u32, atoms: Seq<u32>) -> Seq<u8> {
    finished(
        seq![18u8, 0u8, 0u8, 0u8] + le32(window as int) + le32(prop as int) + le32(4) + seq![
            32u8,
            0u8,
            0u8,
            0u8,
        ] + le32(atoms.len() as u32 as int) + atoms_bytes(atoms),
    )
}

/// Encode a `ChangeProperty` request with a list of atoms (e.g.
/// `WM_PROTOCOLS`).
pub fn change_property_atoms_request(window: u32, prop: u32, atoms: &[u32]) -> (r: Vec<u8>)
    ensures
        r@ == change_property_atoms_bytes(window, prop, atoms@),
{
    let mut req: Vec<u8> = Vec::new();
    req.push(18);
    req.push(0);
    req.push(0);
    req.push(0);
    push_le32(&mut req, window);
    push_le32(&mut req, prop);
    push_le32(&mut req, 4);
    req.push(32);
    req.push(0);
    req.push(0);
    req.push(0);
    push_le32(&mut req, atoms.len() as u32);
    let ghost head = req@;
    let mut i: usize = 0;
    while i < atoms.len()
        invariant
            i <= atoms@.len(),
            req@ == head + atoms_bytes(atoms@.subrange(0, i as int)),
        decreases atoms@.len() - i,
    {
        push_le32(&mut req, atoms[i]);
        i = i + 1;
        assert(atoms@.subrange(0, i as int).drop_last() =~= atoms@.subrange(0, i - 1));
        assert(req@ =~= head + atoms_bytes(atoms@.subrange(0, i as int)));
    }
    assert(atoms@.subrange(0, i as int) =~= atoms@);
    assert(head =~= seq![18u8, 0u8, 0u8, 0u8] + le32(window as int) + le32(prop as int) + le32(4) + seq![
        32u8,
        0u8,
        0u8,
        0u8,
    ] + le32(atoms@.len() as u32 as int));
    assert(req@ =~= seq![18u8, 0u8, 0u8, 0u8] + le32(window as int) + le32(prop as int) + le32(4) + seq![
        32u8,
        0u8,
        0u8,
        0u8,
    ] + le32(atoms@.len() as u32 as int) + atoms_bytes(atoms@));
    finish(req)
}

/// A request that carries a length-prefixed name: `InternAtom`
/// (only-if-exists false) or `QueryExtension`.
pub open spec fn named_request_bytes(opcode: u8, name: Seq<u8>) -> Seq<u8> {
    finished(padded(seq![opcode, 0u8, 0u8, 0u8] + le16(name.len() as u16 as int) + le16(0) + name))
}

fn named_request(opcode: u8, name: &[u8]) -> (r: Vec<u8>)
    ensures
        r@ == named_request_bytes(opcode, name@),
{
    let mut req: Vec<u8> = Vec::new();
    req.push(opcode);
    req.push(0);
    req.push(0);
    req.push(0);
    push_le16(&mut req, name.len() as u16);
    push_le16(&mut req, 0);
    push_all(&mut req, name);
    let ghost unpadded = req@;
    assert(unpadded =~= seq![opcode, 0u8, 0u8, 0u8] + le16(name@.len() as u16 as int) + le16(0) + name@);
    pad4(&mut req);
    finish(req)
}

/// Encode `InternAtom(name)` (creating the atom if needed).
pub fn intern_atom_request(name: &[u8]) -> (r: Vec<u8>)
    ensures
        r@ == named_request_bytes(16, name@),
{
    named_request(16, name)
}

/// The atom of an `InternAtom` reply (offset 8), or 0 when truncated.
pub fn intern_atom_reply(reply: &[u8]) -> (atom: u32)
    ensures
        atom == match le32_at(reply@, 8) {
            Some(a) => a,
            None => 0,
        },
{
    match rd_u32(reply, 8) {
        Some(a) => a,
        None => 0,
    }
}

/// Encode `QueryExtension(name)`.
pub fn query_extension_request(name: &[u8]) -> (r: Vec<u8>)
    ensures
        r@ == named_request_bytes(98, name@),
{
    named_request(98, name)
}

/// The major opcode a `QueryExtension` reply reports, when the extension is
/// present (reply byte 0 is 1, byte 8 `present`, byte 9 the opcode).
pub fn query_extension_reply(pkt: &[u8; 32]) -> (r: Option<u8>)
    ensures
        r == (if pkt@[0] != 1 || pkt@[8] == 0 { None } else { Some(pkt@[9]) }),
{
    if pkt[0] != 1 || pkt[8] == 0 {
        return None;
    }
    Some(pkt[9])
}

/// A fixed request: `opcode`, `data` byte, then one 32-bit id and an optional
/// second 32-bit value.
pub open spec fn id_request_bytes(opcode: u8, data: u8, id: u32, extra: Option<u32>) -> Seq<u8> {
    finished(
        seq![opcode, data, 0u8, 0u8] + le32(id as int) + match extra {
            Some(v) => le32(v as int),
            None => Seq::empty(),
        },
    )
}

/// Encode `MapWindow(window)`.
pub fn map_window_request(window: u32) -> (r: Vec<u8>)
    ensures
        r@ == id_request_bytes(8, 0, window, None),
{
    let mut req: Vec<u8> = Vec::new();
    req.push(8);
    req.push(0);
    req.push(0);
    req.push(0);
    push_le32(&mut req, window);
    assert(req@ =~= seq![8u8, 0u8, 0u8, 0u8] + le32(window as int) + Seq::<u8>::empty());
    finish(req)
}

/// Encode `SetInputFocus(window)` with revert-to PointerRoot at
/// CurrentTime.
pub fn set_input_focus_request(window: u32) -> (r: Vec<u8>)
    ensures
        r@ == id_request_bytes(42, 1, window, Some(0)),
{
    let mut req: Vec<u8> = Vec::new();
    req.push(42);
    req.push(1);
    req.push(0);
    req.push(0);
    push_le32(&mut req, window);
    push_le32(&mut req, 0);
    assert(req@ =~= seq![42u8, 1u8, 0u8, 0u8] + le32(window as int) + le32(0));
    finish(req)
}

/// Encode `GetInputFocus` (used to synchronize on a reply).
pub fn get_input_focus_request() -> (r: Vec<u8>)
    ensures
        r@ == finished(seq![43u8, 0u8, 0u8, 0u8]),
{
    finish(vec![43, 0, 0, 0])
}

/// The MIT-SHM `ShmAttach` request attaching System V segment `shmid` as
/// `seg` (read-write).
pub open spec fn shm_attach_bytes(major: u8, seg: u32, shmid: u32) -> Seq<u8> {
    finished(seq![major, SHM_ATTACH, 0u8, 0u8] + le32(seg as int) + le32(shmid as int) + seq![0u8, 0u8, 0u8, 0u8])
}

/// Encode `ShmAttach`.
pub fn shm_attach_request(major: u8, seg: u32, shmid: u32) -> (r: Vec<u8>)
    ensures
        r@ == shm_attach_bytes(major, seg, shmid),
{
    let mut req: Vec<u8> = Vec::new();
    req.push(major);
    req.push(SHM_ATTACH);
    req.push(0);
    req.push(0);
    push_le32(&mut req, seg);
    push_le32(&mut req, shmid);
    req.push(0);
    req.push(0);
    req.push(0);
    req.push(0);
    assert(req@ =~= seq![major, SHM_ATTACH, 0u8, 0u8] + le32(seg as int) + le32(shmid as int) + seq![0u8, 0u8, 0u8, 0u8]);
    finish(req)
}

/// `PutImage` (ZPixmap, depth 24) of `rows` rows of `width` pixels whose
/// ZPixmap bytes are `pixels`, at row `y` of `window`.
pub open spec fn put_image_bytes(window: u32, gc: u32, width: u32, rows: int, y: u32, pixels: Seq<u8>) -> Seq<u8> {
    finished(
        padded(
            seq![72u8, 2u8, 0u8, 0u8] + le32(window as int) + le32(gc as int) + le16(width as u16 as int)
                + le16(rows as u16 as int) + le16(0) + le16(y as u16 as int) + seq![0u8, 24u8] + le16(0)
                + pixels,
        ),
    )
}

/// Encode a `PutImage` band.
pub fn put_image_request(window: u32, gc: u32, width: u32, rows: usize, y: u32, pixels: &[u8]) -> (r: Vec<u8>)
    ensures
        r@ == put_image_bytes(window, gc, width, rows as int, y, pixels@),
{
    let mut req: Vec<u8> = Vec::new();
    req.push(72);
    req.push(2);
    req.push(0);
    req.push(0);
    push_le32(&mut req, window);
    push_le32(&mut req, gc);
    push_le16(&mut req, width as u16);
    push_le16(&mut req, rows as u16);
    push_le16(&mut req, 0);
    push_le16(&mut req, y as u16);
    req.push(0);
    req.push(24);
    push_le16(&mut req, 0);
    push_all(&mut req, pixels);
    let ghost unpadded = req@;
    assert(unpadded =~= seq![72u8, 2u8, 0u8, 0u8] + le32(window as int) + le32(gc as int) + le16(width as u16 as int)
        + le16(rows as u16 as int) + le16(0) + le16(y as u16 as int) + seq![0u8, 24u8] + le16(0) + pixels@);
    pad4(&mut req);
    finish(req)
}

// ---- presenting damaged regions ---------------------------------------------

/// A damage rectangle given by its integer corners `(x0, y0, x1, y1)`,
/// clamped to a `w × h` frame, as `(x, y, width, height)`; `None` when
/// nothing of it is left.
pub open spec fn clip_region(r: (usize, usize, usize, usize), w: usize, h: usize) -> Option<
    (usize, usize, usize, usize),
> {
    let x0 = if r.0 < w { r.0 } else { w };
    let y0 = if r.1 < h { r.1 } else { h };
    let x1 = if r.2 < w { r.2 } else { w };
    let y1 = if r.3 < h { r.3 } else { h };
    if x1 > x0 && y1 > y0 {
        Some((x0, y0, (x1 - x0) as usize, (y1 - y0) as usize))
    } else {
        None
    }
}

/// The clipped, non-empty regions of `rects`, in order.
pub open spec fn clipped_regions(rects: Seq<(usize, usize, usize, usize)>, w: usize, h: usize) -> Seq<
    (usize, usize, usize, usize),
>
    decreases rects.len(),
{
    if rects.len() == 0 {
        Seq::empty()
    } else {
        let rest = clipped_regions(rects.drop_last(), w, h);
        match clip_region(rects.last(), w, h) {
            Some(c) => rest.push(c),
            None => rest,
        }
    }
}

/// The regions of a `w × h` frame to upload: the whole frame when no damage
/// is given (first frame, expose, resize), else each damage rectangle
/// clipped to the frame, empty ones dropped.
pub open spec fn upload_regions(rects: Seq<(usize, usize, usize, usize)>, w: usize, h: usize) -> Seq<
    (usize, usize, usize, usize),
> {
    if rects.len() == 0 {
        seq![(0usize, 0usize, w, h)]
    } else {
        clipped_regions(rects, w, h)
    }
}

/// The regions to upload for damage `rects` (integer corners, already
/// rounded outwards and non-negative) on a `w × h` frame.
pub fn damage_regions(rects: &[(usize, usize, usize, usize)], w: usize, h: usize) -> (r: Vec<
    (usize, usize, usize, usize),
>)
    ensures
        r@ == upload_regions(rects@, w, h),
{
    let mut out: Vec<(usize, usize, usize, usize)> = Vec::new();
    if rects.len() == 0 {
        out.push((0, 0, w, h));
        assert(out@ =~= seq![(0usize, 0usize, w, h)]);
        return out;
    }
    let mut i: usize = 0;
    while i < rects.len()
        invariant
            i <= rects@.len(),
            rects@.len() > 0,
            out@ == clipped_regions(rects@.subrange(0, i as int), w, h),
        decreases rects@.len() - i,
    {
        let (a, b, c, d) = rects[i];
        let x0 = if a < w { a } else { w };
        let y0 = if b < h { b } else { h };
        let x1 = if c < w { c } else { w };
        let y1 = if d < h { d } else { h };
        proof {
            let pre = rects@.subrange(0, i + 1);
            assert(pre.drop_last() =~= rects@.subrange(0, i as int));
            assert(pre.last() == rects@[i as int]);
        }
        if x1 > x0 && y1 > y0 {
            out.push((x0, y0, x1 - x0, y1 - y0));
        }
        i = i + 1;
    }
    assert(rects@.subrange(0, i as int) =~= rects@);
    out
}

/// Byte `i` of a frame with row stride `stride` lies in the rectangle of
/// rows `[y, y + rh)` and pixel columns `[x, x + rw)`.
pub open spec fn in_region(stride: int, x: int, y: int, rw: int, rh: int, i: int) -> bool {
    &&& stride > 0
    &&& y <= i / stride < y + rh
    &&& x * 4 <= i % stride < x * 4 + rw * 4
}

/// Rows `[y, r)` of the rectangle, and the first `p` pixels of row `r`.
spec fn region_done(stride: int, x: int, y: int, rw: int, r: int, p: int, i: int) -> bool {
    ||| in_region(stride, x, y, rw, r - y, i)
    ||| (stride > 0 && i / stride == r && x * 4 <= i % stride < x * 4 + p * 4)
}

proof fn lemma_byte_of_pixel(o: int, k: int)
    requires
        o >= 0,
        o % 4 == 0,
        0 <= k < 4,
    ensures
        (o + k) / 4 * 4 == o,
        (o + k) % 4 == k,
{
    vstd::arithmetic::div_mod::lemma_fundamental_div_mod(o, 4);
    vstd::arithmetic::div_mod::lemma_fundamental_div_mod_converse(o + k, 4, o / 4, k);
}

/// Swizzle the rectangle of rows `[y, y + rh)` and pixel columns
/// `[x, x + rw)` of the RGBA frame `src` into the ZPixmap image `dst` laid
/// out with the same row stride; every other byte of `dst` is kept.
pub fn swizzle_region(src: &[u8], dst: &mut [u8], stride: usize, x: usize, y: usize, rw: usize, rh: usize)
    requires
        stride % 4 == 0,
        x * 4 + rw * 4 <= stride,
        (y + rh) * stride <= src@.len(),
        (y + rh) * stride <= old(dst)@.len(),
    ensures
        final(dst)@.len() == old(dst)@.len(),
        forall|i: int|
            0 <= i < old(dst)@.len() ==> #[trigger] final(dst)@[i] == if in_region(
                stride as int,
                x as int,
                y as int,
                rw as int,
                rh as int,
                i,
            ) {
                bgrx_byte(src@, i)
            } else {
                old(dst)@[i]
            },
{
    if rw == 0 || rh == 0 {
        return;
    }
    let ghost s = stride as int;
    let _src_len = src.len();
    let _dst_len = dst.len();
    assert(y + rh <= (y + rh) * s) by (nonlinear_arith)
        requires
            s >= 1,
            y + rh >= 0,
    ;
    let end = y + rh;
    let mut r: usize = y;
    while r < end
        invariant
            end == y + rh,
            src@.len() <= usize::MAX,
            stride % 4 == 0,
            x * 4 + rw * 4 <= stride,
            s == stride as int,
            s > 0,
            y <= r <= y + rh,
            (y + rh) * s <= src@.len(),
            (y + rh) * s <= old(dst)@.len(),
            dst@.len() == old(dst)@.len(),
            forall|i: int|
                0 <= i < dst@.len() ==> #[trigger] dst@[i] == if in_region(
                    s,
                    x as int,
                    y as int,
                    rw as int,
                    r - y,
                    i,
                ) {
                    bgrx_byte(src@, i)
                } else {
                    old(dst)@[i]
                },
        decreases end - r,
    {
        assert((r + 1) * s <= (y + rh) * s) by (nonlinear_arith)
            requires
                r < y + rh,
                s > 0,
        ;
        assert((r + 1) * s == r * s + s) by (nonlinear_arith);
        assert(r * s + s <= src@.len() && r * s + s <= old(dst)@.len());
        let base = r * stride;
        let mut p: usize = 0;
        while p < rw
            invariant
                stride % 4 == 0,
                x * 4 + rw * 4 <= stride,
                s == stride as int,
                s > 0,
                y <= r < y + rh,
                base == r * s,
                src@.len() <= usize::MAX,
                base + s <= src@.len(),
                base + s <= old(dst)@.len(),
                p <= rw,
                dst@.len() == old(dst)@.len(),
                forall|i: int|
                    0 <= i < dst@.len() ==> #[trigger] dst@[i] == if region_done(
                        s,
                        x as int,
                        y as int,
                        rw as int,
                        r as int,
                        p as int,
                        i,
                    ) {
                        bgrx_byte(src@, i)
                    } else {
                        old(dst)@[i]
                    },
            decreases rw - p,
        {
            let o = base + (x + p) * 4;
            let ghost before = dst@;
            proof {
                assert(base % 4 == 0) by {
                    vstd::arithmetic::div_mod::lemma_fundamental_div_mod(s, 4);
                    assert(r * s == 4 * (r * (s / 4))) by (nonlinear_arith)
                        requires
                            s == 4 * (s / 4),
                    ;
                    vstd::arithmetic::div_mod::lemma_mod_multiples_basic(r * (s / 4), 4);
                }
            }
            dst[o] = src[o + 2];
            dst[o + 1] = src[o + 1];
            dst[o + 2] = src[o];
            dst[o + 3] = 0;
            proof {
                assert forall|i: int| 0 <= i < dst@.len() implies #[trigger] dst@[i] == if region_done(
                    s,
                    x as int,
                    y as int,
                    rw as int,
                    r as int,
                    p + 1,
                    i,
                ) {
                    bgrx_byte(src@, i)
                } else {
                    old(dst)@[i]
                } by {
                    if o <= i < o + 4 {
                        let k = i - o;
                        vstd::arithmetic::div_mod::lemma_fundamental_div_mod_converse(
                            o + k,
                            s,
                            r as int,
                            (x + p) * 4 + k,
                        );
                        lemma_byte_of_pixel(o as int, k);
                    } else {
                        assert(dst@[i] == before[i]);
                        vstd::arithmetic::div_mod::lemma_fundamental_div_mod(i, s);
                        vstd::arithmetic::mul::lemma_mul_is_commutative(s, r as int);
                    }
                }
            }
            p = p + 1;
        }
        r = r + 1;
    }
}

/// Rows of a `width`-pixel frame that fit in one `PutImage` request: the
/// request budget is the server's maximum (words times 4, saturating) or
/// 256 KiB, whichever is larger, less the 24-byte header; at least one row.
pub open spec fn band_rows(max_request_len: u32, width: u32) -> int {
    let words: int = if max_request_len * 4 > usize::MAX { usize::MAX as int } else { max_request_len * 4 };
    let max_bytes: int = if words > 262144 { words } else { 262144int };
    let row_bytes: int = width * 4;
    let rows = (max_bytes - 24) / (if row_bytes > 1 { row_bytes } else { 1 });
    if rows > 1 { rows } else { 1 }
}

/// How many rows each `PutImage` band carries.
pub fn rows_per_band(max_request_len: u32, width: u32) -> (r: usize)
    requires
        width * 4 <= usize::MAX,
    ensures
        r == band_rows(max_request_len, width),
{
    let words = match (max_request_len as usize).checked_mul(4) {
        Some(v) => v,
        None => usize::MAX,
    };
    let max_bytes = if words > 262144 { words } else { 262144 };
    let row_bytes = width as usize * 4;
    let rows = (max_bytes - 24) / (if row_bytes > 1 { row_bytes } else { 1 });
    if rows > 1 { rows } else { 1 }
}

/// Rows in the `PutImage` band starting at row `y` of a `height`-row frame.
pub open spec fn band_height(height: u32, y: u32, rows_per: usize) -> int {
    if rows_per < height - y { rows_per as int } else { height - y }
}

/// The `PutImage` request for the band of rows starting at `y` of the RGBA
/// frame `src` (`width × height`, tightly packed), at most `rows_per` rows,
/// and the row where the next band starts.
pub fn put_image_band(
    src: &[u8],
    width: u32,
    height: u32,
    y: u32,
    rows_per: usize,
    window: u32,
    gc: u32,
) -> (r: (Vec<u8>, u32))
    requires
        y < height,
        src@.len() == height * width * 4,
    ensures
        r.0@ == put_image_bytes(
            window,
            gc,
            width,
            band_height(height, y, rows_per),
            y,
            bgrx(src@.subrange(y * width * 4, (y + band_height(height, y, rows_per)) * width * 4)),
        ),
        r.1 == y + band_height(height, y, rows_per),
{
    let left = (height - y) as usize;
    let band = if rows_per < left { rows_per } else { left };
    let _len = src.len();
    proof {
        assert(width * 4 <= height * (width * 4)) by (nonlinear_arith)
            requires
                height >= 1,
                width >= 0,
        ;
        assert(height * width * 4 == height * (width * 4)) by (nonlinear_arith);
    }
    let row_bytes = width as usize * 4;
    proof {
        assert((y + band) * (width * 4) <= height * (width * 4)) by (nonlinear_arith)
            requires
                y + band <= height,
                width >= 0,
        ;
        assert(y * (width * 4) <= (y + band) * (width * 4)) by (nonlinear_arith)
            requires
                band >= 0,
                width >= 0,
                y >= 0,
        ;
        assert(height * width * 4 == height * (width * 4)) by (nonlinear_arith);
        assert(y * width * 4 == y * (width * 4)) by (nonlinear_arith);
        assert((y + band) * width * 4 == (y + band) * (width * 4)) by (nonlinear_arith);
    }
    let start = y as usize * row_bytes;
    let end = (y as usize + band) * row_bytes;
    let rows = vstd::slice::slice_subrange(src, start, end);
    let mut pixels: Vec<u8> = Vec::new();
    rgba_to_bgrx(rows, &mut pixels);
    let req = put_image_request(window, gc, width, band, y, pixels.as_slice());
    (req, y + band as u32)
}

/// Finishing a request records its length in 4-byte words at offset 2, as a
/// little-endian `u16`, and touches no other byte.
pub proof fn law_finish_sets_length_in_words(req: Seq<u8>)
    requires
        req.len() >= 4,
        req.len() / 4 <= u16::MAX,
    ensures
        finished(req).len() == req.len(),
        le16_at(finished(req), 2) == Some((req.len() / 4) as u16),
        forall|i: int| 0 <= i < req.len() && i != 2 && i != 3 ==> finished(req)[i] == req[i],
{
    let words = (req.len() / 4) as u16;
    crate::wire::law_le16_round_trip(Seq::<u8>::empty(), words);
    let e = Seq::<u8>::empty() + le16(words as int);
    assert(e =~= le16(words as int));
}

/// A key packet (event kind 2, KeyPress, or 3, KeyRelease, with or without
/// the sent-event bit) reports its keycode byte, a press for kind 2 and a
/// release for kind 3, and Shift / Control from bits 0 and 2 of the state
/// mask at byte 28.
pub proof fn law_key_packet_state(b: Seq<u8>)
    requires
        b.len() == 32,
        b[0] % 128 == 2 || b[0] % 128 == 3,
    ensures
        x_event(b) == (XInput::Key {
            keycode: b[1],
            state: if b[0] % 128 == 2 { ButtonState::Pressed } else { ButtonState::Released },
            modifiers: Modifiers {
                shift: b[28] % 2 == 1,
                ctrl: (b[28] / 4) % 2 == 1,
                alt: false,
                meta: false,
            },
        }),
{
    let lo = b[28] as int;
    let hi = b[29] as int;
    let mask = lo + hi * 256;
    assert(mask % 2 == lo % 2) by (nonlinear_arith)
        requires
            mask == lo + hi * 256,
            0 <= lo < 256,
            0 <= hi < 256,
    ;
    assert((mask / 4) % 2 == (lo / 4) % 2) by (nonlinear_arith)
        requires
            mask == lo + hi * 256,
            0 <= lo < 256,
            0 <= hi < 256,
    ;
}

/// The screen of a setup reply starts after the 32-byte fixed block, the
/// vendor string (its length is the little-endian `u16` at byte 16) padded
/// to a multiple of 4, and 8 bytes for each pixmap format (their count is
/// byte 21): the root window is the little-endian `u32` there, the root
/// visual the one 32 bytes on, the root depth the byte 38 bytes on. The
/// reply parses exactly when that screen's first 39 bytes are present.
pub proof fn law_setup_screen_offset(d: Seq<u8>)
    requires
        d.len() >= 28,
    ensures
        ({
            let vendor = d[16] + d[17] * 256;
            let k = 32 + (vendor + 3) / 4 * 4 + 8 * d[21];
            &&& (setup_of(d) is Some <==> k + 39 <= d.len())
            &&& (setup_of(d) matches Some(st) ==> {
                &&& st.root == d[k] + d[k + 1] * 256 + d[k + 2] * 65536 + d[k + 3] * 16777216
                &&& st.root_visual == d[k + 32] + d[k + 33] * 256 + d[k + 34] * 65536 + d[k + 35] * 16777216
                &&& st.root_depth == d[k + 38]
            })
        }),
{
    let vendor = d[16] + d[17] * 256;
    let k = 32 + (vendor + 3) / 4 * 4 + 8 * d[21];
    assert(le16_at(d, 16) == Some(vendor as u16));
    assert(screens_offset(vendor as u16 as int, d[21] as int) == k);
    let w0 = d[k] + d[k + 1] * 256 + d[k + 2] * 65536 + d[k + 3] * 16777216;
    let w1 = d[k + 32] + d[k + 33] * 256 + d[k + 34] * 65536 + d[k + 35] * 16777216;
    if k + 39 <= d.len() {
        assert(0 <= w0 < 0x1_0000_0000) by (nonlinear_arith)
            requires
                w0 == d[k] + d[k + 1] * 256 + d[k + 2] * 65536 + d[k + 3] * 16777216,
                0 <= d[k] < 256,
                0 <= d[k + 1] < 256,
                0 <= d[k + 2] < 256,
                0 <= d[k + 3] < 256,
        ;
        assert(0 <= w1 < 0x1_0000_0000) by (nonlinear_arith)
            requires
                w1 == d[k + 32] + d[k + 33] * 256 + d[k + 34] * 65536 + d[k + 35] * 16777216,
                0 <= d[k + 32] < 256,
                0 <= d[k + 33] < 256,
                0 <= d[k + 34] < 256,
                0 <= d[k + 35] < 256,
        ;
    }
}

} // verus!
