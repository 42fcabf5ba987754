//! The messages exchanged with the Kagami compositor: the request for a new
//! window, its reply, and the chunked upload of a window's pixels. Sending and
//! receiving is left to the caller; these functions build and read the bytes.
use vstd::prelude::*;

verus! {

pub const IPC_BUF_SIZE: usize = 4128;

pub const OP_REQ_CREATE_WINDOW: u32 = 1;

pub const OP_RES_WINDOW_CREATED: u32 = 2;

pub const OP_REQ_FLUSH_CHUNK: u32 = 4;

pub const LAYER_APP: u8 = 1;

pub const CHUNK_HEADER_SIZE: usize = 20;

/// How many pixels fit in one message after its header.
pub const MAX_CHUNK_PIXELS: usize = 1027;

/// The little-endian bytes of a `u16`.
pub open spec fn le16(v: u16) -> Seq<u8> {
    seq![(v & 0xffu16) as u8, (v >> 8u16) as u8]
}

/// The little-endian bytes of a `u32`.
pub open spec fn le32(v: u32) -> Seq<u8> {
    seq![(v & 0xffu32) as u8, ((v >> 8u32) & 0xffu32) as u8, ((v >> 16u32) & 0xffu32) as u8, (v >> 24u32) as u8]
}

/// The `u32` whose little-endian bytes are `s[at..at + 4]`.
pub open spec fn le32_at(s: Seq<u8>, at: int) -> u32 {
    (s[at] as u32) | ((s[at + 1] as u32) << 8u32) | ((s[at + 2] as u32) << 16u32) | ((s[at + 3] as u32) << 24u32)
}

fn push_le16(out: &mut Vec<u8>, v: u16)
    ensures
        final(out)@ == old(out)@ + le16(v),
{
    out.push((v & 0xff) as u8);
    out.push((v >> 8) as u8);
    assert(out@ =~= old(out)@ + le16(v));
}

fn push_le32(out: &mut Vec<u8>, v: u32)
    ensures
        final(out)@ == old(out)@ + le32(v),
{
    out.push((v & 0xff) as u8);
    out.push(((v >> 8) & 0xff) as u8);
    out.push(((v >> 16) & 0xff) as u8);
    out.push((v >> 24) as u8);
    assert(out@ =~= old(out)@ + le32(v));
}

/// The request for an application window of `width x height`: the opcode, the
/// size, and the application layer.
pub open spec fn window_request(width: u16, height: u16) -> Seq<u8> {
    le32(OP_REQ_CREATE_WINDOW) + le16(width) + le16(height) + seq![LAYER_APP]
}

/// Builds the window request; see `window_request`.
pub fn create_window_request(width: u16, height: u16) -> (r: Vec<u8>)
    ensures
        r@ == window_request(width, height),
{
    let mut r: Vec<u8> = Vec::new();
    push_le32(&mut r, OP_REQ_CREATE_WINDOW);
    push_le16(&mut r, width);
    push_le16(&mut r, height);
    r.push(LAYER_APP);
    assert(r@ =~= window_request(width, height));
    r
}

/// What to do with a message received while waiting for a new window.
#[derive(Debug, Clone, Copy, PartialEq, Eq, Structural)]
pub enum WindowReply {
    /// Not from the compositor, or too short: yield, then wait on.
    Yield,
    /// From the compositor but another reply: wait on.
    Ignore,
    /// The window was created with this id.
    Created(u32),
}

/// How a received message answers the window request: one from the compositor of
/// at least 8 bytes whose first word is the created-window opcode carries the id
/// in its second word.
pub open spec fn window_reply_of(sender: u64, compositor: u64, len: usize, msg: Seq<u8>) -> WindowReply {
    if sender != compositor || len < 8 {
        WindowReply::Yield
    } else if le32_at(msg, 0) != OP_RES_WINDOW_CREATED {
        WindowReply::Ignore
    } else {
        WindowReply::Created(le32_at(msg, 4))
    }
}

/// Reads a received message; see `window_reply_of`.
pub fn window_reply(sender: u64, compositor: u64, len: usize, msg: &[u8]) -> (r: WindowReply)
    requires
        msg@.len() >= 8,
    ensures
        r == window_reply_of(sender, compositor, len, msg@),
{
    if sender != compositor || len < 8 {
        return WindowReply::Yield;
    }
    let op = (msg[0] as u32) | ((msg[1] as u32) << 8) | ((msg[2] as u32) << 16) | ((msg[3] as u32) << 24);
    if op != OP_RES_WINDOW_CREATED {
        return WindowReply::Ignore;
    }
    WindowReply::Created((msg[4] as u32) | ((msg[5] as u32) << 8) | ((msg[6] as u32) << 16) | ((msg[7] as u32) << 24))
}

/// The width of a chunk: the window's width, at most 64 and at least 1.
pub open spec fn chunk_width(width: int) -> int {
    if width > 64 { 64 } else if width < 1 { 1 } else { width }
}

/// The height of a chunk: as many rows as fit in one message, at least 1.
pub open spec fn chunk_height(width: int) -> int {
    let h = MAX_CHUNK_PIXELS as int / chunk_width(width);
    if h < 1 { 1 } else { h }
}

/// The bytes of row `y` of a chunk: the first `cols` pixels from column `x0`, each
/// made opaque, little-endian.
pub open spec fn row_bytes(pixels: Seq<u32>, width: int, x0: int, y: int, cols: nat) -> Seq<u8>
    decreases cols,
{
    if cols == 0 {
        seq![]
    } else {
        row_bytes(pixels, width, x0, y, (cols - 1) as nat) + le32(pixels[y * width + x0 + cols - 1] | 0xFF00_0000u32)
    }
}

/// The bytes of the first `rows` rows of the chunk `(x0, y0, w, _)`.
pub open spec fn chunk_bytes(pixels: Seq<u32>, width: int, x0: int, y0: int, w: int, rows: nat) -> Seq<u8>
    decreases rows,
{
    if rows == 0 {
        seq![]
    } else {
        chunk_bytes(pixels, width, x0, y0, w, (rows - 1) as nat) + row_bytes(pixels, width, x0, y0 + rows - 1, w as nat)
    }
}

/// The message carrying the chunk `(x0, y0, w, h)` of a `width x height` window:
/// the opcode, the window, the window's size, the chunk's place and size, then its
/// pixels row by row.
pub open spec fn chunk_message(window_id: u32, width: u16, height: u16, pixels: Seq<u32>, x0: int, y0: int, w: int, h: int) -> Seq<u8> {
    le32(OP_REQ_FLUSH_CHUNK) + le32(window_id) + le16(width) + le16(height) + le16(x0 as u16) + le16(y0 as u16) + le16(w as u16)
        + le16(h as u16) + chunk_bytes(pixels, width as int, x0, y0, w, h as nat)
}

/// The messages of the chunks of the band of rows `y0..y0 + h` from column `x0` on,
/// left to right.
pub open spec fn band_messages(window_id: u32, width: u16, height: u16, pixels: Seq<u32>, x0: int, y0: int, h: int) -> Seq<Seq<u8>>
    decreases width - x0,
{
    if x0 >= width || x0 < 0 {
        seq![]
    } else {
        let cw = chunk_width(width as int);
        let w = if width - x0 < cw { width - x0 } else { cw };
        seq![chunk_message(window_id, width, height, pixels, x0, y0, w, h)] + band_messages(
            window_id,
            width,
            height,
            pixels,
            x0 + w,
            y0,
            h,
        )
    }
}

/// The messages of all chunks from row `y0` on, band by band from the top.
pub open spec fn flush_messages_from(window_id: u32, width: u16, height: u16, pixels: Seq<u32>, y0: int) -> Seq<Seq<u8>>
    decreases height - y0,
{
    if y0 >= height || y0 < 0 {
        seq![]
    } else {
        let ch = chunk_height(width as int);
        let h = if height - y0 < ch { height - y0 } else { ch };
        band_messages(window_id, width, height, pixels, 0, y0, h) + flush_messages_from(
            window_id,
            width,
            height,
            pixels,
            y0 + h,
        )
    }
}

/// The bytes of each message.
pub open spec fn messages_view(ms: Seq<Vec<u8>>) -> Seq<Seq<u8>> {
    Seq::new(ms.len(), |i: int| ms[i]@)
}

proof fn lemma_index_bound(y: int, x: int, width: int, height: int)
    requires
        0 <= y < height,
        0 <= x < width,
    ensures
        0 <= y * width + x < width * height,
{
    assert(0 <= y * width + x < width * height) by (nonlinear_arith)
        requires 0 <= y < height, 0 <= x < width;
}

proof fn lemma_area_fits(width: u16, height: u16)
    ensures
        width * height <= 0xFFFF_FFFFusize,
{
    assert(width * height <= 65535 * 65535) by (nonlinear_arith)
        requires width <= 65535, height <= 65535, 0 <= width, 0 <= height;
}

fn chunk_message_exec(window_id: u32, width: u16, height: u16, pixels: &[u32], x0: usize, y0: usize, w: usize, h: usize) -> (m: Vec<u8>)
    requires
        pixels@.len() >= width * height,
        x0 + w <= width,
        y0 + h <= height,
    ensures
        m@ == chunk_message(window_id, width, height, pixels@, x0 as int, y0 as int, w as int, h as int),
{
    let width_usize = width as usize;
    let mut msg: Vec<u8> = Vec::new();
    push_le32(&mut msg, OP_REQ_FLUSH_CHUNK);
    push_le32(&mut msg, window_id);
    push_le16(&mut msg, width);
    push_le16(&mut msg, height);
    push_le16(&mut msg, x0 as u16);
    push_le16(&mut msg, y0 as u16);
    push_le16(&mut msg, w as u16);
    push_le16(&mut msg, h as u16);
    let ghost header = msg@;
    let mut row: usize = 0;
    while row < h
        invariant
            row <= h,
            x0 + w <= width,
            y0 + h <= height,
            width_usize == width,
            pixels@.len() >= width * height,
            msg@ == header + chunk_bytes(pixels@, width as int, x0 as int, y0 as int, w as int, row as nat),
        decreases h - row,
    {
        proof {
            lemma_area_fits(width, height);
            assert((y0 + row) * width <= width * height) by (nonlinear_arith)
                requires 0 <= y0 + row < height, 0 <= width;
        }
        let src_row = (y0 + row) * width_usize;
        let mut col: usize = 0;
        while col < w
            invariant
                col <= w,
                row < h,
                x0 + w <= width,
                y0 + h <= height,
                width_usize == width,
                src_row == (y0 + row) * width,
                pixels@.len() >= width * height,
                msg@ == header + chunk_bytes(pixels@, width as int, x0 as int, y0 as int, w as int, row as nat)
                    + row_bytes(pixels@, width as int, x0 as int, y0 + row, col as nat),
            decreases w - col,
        {
            proof {
                lemma_index_bound(y0 + row, x0 + col, width as int, height as int);
                lemma_area_fits(width, height);
            }
            push_le32(&mut msg, pixels[src_row + x0 + col] | 0xFF00_0000);
            col = col + 1;
        }
        row = row + 1;
    }
    msg
}

/// The messages that upload a `width x height` window's pixels, chunk by chunk;
/// an error when the buffer holds fewer pixels than the window.
pub fn flush_chunk_messages(window_id: u32, width: u16, height: u16, pixels: &[u32]) -> (r: Result<Vec<Vec<u8>>, &'static str>)
    ensures
        r is Err <==> pixels@.len() < width * height,
        r matches Err(e) ==> e@ == "pixel buffer too small"@,
        r matches Ok(ms) ==> messages_view(ms@) == flush_messages_from(window_id, width, height, pixels@, 0),
{
    proof {
        lemma_area_fits(width, height);
    }
    let total = width as usize * height as usize;
    if pixels.len() < total {
        return Err("pixel buffer too small");
    }
    let width_usize = width as usize;
    let height_usize = height as usize;
    let chunk_w: usize = if width_usize > 64 { 64 } else if width_usize < 1 { 1 } else { width_usize };
    let q = MAX_CHUNK_PIXELS / chunk_w;
    let chunk_h: usize = if q < 1 { 1 } else { q };
    let ghost total_msgs = flush_messages_from(window_id, width, height, pixels@, 0);
    let mut out: Vec<Vec<u8>> = Vec::new();
    let mut y0: usize = 0;
    while y0 < height_usize
        invariant
            y0 <= height_usize,
            height_usize == height,
            width_usize == width,
            chunk_w == chunk_width(width as int),
            chunk_h == chunk_height(width as int),
            pixels@.len() >= width * height,
            total_msgs == flush_messages_from(window_id, width, height, pixels@, 0),
            messages_view(out@) + flush_messages_from(window_id, width, height, pixels@, y0 as int) == total_msgs,
        decreases height_usize - y0,
    {
        let h = if height_usize - y0 < chunk_h { height_usize - y0 } else { chunk_h };
        let mut x0: usize = 0;
        while x0 < width_usize
            invariant
                x0 <= width_usize,
                y0 < height_usize,
                y0 + h <= height_usize,
                h == (if height - y0 < chunk_height(width as int) { height - y0 } else { chunk_height(width as int) }),
                height_usize == height,
                width_usize == width,
                chunk_w == chunk_width(width as int),
                chunk_h == chunk_height(width as int),
                pixels@.len() >= width * height,
                total_msgs == flush_messages_from(window_id, width, height, pixels@, 0),
                messages_view(out@) + band_messages(window_id, width, height, pixels@, x0 as int, y0 as int, h as int)
                    + flush_messages_from(window_id, width, height, pixels@, y0 + h) == total_msgs,
            decreases width_usize - x0,
        {
            let w = if width_usize - x0 < chunk_w { width_usize - x0 } else { chunk_w };
            let msg = chunk_message_exec(window_id, width, height, pixels, x0, y0, w, h);
            let ghost before = out@;
            let ghost rest = band_messages(window_id, width, height, pixels@, (x0 + w) as int, y0 as int, h as int);
            let ghost tail = flush_messages_from(window_id, width, height, pixels@, y0 + h);
            out.push(msg);
            proof {
                assert(messages_view(out@) =~= messages_view(before) + seq![msg@]);
                assert(messages_view(before) + (seq![msg@] + rest) + tail =~= messages_view(out@) + rest + tail);
            }
            x0 = x0 + w;
        }
        proof {
            assert(messages_view(out@) + seq![] =~= messages_view(out@));
        }
        y0 = y0 + h;
    }
    Ok(out)
}

/// The pixel bytes the messages carry: each message's length after its header.
pub open spec fn payload_len(ms: Seq<Seq<u8>>) -> int
    decreases ms.len(),
{
    if ms.len() == 0 {
        0
    } else {
        (ms[0].len() - CHUNK_HEADER_SIZE) + payload_len(ms.drop_first())
    }
}

proof fn lemma_payload_add(a: Seq<Seq<u8>>, b: Seq<Seq<u8>>)
    ensures
        payload_len(a + b) == payload_len(a) + payload_len(b),
    decreases a.len(),
{
    if a.len() > 0 {
        assert((a + b).drop_first() =~= a.drop_first() + b);
        lemma_payload_add(a.drop_first(), b);
    } else {
        assert(a + b =~= b);
    }
}

proof fn lemma_row_bytes_len(pixels: Seq<u32>, width: int, x0: int, y: int, cols: nat)
    ensures
        row_bytes(pixels, width, x0, y, cols).len() == 4 * cols,
    decreases cols,
{
    if cols > 0 {
        lemma_row_bytes_len(pixels, width, x0, y, (cols - 1) as nat);
    }
}

proof fn lemma_chunk_bytes_len(pixels: Seq<u32>, width: int, x0: int, y0: int, w: int, rows: nat)
    requires
        w >= 0,
    ensures
        chunk_bytes(pixels, width, x0, y0, w, rows).len() == 4 * w * rows,
    decreases rows,
{
    if rows > 0 {
        lemma_chunk_bytes_len(pixels, width, x0, y0, w, (rows - 1) as nat);
        lemma_row_bytes_len(pixels, width, x0, y0 + rows - 1, w as nat);
        assert(chunk_bytes(pixels, width, x0, y0, w, rows) == chunk_bytes(pixels, width, x0, y0, w, (rows - 1) as nat)
            + row_bytes(pixels, width, x0, y0 + rows - 1, w as nat));
        let r1 = (rows - 1) as int;
        assert(chunk_bytes(pixels, width, x0, y0, w, (rows - 1) as nat).len() == 4 * w * r1);
        assert(row_bytes(pixels, width, x0, y0 + rows - 1, w as nat).len() == 4 * w);
        assert(4 * w * r1 + 4 * w == 4 * w * rows) by (nonlinear_arith)
            requires r1 == rows - 1;
    } else {
        assert(4 * w * rows == 0) by (nonlinear_arith)
            requires rows == 0;
    }
}

proof fn lemma_chunk_message_len(window_id: u32, width: u16, height: u16, pixels: Seq<u32>, x0: int, y0: int, w: int, h: int)
    requires
        w >= 0,
        h >= 0,
    ensures
        chunk_message(window_id, width, height, pixels, x0, y0, w, h).len() == CHUNK_HEADER_SIZE + 4 * w * h,
{
    lemma_chunk_bytes_len(pixels, width as int, x0, y0, w, h as nat);
}

proof fn lemma_band(window_id: u32, width: u16, height: u16, pixels: Seq<u32>, x0: int, y0: int, h: int)
    requires
        0 <= x0 <= width,
        1 <= h <= chunk_height(width as int),
    ensures
        payload_len(band_messages(window_id, width, height, pixels, x0, y0, h)) == 4 * h * (width - x0),
        forall|i: int|
            0 <= i < band_messages(window_id, width, height, pixels, x0, y0, h).len() ==> (#[trigger] band_messages(
                window_id,
                width,
                height,
                pixels,
                x0,
                y0,
                h,
            )[i]).len() <= IPC_BUF_SIZE,
    decreases width - x0,
{
    if x0 < width {
        let cw = chunk_width(width as int);
        let w = if width - x0 < cw { width - x0 } else { cw };
        let m = chunk_message(window_id, width, height, pixels, x0, y0, w, h);
        let rest = band_messages(window_id, width, height, pixels, x0 + w, y0, h);
        lemma_band(window_id, width, height, pixels, x0 + w, y0, h);
        lemma_chunk_message_len(window_id, width, height, pixels, x0, y0, w, h);
        lemma_payload_add(seq![m], rest);
        assert(seq![m].drop_first() =~= Seq::<Seq<u8>>::empty());
        assert(4 * w * h + 4 * h * (width - (x0 + w)) == 4 * h * (width - x0)) by (nonlinear_arith);
        let q = MAX_CHUNK_PIXELS as int / cw;
        vstd::arithmetic::div_mod::lemma_fundamental_div_mod(1027, cw);
        vstd::arithmetic::div_mod::lemma_mod_bound(1027, cw);
        assert(q * cw <= 1027 && q >= 1) by (nonlinear_arith)
            requires 1027 == cw * q + 1027int % cw, 0 <= 1027int % cw < cw, 1 <= cw <= 64;
        assert(h <= q);
        assert(w * h <= 1027) by (nonlinear_arith)
            requires 1 <= w <= cw, 1 <= cw <= 64, 1 <= h <= q, q * cw <= 1027;
        let all = band_messages(window_id, width, height, pixels, x0, y0, h);
        assert(all == seq![m] + rest);
        assert(payload_len(seq![m]) == m.len() - CHUNK_HEADER_SIZE + payload_len(seq![m].drop_first()));
        assert(payload_len(Seq::<Seq<u8>>::empty()) == 0);
        assert(payload_len(seq![m]) == 4 * w * h);
        assert(4 * w * h <= 4108) by (nonlinear_arith)
            requires w * h <= 1027;
        assert forall|i: int| 0 <= i < all.len() implies (#[trigger] all[i]).len() <= IPC_BUF_SIZE by {
            if i > 0 {
                assert(all[i] == rest[i - 1]);
            }
        }
    } else {
        assert(4 * h * (width - x0) == 0) by (nonlinear_arith)
            requires x0 == width;
    }
}

/// Uploading a window sends every pixel once: the messages together carry four
/// bytes for each pixel of the window, and each fits in one IPC buffer.
pub proof fn lemma_flush_covers_window(window_id: u32, width: u16, height: u16, pixels: Seq<u32>, y0: int)
    requires
        0 <= y0 <= height,
    ensures
        payload_len(flush_messages_from(window_id, width, height, pixels, y0)) == 4 * width * (height - y0),
        forall|i: int|
            0 <= i < flush_messages_from(window_id, width, height, pixels, y0).len() ==> (#[trigger] flush_messages_from(
                window_id,
                width,
                height,
                pixels,
                y0,
            )[i]).len() <= IPC_BUF_SIZE,
    decreases height - y0,
{
    if y0 < height {
        let ch = chunk_height(width as int);
        let h = if height - y0 < ch { height - y0 } else { ch };
        let band = band_messages(window_id, width, height, pixels, 0, y0, h);
        let rest = flush_messages_from(window_id, width, height, pixels, y0 + h);
        assert(1 <= ch) by {
            assert(chunk_width(width as int) <= 64);
        }
        lemma_band(window_id, width, height, pixels, 0, y0, h);
        lemma_flush_covers_window(window_id, width, height, pixels, y0 + h);
        lemma_payload_add(band, rest);
        assert(4 * h * width + 4 * width * (height - (y0 + h)) == 4 * width * (height - y0)) by (nonlinear_arith);
        assert(flush_messages_from(window_id, width, height, pixels, y0) == band + rest);
        let all = flush_messages_from(window_id, width, height, pixels, y0);
        assert forall|i: int| 0 <= i < all.len() implies (#[trigger] all[i]).len() <= IPC_BUF_SIZE by {
            if i < band.len() {
                assert(all[i] == band[i]);
            } else {
                assert(all[i] == rest[i - band.len()]);
            }
        }
    } else {
        assert(4 * width * (height - y0) == 0) by (nonlinear_arith)
            requires y0 == height;
    }
}

/// A reply from the compositor carrying the created-window opcode and an id reads
/// back as that id.
pub proof fn lemma_reply_round_trip(compositor: u64, id: u32, rest: Seq<u8>)
    ensures
        window_reply_of(compositor, compositor, 8, le32(OP_RES_WINDOW_CREATED) + le32(id) + rest) == WindowReply::Created(id),
{
    let m = le32(OP_RES_WINDOW_CREATED) + le32(id) + rest;
    assert(le32_at(m, 0) == OP_RES_WINDOW_CREATED) by {
        assert(m[0] == 2u8 && m[1] == 0u8 && m[2] == 0u8 && m[3] == 0u8) by {
            assert((2u32 & 0xffu32) as u8 == 2u8) by (bit_vector);
            assert(((2u32 >> 8u32) & 0xffu32) as u8 == 0u8) by (bit_vector);
            assert(((2u32 >> 16u32) & 0xffu32) as u8 == 0u8) by (bit_vector);
            assert((2u32 >> 24u32) as u8 == 0u8) by (bit_vector);
        }
        let (b0, b1, b2, b3) = (m[0], m[1], m[2], m[3]);
        assert((b0 as u32) | ((b1 as u32) << 8u32) | ((b2 as u32) << 16u32) | ((b3 as u32) << 24u32) == 2u32) by (bit_vector)
            requires b0 == 2u8, b1 == 0u8, b2 == 0u8, b3 == 0u8;
    }
    assert(le32_at(m, 4) == id) by {
        let (b0, b1, b2, b3) = (m[4], m[5], m[6], m[7]);
        assert(b0 == (id & 0xffu32) as u8 && b1 == ((id >> 8u32) & 0xffu32) as u8 && b2 == ((id >> 16u32) & 0xffu32) as u8
            && b3 == (id >> 24u32) as u8);
        assert((b0 as u32) | ((b1 as u32) << 8u32) | ((b2 as u32) << 16u32) | ((b3 as u32) << 24u32) == id) by (bit_vector)
            requires b0 == (id & 0xffu32) as u8, b1 == ((id >> 8u32) & 0xffu32) as u8, b2 == ((id >> 16u32) & 0xffu32) as u8,
                b3 == (id >> 24u32) as u8;
    }
}

} // verus!
