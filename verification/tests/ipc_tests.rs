use viewkit::ipc::{create_window_request, flush_chunk_messages, window_reply, WindowReply, CHUNK_HEADER_SIZE, IPC_BUF_SIZE};

#[test]
fn window_request_bytes() {
    assert_eq!(create_window_request(800, 600), vec![1, 0, 0, 0, 0x20, 0x03, 0x58, 0x02, 1]);
}

#[test]
fn window_reply_decisions() {
    let mut msg = vec![0u8; IPC_BUF_SIZE];
    msg[0] = 2;
    msg[4..8].copy_from_slice(&0x1234_5678u32.to_le_bytes());
    assert_eq!(window_reply(5, 5, 8, &msg), WindowReply::Created(0x1234_5678));
    assert_eq!(window_reply(6, 5, 8, &msg), WindowReply::Yield);
    assert_eq!(window_reply(5, 5, 7, &msg), WindowReply::Yield);
    msg[0] = 3;
    assert_eq!(window_reply(5, 5, 64, &msg), WindowReply::Ignore);
}

#[test]
fn single_chunk_message() {
    let ms = flush_chunk_messages(7, 2, 2, &[1, 2, 3, 0x0400_0004]).unwrap();
    assert_eq!(ms.len(), 1);
    let mut expected = vec![4, 0, 0, 0, 7, 0, 0, 0, 2, 0, 2, 0, 0, 0, 0, 0, 2, 0, 2, 0];
    for p in [1u32, 2, 3, 0x0400_0004] {
        expected.extend_from_slice(&(p | 0xFF00_0000).to_le_bytes());
    }
    assert_eq!(ms[0], expected);
}

#[test]
fn too_small_buffer_is_refused() {
    assert_eq!(flush_chunk_messages(1, 2, 2, &[0, 0, 0]), Err("pixel buffer too small"));
    assert_eq!(flush_chunk_messages(1, 0, 9, &[]), Ok(vec![]));
}

#[test]
fn chunks_tile_the_window() {
    let (w, h) = (100usize, 20usize);
    let pixels: Vec<u32> = (0..(w * h) as u32).collect();
    let ms = flush_chunk_messages(9, w as u16, h as u16, &pixels).unwrap();
    let sizes: Vec<usize> = ms.iter().map(|m| m.len()).collect();
    assert_eq!(sizes, vec![20 + 4 * 64 * 16, 20 + 4 * 36 * 16, 20 + 4 * 64 * 4, 20 + 4 * 36 * 4]);
    assert!(ms.iter().all(|m| m.len() <= IPC_BUF_SIZE));
    let payload: usize = ms.iter().map(|m| m.len() - CHUNK_HEADER_SIZE).sum();
    assert_eq!(payload, 4 * w * h);
    // the second chunk starts at column 64 of row 0
    assert_eq!(&ms[1][12..20], &[64, 0, 0, 0, 36, 0, 16, 0]);
    assert_eq!(&ms[1][20..24], &(64u32 | 0xFF00_0000).to_le_bytes());
    // the third starts at row 16
    assert_eq!(&ms[2][12..20], &[0, 0, 16, 0, 64, 0, 4, 0]);
    assert_eq!(&ms[2][20..24], &(1600u32 | 0xFF00_0000).to_le_bytes());
    // every pixel is carried exactly once
    let mut seen = vec![0u32; w * h];
    for m in &ms {
        let x0 = u16::from_le_bytes([m[12], m[13]]) as usize;
        let y0 = u16::from_le_bytes([m[14], m[15]]) as usize;
        let cw = u16::from_le_bytes([m[16], m[17]]) as usize;
        let ch = u16::from_le_bytes([m[18], m[19]]) as usize;
        for r in 0..ch {
            for c in 0..cw {
                let off = 20 + 4 * (r * cw + c);
                let v = u32::from_le_bytes([m[off], m[off + 1], m[off + 2], m[off + 3]]);
                assert_eq!(v, ((y0 + r) * w + x0 + c) as u32 | 0xFF00_0000);
                seen[(y0 + r) * w + x0 + c] += 1;
            }
        }
    }
    assert!(seen.iter().all(|&n| n == 1));
}
