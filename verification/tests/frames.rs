use tokio_tcpmux::frames::{control_frame, data_frames, vectored_data_frames};
use tokio_tcpmux::messages::{ControlMessage, Header};

fn header_of(frame: &[u8]) -> Header {
    let mut word = [0u8; 8];
    word.copy_from_slice(&frame[..8]);
    Header(u64::from_be_bytes(word))
}

#[test]
fn control_frame_is_big_endian_header() {
    let f = control_frame(ControlMessage::Open, 5);
    assert_eq!(&f[..], &[0, 0, 0, 0, 0, 0, 0, 21]);
    let f = control_frame(ControlMessage::Close, 0x0102_0304);
    assert_eq!(&f[..], &(((0x0102_0304u64) << 2) | 3).to_be_bytes());
}

#[test]
fn data_frames_cut_into_pieces() {
    let buf: Vec<u8> = (0u8..10).collect();
    let frames = data_frames(7, 4, &buf);
    assert_eq!(frames.len(), 3);
    let sizes = [4usize, 4, 2];
    let mut start = 0;
    for (f, size) in frames.iter().zip(sizes) {
        assert_eq!(f.len(), 8 + size);
        let h = header_of(f);
        assert_eq!(h.control(), ControlMessage::Data);
        assert_eq!(h.stream_id(), 7);
        assert_eq!(h.data_size() as usize, size);
        assert_eq!(&f[8..], &buf[start..start + size]);
        start += size;
    }
}

#[test]
fn data_frames_exact_multiple_has_no_empty_tail() {
    let buf = [9u8; 8];
    let frames = data_frames(1, 4, &buf);
    assert_eq!(frames.len(), 2);
    assert!(frames.iter().all(|f| f.len() == 12));
}

#[test]
fn data_frames_of_empty_write() {
    let frames = data_frames(1, 4, &[]);
    assert!(frames.is_empty());
}

#[test]
fn data_frames_reassemble() {
    let buf: Vec<u8> = (0..1000u32).map(|i| (i * 7 % 251) as u8).collect();
    let frames = data_frames(3, 64, &buf);
    let mut joined = Vec::new();
    for f in &frames {
        assert_eq!(header_of(f).data_size() as usize, f.len() - 8);
        assert!(f.len() - 8 <= 64);
        joined.extend_from_slice(&f[8..]);
    }
    assert_eq!(joined, buf);
}

#[test]
fn vectored_frames_keep_empty_tails() {
    let a = [1u8; 8];
    let b = [2u8, 3, 4];
    let bufs: Vec<&[u8]> = vec![&a, &b];
    let (frames, total) = vectored_data_frames(9, 4, &bufs);
    assert_eq!(total, 11);
    let lens: Vec<usize> = frames.iter().map(|f| f.len() - 8).collect();
    assert_eq!(lens, vec![4, 4, 0, 3]);
    assert_eq!(&frames[3][8..], &b);
    assert_eq!(header_of(&frames[2]).data_size(), 0);
    assert_eq!(header_of(&frames[2]).stream_id(), 9);
}

#[test]
fn vectored_frames_of_no_buffers() {
    let bufs: Vec<&[u8]> = Vec::new();
    let (frames, total) = vectored_data_frames(9, 4, &bufs);
    assert!(frames.is_empty());
    assert_eq!(total, 0);
}

#[test]
fn data_frames_with_frame_size_above_write() {
    let frames = data_frames(1, usize::MAX, &[1, 2, 3]);
    assert_eq!(frames.len(), 1);
    assert_eq!(&frames[0][8..], &[1, 2, 3]);
    assert_eq!(header_of(&frames[0]).data_size(), 3);
}

#[test]
fn vectored_frames_of_no_buffers_with_zero_size() {
    let bufs: Vec<&[u8]> = Vec::new();
    let (frames, total) = vectored_data_frames(9, 0, &bufs);
    assert!(frames.is_empty());
    assert_eq!(total, 0);
}
