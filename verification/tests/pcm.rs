use wapplatalk::pcm::{bytes_from_samples, samples_from_bytes};
use wapplatalk::pcm::{BUF_SIZE, CHANNELS, FRAME_SAMPLES, FRAME_SIZE, MSG_SIZE, SAMPLE_RATE};

#[test]
fn frame_sizes_agree() {
    assert_eq!(SAMPLE_RATE, 48000);
    assert_eq!(CHANNELS, 2);
    assert_eq!(FRAME_SIZE, 960);
    assert_eq!(FRAME_SAMPLES, FRAME_SIZE * CHANNELS);
    assert_eq!(BUF_SIZE, FRAME_SAMPLES * 2);
    assert_eq!(MSG_SIZE, BUF_SIZE + 1);
    assert_eq!(FRAME_SIZE as u32 * 50, SAMPLE_RATE);
}

#[test]
fn samples_are_little_endian() {
    assert_eq!(samples_from_bytes(&[0x01, 0x00]), vec![1]);
    assert_eq!(samples_from_bytes(&[0x00, 0x01]), vec![256]);
    assert_eq!(samples_from_bytes(&[0xff, 0x7f]), vec![32767]);
    assert_eq!(samples_from_bytes(&[0x00, 0x80]), vec![-32768]);
    assert_eq!(samples_from_bytes(&[0xff, 0xff]), vec![-1]);
    assert_eq!(samples_from_bytes(&[0x34, 0x12, 0xcc, 0xed]), vec![0x1234, -0x1234]);
}

#[test]
fn odd_last_byte_holds_no_sample() {
    let empty: Vec<i16> = Vec::new();
    assert_eq!(samples_from_bytes(&[]), empty);
    assert_eq!(samples_from_bytes(&[7]), empty);
    assert_eq!(samples_from_bytes(&[1, 0, 9]), vec![1]);
}

#[test]
fn bytes_are_little_endian() {
    assert_eq!(bytes_from_samples(&[1]), vec![0x01, 0x00]);
    assert_eq!(bytes_from_samples(&[-1]), vec![0xff, 0xff]);
    assert_eq!(bytes_from_samples(&[-32768, 32767]), vec![0x00, 0x80, 0xff, 0x7f]);
    assert_eq!(bytes_from_samples(&[0x1234, -0x1234]), vec![0x34, 0x12, 0xcc, 0xed]);
    assert_eq!(bytes_from_samples(&[]), Vec::<u8>::new());
}

#[test]
fn conversion_agrees_with_the_standard_library() {
    let mut all: Vec<i16> = Vec::new();
    let mut s = i16::MIN;
    loop {
        all.push(s);
        if s == i16::MAX {
            break;
        }
        s += 1;
    }
    let data = bytes_from_samples(&all);
    assert_eq!(data.len(), 2 * all.len());
    for (k, s) in all.iter().enumerate() {
        assert_eq!([data[2 * k], data[2 * k + 1]], s.to_le_bytes());
    }
    assert_eq!(samples_from_bytes(&data), all);
}
