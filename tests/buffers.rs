use raytrace::counts::SampleCounts;
use raytrace::image::{BytesPerColor, ImageBuffer};

#[test]
fn new_counts_are_zero() {
    let c = SampleCounts::new(4, 3);
    assert_eq!((c.imgx(), c.imgy()), (4, 3));
    for y in 0..3 {
        for x in 0..4 {
            assert_eq!(c.count(x, y), 0);
        }
    }
    assert_eq!(c.index(3, 2), 11);
    assert_eq!(c.index(1, 1), 5);
}

#[test]
fn add_sample_counts_one_pixel() {
    let mut c = SampleCounts::new(2, 2);
    c.add_sample(1, 0);
    c.add_sample(1, 0);
    c.add_sample(0, 1);
    assert_eq!(c.count(1, 0), 2);
    assert_eq!(c.count(0, 1), 1);
    assert_eq!(c.count(0, 0), 0);
    assert_eq!(c.count(1, 1), 0);
}

fn frame(marks: &[(usize, usize)]) -> SampleCounts {
    let mut c = SampleCounts::new(3, 2);
    for &(x, y) in marks {
        c.add_sample(x, y);
    }
    c
}

fn all(c: &SampleCounts) -> Vec<usize> {
    let mut v = Vec::new();
    for y in 0..c.imgy() {
        for x in 0..c.imgx() {
            v.push(c.count(x, y));
        }
    }
    v
}

#[test]
fn add_counts_sums_pixel_by_pixel() {
    let mut s = frame(&[(0, 0), (2, 1)]);
    s.add_counts(&frame(&[(0, 0), (1, 0), (1, 0)]));
    assert_eq!(all(&s), vec![2, 2, 0, 0, 0, 1]);
}

#[test]
fn accumulation_order_does_not_matter() {
    let a = frame(&[(0, 0), (1, 1), (1, 1)]);
    let b = frame(&[(2, 0), (1, 1), (0, 1)]);
    let mut ab = frame(&[(0, 0)]);
    ab.add_counts(&a);
    ab.add_counts(&b);
    let mut ba = frame(&[(0, 0)]);
    ba.add_counts(&b);
    ba.add_counts(&a);
    assert_eq!(all(&ab), all(&ba));
    assert_eq!(all(&ab), vec![2, 0, 1, 1, 3, 0]);
}

#[test]
fn image_layout_follows_bytes_per_color() {
    let one = ImageBuffer::new(10, 5, BytesPerColor::One);
    assert_eq!((one.bytes_per_pixel, one.bytes_per_row), (3, 30));
    assert!(one.buffer.is_empty());
    let two = ImageBuffer::new(10, 5, BytesPerColor::Two);
    assert_eq!((two.bytes_per_pixel, two.bytes_per_row), (6, 60));
    assert_eq!(BytesPerColor::One.bit_depth(), 8);
    assert_eq!(BytesPerColor::Two.bit_depth(), 16);
    assert_eq!(BytesPerColor::Two.bytes(), 2);
}

#[test]
fn levels_pack_one_byte_each() {
    let img = ImageBuffer::from_levels(2, 1, BytesPerColor::One, &vec![0, 255, 7, 128, 1, 2]);
    assert_eq!(img.buffer, vec![0, 255, 7, 128, 1, 2]);
    assert_eq!((img.imgx, img.imgy), (2, 1));
}

#[test]
fn levels_pack_high_byte_first() {
    let img = ImageBuffer::from_levels(1, 1, BytesPerColor::Two, &vec![0x1234, 0xffff, 0x00ab]);
    assert_eq!(img.buffer, vec![0x12, 0x34, 0xff, 0xff, 0x00, 0xab]);
    assert_eq!(img.bytes_per_row, 6);
}
