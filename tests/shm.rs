use play_wayland::draw::draw;
use play_wayland::shm::{
    checked_pool_size, BufferDescriptor, PixelFormat, Pool, Shm, ShmError,
};

fn desc(width: u32, height: u32, stride: u32, format: PixelFormat) -> BufferDescriptor {
    BufferDescriptor { width, height, stride, format }
}

fn xrgb_service() -> Shm {
    let mut shm = Shm::new();
    shm.on_format(1);
    shm
}

#[test]
fn buffer_filling_the_rest_of_the_pool_fits() {
    let shm = xrgb_service();
    let mut pool = Pool::new(4096 + 64).unwrap();
    let b = pool.carve_buffer(64, desc(16, 64, 64, PixelFormat::Xrgb8888), &shm);
    assert!(b.is_ok());
    assert_eq!(b.unwrap().offset, 64);
}

#[test]
fn buffer_one_byte_past_the_pool_is_out_of_bounds() {
    let shm = xrgb_service();
    let mut pool = Pool::new(4096 + 63).unwrap();
    let b = pool.carve_buffer(64, desc(16, 64, 64, PixelFormat::Xrgb8888), &shm);
    assert_eq!(b, Err(ShmError::OutOfBounds));
}

#[test]
fn pool_size_must_fit_signed_32_bits() {
    assert_eq!(checked_pool_size(0x7fff_ffff), Ok(0x7fff_ffff));
    assert_eq!(checked_pool_size(0x8000_0000), Err(ShmError::SizeOverflow));
    assert!(matches!(Pool::new(0x8000_0000), Err(ShmError::SizeOverflow)));
    assert_eq!(Pool::new(1 << 20).unwrap().size(), 1 << 20);
}

#[test]
fn unadvertised_format_is_refused() {
    let shm = xrgb_service();
    let mut pool = Pool::new(1 << 20).unwrap();
    let b = pool.carve_buffer(0, desc(512, 512, 2048, PixelFormat::Argb8888), &shm);
    assert_eq!(b, Err(ShmError::UnsupportedFormat));
    assert!(shm.supports(PixelFormat::Xrgb8888));
    assert!(!shm.supports(PixelFormat::Argb8888));
}

#[test]
fn stride_narrower_than_a_row_is_refused() {
    let shm = xrgb_service();
    let mut pool = Pool::new(1 << 20).unwrap();
    let b = pool.carve_buffer(0, desc(512, 4, 2047, PixelFormat::Xrgb8888), &shm);
    assert_eq!(b, Err(ShmError::InvalidStride));
}

#[test]
fn overlapping_buffers_are_refused() {
    let shm = xrgb_service();
    let mut pool = Pool::new(8192).unwrap();
    assert!(pool.carve_buffer(0, desc(16, 64, 64, PixelFormat::Xrgb8888), &shm).is_ok());
    let b = pool.carve_buffer(4032, desc(16, 2, 64, PixelFormat::Xrgb8888), &shm);
    assert_eq!(b, Err(ShmError::Overlap));
    assert!(pool.carve_buffer(4096, desc(16, 64, 64, PixelFormat::Xrgb8888), &shm).is_ok());
}

#[test]
fn descriptor_size_is_height_times_stride() {
    assert_eq!(desc(512, 512, 2048, PixelFormat::Xrgb8888).size(), 1 << 20);
    assert_eq!(desc(3, 7, 16, PixelFormat::Argb8888).size(), 112);
}

#[test]
fn format_codes() {
    assert_eq!(PixelFormat::from_code(0), Some(PixelFormat::Argb8888));
    assert_eq!(PixelFormat::from_code(1), Some(PixelFormat::Xrgb8888));
    assert_eq!(PixelFormat::from_code(0x3432_5258), None);
    assert_eq!(PixelFormat::Xrgb8888.code(), 1);
    assert_eq!(PixelFormat::Argb8888.bytes_per_pixel(), 4);
}

#[test]
fn draw_fills_disc_and_clears_the_rest() {
    let mut bytes = vec![0xaau8; 512 * 512 * 4];
    draw(&mut bytes);
    let px = |x: usize, y: usize| {
        let i = (y * 512 + x) * 4;
        [bytes[i], bytes[i + 1], bytes[i + 2], bytes[i + 3]]
    };
    assert_eq!(px(256, 256), [128, 128, 0, 192]);
    assert_eq!(px(100, 300), [50, 150, 0, 192]);
    assert_eq!(px(0, 0), [0, 0, 0, 0]);
    assert_eq!(px(511, 511), [0, 0, 0, 0]);
    assert_eq!(px(456, 256), [0, 0, 0, 0]);
    assert_eq!(px(455, 256), [227, 128, 0, 192]);
}
