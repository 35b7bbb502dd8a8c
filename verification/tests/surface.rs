use stipple::color::Color;
use stipple::geometry::PhysicalSize;
use stipple::pixmap::{rgba_to_bgra, Pixmap, SoftwareRenderer};

#[test]
fn pixel_access_bounds() {
    let mut pm = Pixmap::new(PhysicalSize::new(2, 2));
    pm.as_bytes_mut()[4..8].copy_from_slice(&[10, 20, 30, 40]);
    assert_eq!(pm.pixel(1, 0), Some([10, 20, 30, 40]));
    assert_eq!(pm.pixel(2, 0), None);
    assert_eq!(pm.stride(), 8);
}

#[test]
fn blit_composites_at_offset() {
    let mut dst = Pixmap::new(PhysicalSize::new(4, 4));
    let mut src = Pixmap::new(PhysicalSize::new(2, 2));
    for px in src.as_bytes_mut().chunks_exact_mut(4) {
        px.copy_from_slice(&[1, 2, 3, 4]);
    }
    dst.blit(&src, 1, 1);
    // The 2x2 block at (1,1) is filled; (0,0) stays transparent.
    assert_eq!(dst.pixel(0, 0), Some([0, 0, 0, 0]));
    assert_eq!(dst.pixel(1, 1), Some([1, 2, 3, 4]));
    assert_eq!(dst.pixel(2, 2), Some([1, 2, 3, 4]));
    assert_eq!(dst.pixel(3, 3), Some([0, 0, 0, 0]));
}

#[test]
fn blit_clips_to_destination_bounds() {
    let mut dst = Pixmap::new(PhysicalSize::new(2, 2));
    let mut src = Pixmap::new(PhysicalSize::new(2, 2));
    for px in src.as_bytes_mut().chunks_exact_mut(4) {
        px.copy_from_slice(&[9, 9, 9, 9]);
    }
    // Origin near the far corner: only the (1,1) pixel lands inside.
    dst.blit(&src, 1, 1);
    assert_eq!(dst.pixel(1, 1), Some([9, 9, 9, 9]));
    assert_eq!(dst.pixel(0, 0), Some([0, 0, 0, 0]));
    // Fully out of bounds: no-op, no panic.
    dst.blit(&src, 5, 5);
}

// ---- further cases ----------------------------------------------------------

#[test]
fn blit_copies_each_source_pixel_to_its_offset() {
    let mut src = Pixmap::new(PhysicalSize::new(3, 2));
    for (i, px) in src.as_bytes_mut().chunks_exact_mut(4).enumerate() {
        px.copy_from_slice(&[i as u8, 10 + i as u8, 20 + i as u8, 255]);
    }
    let mut dst = Pixmap::from_rgba8(PhysicalSize::new(4, 3), vec![7u8; 48]);
    dst.blit(&src, 2, 1);
    assert_eq!(dst.pixel(2, 1), Some([0, 10, 20, 255]));
    assert_eq!(dst.pixel(3, 1), Some([1, 11, 21, 255]));
    assert_eq!(dst.pixel(2, 2), Some([3, 13, 23, 255]));
    assert_eq!(dst.pixel(3, 2), Some([4, 14, 24, 255]));
    assert_eq!(dst.pixel(1, 1), Some([7, 7, 7, 7]));
    assert_eq!(dst.pixel(2, 0), Some([7, 7, 7, 7]));
    let before = dst.as_bytes().to_vec();
    dst.blit(&src, 4, 0);
    dst.blit(&src, 0, 3);
    assert_eq!(dst.as_bytes(), &before[..]);
}

#[test]
fn pixmap_reports_its_extent() {
    let pm = Pixmap::new(PhysicalSize::new(3, 5));
    assert_eq!(pm.size(), PhysicalSize::new(3, 5));
    assert_eq!(pm.stride(), 12);
    assert_eq!(pm.as_bytes().len(), 60);
    assert!(pm.as_bytes().iter().all(|&b| b == 0));
    assert_eq!(pm.pixel(2, 4), Some([0, 0, 0, 0]));
    assert_eq!(pm.pixel(0, 5), None);
    assert_eq!(PhysicalSize::new(70_000, 70_000).pixel_count(), 4_900_000_000);
}

#[test]
fn software_renderer_background() {
    assert_eq!(SoftwareRenderer::new().background, Color::transparent());
    let r = SoftwareRenderer::new().with_background(Color::rgb(1, 2, 3));
    assert_eq!(r.background, Color::rgba(1, 2, 3, 255));
}

#[test]
fn dib_bytes_swap_red_and_blue() {
    assert_eq!(rgba_to_bgra(&[1, 2, 3, 4, 5, 6, 7, 8]), vec![3, 2, 1, 4, 7, 6, 5, 8]);
    assert_eq!(rgba_to_bgra(&[1, 2, 3, 4, 9, 9]), vec![3, 2, 1, 4, 0, 0]);
    assert_eq!(rgba_to_bgra(&[]), Vec::<u8>::new());
}

#[test]
fn cloned_pixmap_keeps_extent_and_bytes() {
    let mut a = Pixmap::new(PhysicalSize::new(2, 1));
    a.as_bytes_mut()[0..4].copy_from_slice(&[5, 6, 7, 8]);
    let b = a.clone();
    assert_eq!(b.size(), PhysicalSize::new(2, 1));
    assert_eq!(b.as_bytes(), a.as_bytes());
    assert_eq!(b.pixel(0, 0), Some([5, 6, 7, 8]));
}
