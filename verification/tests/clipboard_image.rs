use pdf2clipboard::clipboard_image::{dib_header_bytes, dib_pixel_data, rgba_bytes, Rgba};

fn px(r: u8, g: u8, b: u8, a: u8) -> Rgba {
    Rgba { r, g, b, a }
}

#[test]
fn rgba_bytes_in_pixel_order() {
    let pixels = vec![px(1, 2, 3, 4), px(5, 6, 7, 8)];
    assert_eq!(rgba_bytes(&pixels), vec![1, 2, 3, 4, 5, 6, 7, 8]);
    assert_eq!(rgba_bytes(&vec![]), Vec::<u8>::new());
}

#[test]
fn bitmap_rows_are_bottom_up_bgr_and_padded() {
    // A 2 by 2 image: rows take 6 bytes, padded to 8.
    let pixels = vec![px(1, 2, 3, 0), px(4, 5, 6, 0), px(7, 8, 9, 0), px(10, 11, 12, 0)];
    assert_eq!(
        dib_pixel_data(&pixels, 2, 2),
        vec![9, 8, 7, 12, 11, 10, 0, 0, 3, 2, 1, 6, 5, 4, 0, 0]
    );
    // A 4 pixel wide row needs no padding.
    let row = vec![px(1, 1, 1, 1); 4];
    assert_eq!(dib_pixel_data(&row, 4, 1).len(), 12);
    assert_eq!(dib_pixel_data(&vec![], 0, 0), Vec::<u8>::new());
}

#[test]
fn bitmap_header_fields() {
    let h = dib_header_bytes(2, 3);
    assert_eq!(h.len(), 40);
    assert_eq!(&h[0..4], &40u32.to_le_bytes());
    assert_eq!(&h[4..8], &2u32.to_le_bytes());
    assert_eq!(&h[8..12], &3u32.to_le_bytes());
    assert_eq!(&h[12..14], &1u16.to_le_bytes());
    assert_eq!(&h[14..16], &24u16.to_le_bytes());
    assert_eq!(&h[16..20], &0u32.to_le_bytes());
    assert_eq!(&h[20..24], &24u32.to_le_bytes());
    assert!(h[24..40].iter().all(|&b| b == 0));
    let wide = dib_header_bytes(1000, 700);
    assert_eq!(&wide[20..24], &(3000u32 * 700).to_le_bytes());
}
