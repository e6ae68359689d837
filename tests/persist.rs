use planet_surface::persist::{check_saveable, PersistError, TexelFormat};

#[test]
fn saveable_formats() {
    assert_eq!(check_saveable(TexelFormat::Rgba8Unorm, true), Ok(()));
    assert_eq!(check_saveable(TexelFormat::Rgba8UnormSrgb, true), Ok(()));
    assert_eq!(check_saveable(TexelFormat::Other, true), Err(PersistError::UnsupportedFormat));
    assert_eq!(check_saveable(TexelFormat::Other, false), Err(PersistError::UnsupportedFormat));
    assert_eq!(check_saveable(TexelFormat::Rgba8Unorm, false), Err(PersistError::MissingData));
}

#[test]
fn png_round_trip_keeps_pixels() {
    let (w, h) = (3u32, 2u32);
    let rgb: Vec<u8> = (0..(w * h * 3) as u8).map(|b| b * 7).collect();
    let rgba = planet_surface::normal_map::assemble_normal_map(&rgb);
    assert_eq!(check_saveable(TexelFormat::Rgba8UnormSrgb, true), Ok(()));
    let buffer: image::ImageBuffer<image::Rgba<u8>, Vec<u8>> =
        image::ImageBuffer::from_raw(w, h, rgba.clone()).unwrap();
    let mut bytes = std::io::Cursor::new(Vec::new());
    buffer.write_to(&mut bytes, image::ImageFormat::Png).unwrap();
    let back = image::load_from_memory_with_format(bytes.get_ref(), image::ImageFormat::Png)
        .unwrap()
        .to_rgba8();
    assert_eq!((back.width(), back.height()), (w, h));
    assert_eq!(back.into_raw(), rgba);
}
