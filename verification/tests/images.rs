use base64::Engine;
use koala::images::{check_rgba, from_rgba, png_attachment, validate, MAX_IMAGES, MAX_IMAGE_BYTES, MAX_PIXELS};
use koala::llm::ImageAttachment;

#[test]
fn clipboard_pixels_become_a_self_contained_png() {
    let image = from_rgba(2, 1, &[255, 0, 0, 255, 0, 255, 0, 128]).unwrap();
    assert_eq!((image.width, image.height), (2, 1));
    let png = base64::engine::general_purpose::STANDARD
        .decode(image.data_url.strip_prefix("data:image/png;base64,").unwrap())
        .unwrap();
    let pixels = image::load_from_memory(&png).unwrap().to_rgba8();
    assert_eq!(pixels.into_raw(), [255, 0, 0, 255, 0, 255, 0, 128]);
}

#[test]
fn image_validation_rejects_corruption_oversize_and_mismatched_metadata() {
    let image = from_rgba(1, 1, &[1, 2, 3, 255]).unwrap();
    validate(&vec![image.clone()]).unwrap();
    let mut invalid = image.clone();
    invalid.width = 2;
    assert!(validate(&vec![invalid]).is_err());
    let mut invalid = image.clone();
    invalid.data_url = "data:image/png;base64,AQID".into();
    assert!(validate(&vec![invalid]).is_err());
    let mut invalid = image.clone();
    invalid.data_url = format!(
        "data:image/png;base64,{}",
        "A".repeat(MAX_IMAGE_BYTES.div_ceil(3) * 4 + 4)
    );
    assert!(validate(&vec![invalid]).is_err());
    assert!(validate(&vec![image; MAX_IMAGES + 1]).is_err());
}

#[test]
fn invalid_and_excessive_clipboard_dimensions_are_rejected() {
    for (w, h, bytes) in [
        (0, 1, &[][..]),
        (1, 1, &[][..]),
        (usize::MAX, 2, &[][..]),
        (MAX_PIXELS + 1, 1, &[][..]),
    ] {
        assert!(from_rgba(w, h, bytes).is_err());
    }
}

#[test]
fn rgba_checks_report_their_own_messages() {
    assert_eq!(
        check_rgba(0, 5, 0).unwrap_err(),
        "Image must contain between 1 and 16 million pixels"
    );
    assert_eq!(check_rgba(2, 2, 15).unwrap_err(), "Invalid RGBA image buffer");
    assert!(check_rgba(2, 2, 16).is_ok());
    assert!(check_rgba(MAX_PIXELS, 1, MAX_PIXELS * 4).is_ok());
}

#[test]
fn validation_errors_come_in_order() {
    let image = from_rgba(1, 1, &[1, 2, 3, 255]).unwrap();
    assert_eq!(
        validate(&vec![image.clone(); 5]).unwrap_err(),
        "At most 4 images can be sent per message"
    );
    let jpeg = ImageAttachment {
        data_url: "data:image/jpeg;base64,AAAA".into(),
        width: 1,
        height: 1,
    };
    assert_eq!(
        validate(&vec![image.clone(), jpeg]).unwrap_err(),
        "Only inline PNG images are supported"
    );
    let mut empty = image.clone();
    empty.height = 0;
    assert_eq!(
        validate(&vec![empty]).unwrap_err(),
        "Image must contain between 1 and 16 million pixels"
    );
    let mut wrong = image.clone();
    wrong.width = 3;
    assert!(validate(&vec![wrong]).is_err());
    assert!(validate(&vec![]).is_ok());
}

#[test]
fn attachment_embeds_base64_png() {
    let a = png_attachment(&[1, 2, 3], 7, 9).unwrap();
    assert_eq!(a.data_url, "data:image/png;base64,AQID");
    assert_eq!((a.width, a.height), (7, 9));
    let big = vec![0u8; MAX_IMAGE_BYTES + 1];
    assert_eq!(
        png_attachment(&big, 1, 1).unwrap_err(),
        "Image exceeds the 5 MiB PNG limit"
    );
}
