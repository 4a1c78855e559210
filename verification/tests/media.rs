use rust_markdown_transformer::media::{base64_encode, mime_from_path, stem_of};

#[test]
fn base64_known_vectors() {
    assert_eq!(base64_encode(b""), "");
    assert_eq!(base64_encode(b"f"), "Zg==");
    assert_eq!(base64_encode(b"fo"), "Zm8=");
    assert_eq!(base64_encode(b"foo"), "Zm9v");
    assert_eq!(base64_encode(b"foob"), "Zm9vYg==");
    assert_eq!(base64_encode(b"fooba"), "Zm9vYmE=");
    assert_eq!(base64_encode(b"foobar"), "Zm9vYmFy");
}

#[test]
fn mime_and_stem() {
    assert_eq!(mime_from_path("ppt/media/image1.PNG"), "image/png");
    assert_eq!(mime_from_path("a/b/pic.jpeg"), "image/jpeg");
    assert_eq!(mime_from_path("x.bin"), "application/octet-stream");
    assert_eq!(stem_of("ppt/media/image12.png"), "image12");
    assert_eq!(stem_of("word/media/photo.jpeg"), "photo");
    assert_eq!(stem_of("noext"), "noext");
}
