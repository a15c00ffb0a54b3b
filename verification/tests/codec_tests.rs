use shuaforge_core::codec::sha256_hex;
use shuaforge_core::problem::ProblemImage;
use shuaforge_core::problem_export::{export_image_asset, hydrate_image, image_asset_path};
use shuaforge_core::userscript_server::{percent_decode, query_param};

fn image(base64: &str) -> ProblemImage {
    ProblemImage {
        filename: "a:b.png".into(),
        mime_type: "image/png".into(),
        base64: base64.into(),
        alt_text: String::new(),
        source_url: String::new(),
    }
}

#[test]
fn image_assets_are_decoded_from_base64() {
    let (path, bytes) = export_image_asset("p/1", 0, &image(" AAE= ")).expect("asset");
    assert_eq!(path, "assets/p_1-1-a_b.png");
    assert_eq!(bytes, vec![0u8, 1u8]);
    assert_eq!(export_image_asset("p", 0, &image("not base64!")), None);
    assert_eq!(export_image_asset("p", 0, &image("  ")), None);
    assert_eq!(image_asset_path("", 2, ""), "assets/unnamed-3-unnamed");
}

#[test]
fn images_without_data_are_filled_from_archive_bytes() {
    let mut empty = image("");
    hydrate_image(&mut empty, Some(vec![0, 1]));
    assert_eq!(empty.base64, "AAE=");
    let mut present = image("AAA=");
    hydrate_image(&mut present, Some(vec![9]));
    assert_eq!(present.base64, "AAA=");
}

#[test]
fn archive_bytes_are_written_as_padded_base64() {
    for (bytes, text) in [
        (b"Man".to_vec(), "TWFu"),
        (b"Ma".to_vec(), "TWE="),
        (b"M".to_vec(), "TQ=="),
        (vec![0xfb, 0xff, 0xbf], "+/+/"),
        (b"hello world".to_vec(), "aGVsbG8gd29ybGQ="),
    ] {
        let mut empty = image("");
        hydrate_image(&mut empty, Some(bytes));
        assert_eq!(empty.base64, text);
    }
}

#[test]
fn query_values_are_percent_decoded_as_utf8() {
    assert_eq!(percent_decode("a%20b%E4%B8%AD"), "a b中");
    assert_eq!(percent_decode("%FF"), "\u{FFFD}");
    assert_eq!(query_param("client_id=x%2Dy&z=1", "client_id").as_deref(), Some("x-y"));
    assert_eq!(query_param("z=1", "client_id"), None);
}

#[test]
fn sha256_hex_is_lowercase() {
    assert_eq!(
        sha256_hex(b""),
        "e3b0c44298fc1c149afbf4c8996fb92427ae41e4649b934ca495991b7852b855"
    );
}
