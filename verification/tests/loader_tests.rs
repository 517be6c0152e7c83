use base64ct::Encoding;
use sha2::Digest;

use iiif_image::error::Error;
use iiif_image::format::{format_for_content, Format};
use iiif_image::image_loader::{
    cached_img_path, hex_bytes, FetchPlan, ImageLoader, LocalLoader, ProxyLoader, ProxyStep,
};

fn img(w: u32, h: u32) -> image::DynamicImage {
    image::DynamicImage::new_rgb8(w, h)
}

fn expected_hex(data: &[u8]) -> String {
    data.iter().map(|b| format!("{:02x}", b)).collect()
}

#[test]
fn hex_encoding_is_two_lowercase_digits_per_byte() {
    let data: Vec<u8> = vec![0x00, 0x0f, 0x10, 0xab, 0xff];
    let ours = String::from_utf8(hex_bytes(&data)).unwrap();
    assert_eq!(ours, "000f10abff");
    assert_eq!(ours, expected_hex(&data));
}

#[test]
fn cache_paths_are_sharded_by_digest() {
    let digest: Vec<u8> = (0u8..32).collect();
    let path = cached_img_path(b"/cache", &digest);
    let hex = expected_hex(&digest);
    let expected = format!("/cache/{}/{}/{}", &hex[0..2], &hex[2..4], hex);
    assert_eq!(String::from_utf8(path).unwrap(), expected);
}

#[test]
fn local_loader_resolves_under_prefix() {
    let mut loader = LocalLoader::new();
    loader.insert_dir(b"test", b"/data/images");

    let p = loader.resolve_path(b"test", b"photo.png").unwrap();
    assert_eq!(p, b"/data/images/photo.tif".to_vec());

    // No extension: the container extension is appended.
    let p = loader.resolve_path(b"test", b"photo").unwrap();
    assert_eq!(p, b"/data/images/photo.tif".to_vec());

    // A leading dot alone is no extension.
    let p = loader.resolve_path(b"test", b".hidden").unwrap();
    assert_eq!(p, b"/data/images/.hidden.tif".to_vec());

    // Only the final component's extension is replaced.
    let p = loader.resolve_path(b"test", b"a.b/c").unwrap();
    assert_eq!(p, b"/data/images/a.b/c.tif".to_vec());

    assert_eq!(
        loader.resolve_path(b"other", b"photo.png"),
        Err(Error::NotFound)
    );

    // A later insert for the same prefix replaces the directory.
    loader.insert_dir(b"test", b"/elsewhere");
    let p = loader.resolve_path(b"test", b"x").unwrap();
    assert_eq!(p, b"/elsewhere/x.tif".to_vec());
}

#[test]
fn proxy_identifier_must_be_base64url() {
    let proxy = ProxyLoader::new(b"/cache");
    assert_eq!(proxy.resolve(b"!!!not-base64!!!"), Err(Error::BadInput));
}

#[test]
fn proxy_rejects_non_utf8_uri() {
    let proxy = ProxyLoader::new(b"/cache");
    // Valid base64url, but the decoded bytes are not UTF-8.
    let id = base64ct::Base64UrlUnpadded::encode_string(&[0xff, 0xfe, 0x80]);
    assert_eq!(proxy.resolve(id.as_bytes()), Err(Error::BadInput));
}

#[test]
fn response_format_prefers_content_type_then_url_extension() {
    // The header decides when present.
    assert_eq!(
        format_for_content(Some(b"image/png"), b"/imgs/photo.jpg"),
        Some(Format::Png)
    );
    // An unknown header value resolves nothing, even with a usable URL.
    assert_eq!(
        format_for_content(Some(b"text/plain"), b"/imgs/photo.jpg"),
        None
    );
    // Without a header, the URL path's extension decides.
    assert_eq!(
        format_for_content(None, b"/imgs/photo.jpg"),
        Some(Format::Jpeg)
    );
    assert_eq!(
        format_for_content(None, b"/a/b/pic.old.TIFF"),
        Some(Format::Tiff)
    );
    // A final segment without a dot is tried as a whole.
    assert_eq!(format_for_content(None, b"/imgs/png"), Some(Format::Png));
    assert_eq!(format_for_content(None, b"/imgs/photo"), None);
}

#[test]
fn proxy_decodes_identifier_to_uri() {
    let proxy = ProxyLoader::new(b"/cache");
    let uri = b"http://example.com/img.png";
    let id = base64ct::Base64UrlUnpadded::encode_string(uri);
    match proxy.resolve(id.as_bytes()).unwrap() {
        ProxyStep::Fetch { uri: u } => assert_eq!(u, uri.to_vec()),
        other => panic!("expected a fetch step, got {:?}", other),
    }
    // Trailing padding is tolerated.
    let padded = format!("{}==", id);
    match proxy.resolve(padded.as_bytes()).unwrap() {
        ProxyStep::Fetch { uri: u } => assert_eq!(u, uri.to_vec()),
        other => panic!("expected a fetch step, got {:?}", other),
    }
}

#[test]
fn registered_uri_is_served_from_cache() {
    let mut proxy = ProxyLoader::new(b"/cache");
    let uri = b"http://example.com/img.png";
    let id = base64ct::Base64UrlUnpadded::encode_string(uri);

    // Unknown URI: must be fetched.
    assert!(matches!(
        proxy.resolve(id.as_bytes()).unwrap(),
        ProxyStep::Fetch { .. }
    ));

    let picture = img(3, 2);
    let path = proxy.register_image(uri, &picture, Format::Png);

    // The cache path is derived from the digest of the decoded bytes.
    let digest = sha2::Sha256::digest(picture.as_bytes());
    let hex: String = digest.iter().map(|b| format!("{:02x}", b)).collect();
    let expected = format!("/cache/{}/{}/{}", &hex[0..2], &hex[2..4], hex);
    assert_eq!(String::from_utf8(path.clone()).unwrap(), expected);

    // A second request for the same URI reads the cache, with the
    // registered format, and issues no fetch.
    match proxy.resolve(id.as_bytes()).unwrap() {
        ProxyStep::Cached { path: p, format } => {
            assert_eq!(p, path);
            assert_eq!(format, Format::Png);
        }
        other => panic!("expected a cached step, got {:?}", other),
    }
}

#[test]
fn identical_content_shares_one_cache_location() {
    let mut proxy = ProxyLoader::new(b"/cache");
    // Two URIs with byte-identical decoded content collide onto one
    // content-addressed path.
    let p1 = proxy.register_image(b"http://a/x.png", &img(3, 2), Format::Png);
    let p2 = proxy.register_image(b"http://b/y.png", &img(3, 2), Format::Png);
    assert_eq!(p1, p2);
}

#[test]
fn loader_dispatch() {
    let mut local = LocalLoader::new();
    local.insert_dir(b"test", b"/data");
    let loader = ImageLoader::Local(local);
    match loader.get_image_plan(b"test", b"pic").unwrap() {
        FetchPlan::LocalFile { path } => assert_eq!(path, b"/data/pic.tif".to_vec()),
        other => panic!("expected a local file plan, got {:?}", other),
    }
    assert_eq!(
        loader.get_image_plan(b"nope", b"pic"),
        Err(Error::NotFound)
    );

    let proxy = ImageLoader::Proxy(ProxyLoader::new(b"/cache"));
    let id = base64ct::Base64UrlUnpadded::encode_string(b"http://example.com/a.png");
    assert!(matches!(
        proxy.get_image_plan(b"proxy", id.as_bytes()).unwrap(),
        FetchPlan::RemoteFetch { .. }
    ));
    assert_eq!(
        proxy.get_image_plan(b"proxy", b"%%%"),
        Err(Error::BadInput)
    );
}
