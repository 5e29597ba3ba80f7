use lycan::favicon::{
    find_best_icon, icon_file_bytes, icon_url, parse_largest_size, resolve_url, site_base,
    width_of_token,
};

#[test]
fn largest_size_takes_the_widest_token() {
    assert_eq!(parse_largest_size("16x16 32x32"), Some(32));
    assert_eq!(parse_largest_size("  192x192\t48x48 "), Some(192));
    assert_eq!(parse_largest_size("48X48"), Some(48));
    assert_eq!(parse_largest_size("any"), None);
    assert_eq!(parse_largest_size(""), None);
    assert_eq!(parse_largest_size("16x16x16"), None);
    assert_eq!(parse_largest_size("-5x-5"), Some(-5));
    assert_eq!(parse_largest_size("any 64x64"), Some(64));
    assert_eq!(parse_largest_size("x16"), None);
}

#[test]
fn token_width_needs_exactly_one_x() {
    let cs = |s: &str| s.chars().collect::<Vec<char>>();
    assert_eq!(width_of_token(&cs("120x90")), Some(120));
    assert_eq!(width_of_token(&cs("120")), None);
    assert_eq!(width_of_token(&cs("1x2x3")), None);
    assert_eq!(width_of_token(&cs("99999999999x1")), None);
}

#[test]
fn site_base_is_the_normalized_url() {
    assert_eq!(site_base("https://Example.com"), Some("https://example.com/".to_string()));
    assert_eq!(site_base("HTTPS://web.whatsapp.com/a?b"), Some("https://web.whatsapp.com/a?b".to_string()));
    assert_eq!(site_base("not a url"), None);
}

#[test]
fn icon_url_falls_back_to_favicon_ico() {
    let site = "https://example.com/a/b?x=1#frag";
    assert_eq!(icon_url(site, "https://example.com/a/b?x=1", None), Some("https://example.com/favicon.ico".to_string()));
    assert_eq!(
        icon_url(site, "https://example.com/a/b?x=1", Some("<html></html>")),
        Some("https://example.com/favicon.ico".to_string())
    );
    let page = r#"<link rel="icon" href="i.png">"#;
    assert_eq!(
        icon_url(site, "https://example.com/a/b?x=1", Some(page)),
        Some("https://example.com/a/i.png".to_string())
    );
    assert_eq!(icon_url("::", "::", None), None);
}

#[test]
fn resolve_url_prefers_absolute_then_joined() {
    let base = "https://example.com/app/";
    assert_eq!(resolve_url(base, "https://cdn.example.org/i.png"), "https://cdn.example.org/i.png");
    assert_eq!(resolve_url(base, "HTTPS://CDN.example.org"), "https://cdn.example.org/");
    assert_eq!(resolve_url(base, "../up.png"), "https://example.com/up.png");
    assert_eq!(resolve_url(base, "/icon.png"), "https://example.com/icon.png");
    assert_eq!(resolve_url(base, "icon.png"), "https://example.com/app/icon.png");
    assert_eq!(resolve_url("not a base", "icon.png"), "icon.png");
}

#[test]
fn best_icon_prefers_apple_touch_icon() {
    let html = r#"<html><head>
        <link rel="icon" sizes="512x512" href="/big.png">
        <link rel="apple-touch-icon" href="/apple.png">
    </head></html>"#;
    assert_eq!(
        find_best_icon("https://example.com/", html),
        Some("https://example.com/apple.png".to_string())
    );
}

#[test]
fn best_icon_picks_the_widest_first_on_ties() {
    let html = r#"<html><head>
        <link rel="icon" sizes="16x16" href="/16.png">
        <link rel="icon" sizes="32x32" href="/32a.png">
        <link rel="icon" sizes="32x32" href="/32b.png">
    </head></html>"#;
    assert_eq!(
        find_best_icon("https://example.com/", html),
        Some("https://example.com/32a.png".to_string())
    );
}

#[test]
fn best_icon_falls_through_selectors_and_skips_missing_href() {
    let html = r#"<html><head>
        <link rel="apple-touch-icon">
        <link rel="shortcut icon" href="favicon.ico">
    </head></html>"#;
    assert_eq!(
        find_best_icon("https://example.com/site/", html),
        Some("https://example.com/site/favicon.ico".to_string())
    );
    assert_eq!(find_best_icon("https://example.com/", "<html></html>"), None);
}

#[test]
fn icon_bytes_that_are_no_image_are_kept() {
    let raw = b"<html>not an icon</html>".to_vec();
    assert_eq!(icon_file_bytes(&raw), Some(raw.clone()));
    assert_eq!(icon_file_bytes(&[]), Some(Vec::new()));
}

#[test]
fn icon_images_become_png_fitting_128() {
    let img = image::RgbaImage::from_pixel(256, 64, image::Rgba([10, 20, 30, 255]));
    let mut bmp = std::io::Cursor::new(Vec::new());
    image::DynamicImage::ImageRgba8(img).write_to(&mut bmp, image::ImageFormat::Bmp).unwrap();
    let bytes = bmp.into_inner();
    let out = icon_file_bytes(&bytes).unwrap();
    assert_ne!(out, bytes);
    assert_eq!(&out[..8], b"\x89PNG\r\n\x1a\n");
    let decoded = image::load_from_memory(&out).unwrap();
    assert_eq!((decoded.width(), decoded.height()), (128, 32));
}
