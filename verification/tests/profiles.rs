use epub_image_embedder::device_profiles::DeviceProfile;

#[test]
fn profile_widths() {
    assert_eq!(DeviceProfile::KindlePaperwhite2024.max_width(), 1264);
    assert_eq!(DeviceProfile::Remarkable2.max_width(), 1404);
    assert_eq!(DeviceProfile::default().max_width(), 1264);
}

#[test]
fn profiles_are_grey() {
    assert!(DeviceProfile::KindlePaperwhite2024.is_grayscale());
    assert!(DeviceProfile::Remarkable2.is_grayscale());
}
