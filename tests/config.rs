use overlay_widget::config::{Anchor, KeyboardInteractivity, Layer, SurfaceConfig};
use overlay_widget::margin::Margin;

#[test]
fn surface_config_defaults() {
    let c = SurfaceConfig::new(300, 100);
    assert_eq!(c.width, 300);
    assert_eq!(c.height, 100);
    assert_eq!(c.layer, Layer::Background);
    assert_eq!(c.anchor, Anchor::empty());
    assert_eq!(c.exclusive_edge, Anchor::empty());
    assert_eq!(c.exclusive_zone, 0);
    assert_eq!(c.margin, Margin::new());
    assert_eq!(c.kb_interactivity, KeyboardInteractivity::NoFocus);
}

#[test]
fn surface_config_builders() {
    let top = Anchor { top: true, ..Anchor::empty() };
    let c = SurfaceConfig::new(300, 300)
        .layer(Layer::Overlay)
        .anchor(top)
        .exclusive_edge(top)
        .exclusive_zone(1)
        .margin(Margin::new().left(5))
        .kb_interactivity(KeyboardInteractivity::OnDemand);
    assert_eq!(c.layer, Layer::Overlay);
    assert_eq!(c.anchor, top);
    assert_eq!(c.exclusive_edge, top);
    assert_eq!(c.exclusive_zone, 1);
    assert_eq!(c.margin.left, 5);
    assert_eq!(c.kb_interactivity, KeyboardInteractivity::OnDemand);
    assert_eq!(c.width, 300);
}

#[test]
fn buffer_len_and_limit() {
    assert_eq!(SurfaceConfig::new(300, 100).buffer_len(), Some(120_000));
    assert_eq!(SurfaceConfig::new(0, 100).buffer_len(), Some(0));
    assert_eq!(SurfaceConfig::new(65536, 65536).buffer_len(), None);
    assert_eq!(SurfaceConfig::new(u32::MAX, u32::MAX).buffer_len(), None);
    // 2^29 - 1 pixels of 4 bytes fit; 2^29 do not
    assert_eq!(SurfaceConfig::new(536_870_911, 1).buffer_len(), Some(2_147_483_644));
    assert_eq!(SurfaceConfig::new(536_870_912, 1).buffer_len(), None);
}

#[test]
fn create_buffer_sizes() {
    let b = SurfaceConfig::new(4, 3).create_buffer().unwrap();
    assert_eq!((b.width(), b.height(), b.bytes().len()), (4, 3, 48));
    assert!(SurfaceConfig::new(100_000, 100_000).create_buffer().is_none());
}
