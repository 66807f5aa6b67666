use tokio_tcpmux::mux::Config;

#[test]
fn config_default_values() {
    let c = Config::default();
    assert_eq!(c.connect_timeout(), 1);
    assert_eq!(c.accept_timeout(), 1);
    assert_eq!(c.max_buf_size(), 8096);
}

#[test]
fn config_new_keeps_values() {
    let c = Config::new(3, 4, 512);
    assert_eq!((c.connect_timeout(), c.accept_timeout(), c.max_buf_size()), (3, 4, 512));
}
