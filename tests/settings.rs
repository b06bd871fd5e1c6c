use sea_lantern::settings::{
    default_bg_blur, default_bg_size, default_console_font, default_launch_settings, default_log_lines,
    default_max_memory, default_min_memory, default_port, default_true, default_window_height,
    default_window_width,
};

#[test]
fn defaults() {
    assert!(default_true());
    assert_eq!(default_max_memory(), 2048);
    assert_eq!(default_min_memory(), 512);
    assert_eq!(default_port(), 25565);
    assert_eq!(default_console_font(), 13);
    assert_eq!(default_log_lines(), 5000);
    assert_eq!(default_bg_blur(), 0);
    assert_eq!(default_bg_size(), "cover");
    assert_eq!((default_window_width(), default_window_height()), (1200, 720));
    let l = default_launch_settings();
    assert!(l.auto_accept_eula && l.default_jvm_args.is_empty() && l.max_log_lines == 5000);
}
