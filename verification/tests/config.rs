use plinth::config::{Config, GraphicsConfig, PowerPreference};
use plinth::geometry::{Px, ScreenPx};

#[test]
fn default_config_asks_for_low_power_and_small_buffers() {
    let config = Config::default();
    assert_eq!(config.power_preference, PowerPreference::LowPower);
    assert_eq!(config.debug_mode, None);
    assert_eq!(config.dynamic_upload_buffer_size, 1024 * 1024);
    assert_eq!(config.staging_buffer_size, 4 * 1024 * 1024);
}

#[test]
fn graphics_config_follows_the_build_where_debug_mode_is_open() {
    let mut config = Config::default();
    assert_eq!(
        config.graphics(true),
        GraphicsConfig {
            debug_mode: true,
            power_preference: PowerPreference::LowPower
        }
    );
    assert!(!config.graphics(false).debug_mode);
    config.debug_mode = Some(false);
    config.power_preference = PowerPreference::HiPower;
    assert_eq!(
        config.graphics(true),
        GraphicsConfig {
            debug_mode: false,
            power_preference: PowerPreference::HiPower
        }
    );
    assert_eq!(GraphicsConfig::default().power_preference, PowerPreference::DontCare);
    assert_eq!(Px(), Px::default());
    assert_eq!(ScreenPx(), ScreenPx::default());
}

#[test]
fn buffer_sizes_are_rounded_up_to_the_placement_alignment() {
    let mut config = Config::default();
    assert_eq!(config.buffer_sizes(), (1024 * 1024, 4 * 1024 * 1024));
    config.dynamic_upload_buffer_size = 1;
    config.staging_buffer_size = 65537;
    assert_eq!(config.buffer_sizes(), (65536, 131072));
    config.dynamic_upload_buffer_size = 0;
    assert_eq!(config.buffer_sizes().0, 0);
}
