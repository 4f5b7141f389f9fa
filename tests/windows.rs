use app_base::app::{PluginLifetime, PluginState};
use app_base::shader::{Shader, ShaderRef};
use app_base::window::{
    WindowClosedEvent, WindowConfig, WindowConfigs, WindowCreatedEvent, WindowId, WindowPlugin,
    Windows,
};

fn wid(n: u64) -> WindowId {
    WindowId { id: n }
}

#[test]
fn first_window_becomes_main() {
    let mut windows: Windows<&str> = Windows::new();
    assert!(windows.is_empty());
    assert!(windows.try_get_main_window().is_none());
    windows.add_window(wid(1), "one");
    windows.add_window(wid(2), "two");
    assert_eq!(*windows.main_window(), "one");
    assert_eq!(windows.get_window(wid(2)), Some(&"two"));
    assert_eq!(windows.get_window(wid(3)), None);
}

#[test]
fn removing_main_window_forgets_main() {
    let mut windows: Windows<&str> = Windows::new();
    windows.add_window(wid(1), "one");
    windows.add_window(wid(2), "two");
    assert_eq!(windows.remove_window(wid(2)), Some("two"));
    assert_eq!(windows.try_get_main_window(), Some(&"one"));
    assert_eq!(windows.remove_window(wid(1)), Some("one"));
    assert!(windows.try_get_main_window().is_none());
    assert_eq!(windows.remove_window(wid(1)), None);
    windows.add_window(wid(5), "five");
    assert_eq!(windows.try_get_main_window(), Some(&"five"));
}

#[test]
fn clear_empties_registry() {
    let mut windows: Windows<u8> = Windows::new();
    windows.add_window(wid(1), 1);
    windows.clear();
    assert!(windows.is_empty());
    assert!(windows.try_get_main_window().is_none());
}

#[test]
fn window_configs_default_and_builder() {
    let d = WindowConfig::default();
    assert_eq!((d.title.as_str(), d.width, d.height, d.resizable, d.fullscreen), ("Window", 800, 600, true, false));
    assert!(d.window_id.is_none());
    let configs = WindowConfigs::new().add_window("a".to_string(), 1, 2).add_window("b".to_string(), 3, 4);
    assert_eq!(configs.window_configs.len(), 2);
    assert_eq!(configs.window_configs[1].title, "b");
    assert_eq!(configs.window_configs[1].width, 3);
}

#[test]
fn window_plugin_holds_its_configs() {
    let plugin = WindowPlugin::new("Test App", 800, 600);
    let configs = &plugin.configs().window_configs;
    assert_eq!(configs.len(), 1);
    assert_eq!(configs[0].title, "Test App");
    assert_eq!((configs[0].width, configs[0].height), (800, 600));
    let many = WindowPlugin::new_many(vec![WindowConfig::new("x".to_string(), 1, 1), WindowConfig::default()]);
    assert_eq!(many.configs().window_configs.len(), 2);
}

#[test]
fn window_events_carry_their_payload() {
    assert_eq!(WindowClosedEvent::new(wid(4)).window_id, wid(4));
    assert_eq!(WindowCreatedEvent::new("w").window, "w");
}

#[test]
fn shaders_keep_their_paths() {
    assert_eq!(Shader::new("a.wgsl").path, "a.wgsl");
    assert_eq!(ShaderRef::new("b.wgsl".to_string()).path, "b.wgsl");
}

#[test]
fn plugin_record_starts_in_startup_state() {
    let record = PluginLifetime::startup(7u8);
    assert_eq!(record.state(), PluginState::Startup);
    assert_eq!(record.plugin, 7);
}

#[test]
fn unconfigured_windows_are_closed() {
    let mut windows: Windows<&str> = Windows::new();
    windows.add_window(wid(1), "one");
    windows.add_window(wid(2), "two");
    let mut config = WindowConfig::new("one".to_string(), 10, 10);
    config.window_id = Some(wid(1));
    let configs = WindowConfigs { window_configs: vec![config, WindowConfig::default()] };
    assert!(configs.is_configured(wid(1)));
    assert!(!configs.is_configured(wid(2)));
    windows.retain_configured(&configs);
    assert_eq!(windows.get_window(wid(1)), Some(&"one"));
    assert_eq!(windows.get_window(wid(2)), None);
    let mut ids = windows.ids();
    ids.sort_by_key(|w| w.id);
    assert_eq!(ids, vec![wid(1)]);
}
