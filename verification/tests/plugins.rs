use ozone::plugins::{is_nro_extension, mounted_module_name, plugins_dir};

#[test]
fn plugin_directory_of_a_mount_point() {
    assert_eq!(plugins_dir("rom"), "rom:/skyline/plugins/");
    assert_eq!(plugins_dir("sd"), "sd:/skyline/plugins/");
}

#[test]
fn only_nro_files_are_plugins() {
    assert!(is_nro_extension("nro"));
    assert!(!is_nro_extension("NRO"));
    assert!(!is_nro_extension("nso"));
    assert!(!is_nro_extension("nro.bak"));
    assert!(!is_nro_extension(""));
}

#[test]
fn mounted_module_names() {
    let mut field = [0u8; 256];
    field[..6].copy_from_slice(b"plugin");
    assert_eq!(mounted_module_name(&field), Some("plugin".to_string()));
    assert_eq!(mounted_module_name(&[0u8; 4]), Some(String::new()));
    assert_eq!(mounted_module_name(b"abc"), None);
    assert_eq!(mounted_module_name(b"a\0b\0"), Some("a".to_string()));
}

#[test]
fn mounted_module_name_valid_utf8() {
    assert_eq!(mounted_module_name("ünï\0".as_bytes()), Some("ünï".to_string()));
}
