use http_server::settings::ServerSettings;

#[test]
fn default_settings() {
    let settings = ServerSettings::create_default();
    assert_eq!(settings.root_dir, "");
    assert_eq!(settings.port, 4221);
    assert_eq!(settings.threads_count, 4);
    assert_eq!(settings.get_addr(), "127.0.0.1:4221");
}

#[test]
fn settings_from_directory_flag() {
    let args = vec![
        String::from("server"),
        String::from("--directory"),
        String::from("/tmp/files"),
    ];
    let settings = ServerSettings::try_read_settings(&args).unwrap();
    assert_eq!(settings.root_dir, "/tmp/files");
    assert_eq!(settings.port, 4221);
    assert_eq!(settings.threads_count, 4);
}

#[test]
fn settings_without_flag_are_absent() {
    assert!(ServerSettings::try_read_settings(&vec![String::from("server")]).is_none());
    assert!(ServerSettings::try_read_settings(&vec![
        String::from("server"),
        String::from("--port"),
        String::from("80"),
    ])
    .is_none());
    assert!(ServerSettings::try_read_settings(&vec![
        String::from("server"),
        String::from("--directory"),
    ])
    .is_none());
}

#[test]
fn get_addr_renders_octets() {
    let mut settings = ServerSettings::create_default();
    settings.host_addr.octet1 = 10;
    settings.host_addr.octet2 = 0;
    settings.host_addr.octet3 = 200;
    settings.host_addr.octet4 = 7;
    settings.port = 80;
    assert_eq!(settings.get_addr(), "10.0.200.7:80");
}
