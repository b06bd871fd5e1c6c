use sea_lantern::text::decimal_text;

#[test]
fn decimal_rendering() {
    assert_eq!(decimal_text(0), "0");
    assert_eq!(decimal_text(7), "7");
    assert_eq!(decimal_text(2048), "2048");
    assert_eq!(decimal_text(100), "100");
    assert_eq!(decimal_text(u32::MAX), "4294967295");
}

#[test]
fn creating_on_an_empty_registry_succeeds() {
    let mut m: sea_lantern::manager::ServerManager<u32> = sea_lantern::manager::ServerManager::new(Vec::new());
    let req = sea_lantern::server::CreateServerRequest {
        name: "a".to_string(),
        core_type: "vanilla".to_string(),
        mc_version: "1.20".to_string(),
        max_memory: 2048,
        min_memory: 512,
        port: 25565,
        java_path: "java".to_string(),
        jar_path: "/srv/a/server.jar".to_string(),
    };
    match m.create_server(req) {
        Ok(s) => {
            assert_eq!((s.path.as_str(), s.max_memory, s.min_memory), ("/srv/a", 2048, 512));
            assert!(s.last_started_at.is_none());
        }
        Err(_) => panic!("creation on an empty registry failed"),
    }
}
