use sea_lantern::manager::{ServerManager, StopStep, STOP_POLL_LIMIT};
use sea_lantern::server::{
    CreateServerRequest, ImportServerRequest, LaunchSettings, Liveness, ServerError, ServerStatus,
};

fn request(jar: &str) -> CreateServerRequest {
    CreateServerRequest {
        name: "Survival".to_string(),
        core_type: "paper".to_string(),
        mc_version: "1.21".to_string(),
        max_memory: 2048,
        min_memory: 512,
        port: 25565,
        java_path: "/usr/bin/java".to_string(),
        jar_path: jar.to_string(),
    }
}

fn settings(args: &str) -> LaunchSettings {
    LaunchSettings { auto_accept_eula: true, default_jvm_args: args.to_string(), max_log_lines: 100 }
}

fn manager_with_server() -> (ServerManager<u32>, String) {
    let mut m: ServerManager<u32> = ServerManager::new(Vec::new());
    let s = match m.create_server(request("/srv/a/server.jar")) {
        Ok(s) => s,
        Err(_) => panic!("create failed"),
    };
    (m, s.id)
}

#[test]
fn end_to_end_create_start_command_stop() {
    let mut m: ServerManager<u32> = ServerManager::new(Vec::new());
    let s = match m.create_server(request("/srv/a/server.jar")) {
        Ok(s) => s,
        Err(_) => panic!("create failed"),
    };
    assert_eq!(s.path, "/srv/a");
    assert_eq!(s.id.len(), 36);
    assert!(s.created_at > 0);
    assert_eq!(s.last_started_at, None);
    let id = s.id.clone();

    let plan = match m.start_server(&id, Liveness::Exited, &settings("")) {
        Ok(p) => p,
        Err(_) => panic!("start refused"),
    };
    assert_eq!(plan.program, "/usr/bin/java");
    assert_eq!(plan.args, vec!["-Xmx2048M", "-Xms512M", "-jar", "/srv/a/server.jar", "nogui"]);
    assert_eq!(plan.working_dir, "/srv/a");
    assert_eq!(plan.eula.as_deref(), Some("# Auto-accepted by Sea Lantern\neula=true\n"));

    assert!(m.record_started(&id, 7, 1_700_000_000).is_ok());
    assert!(m.is_tracked(&id));
    assert_eq!(m.get_server_list()[0].last_started_at, Some(1_700_000_000));
    assert_eq!(m.get_logs(&id, 0), vec!["[Sea Lantern] Server starting..."]);

    match m.send_command(&id, "say hi") {
        Ok(line) => assert_eq!(line, "say hi\n"),
        Err(_) => panic!("command refused"),
    }

    match m.stop_server(&id, Liveness::Alive) {
        StopStep::SendStop(c) => assert_eq!(c, "stop"),
        _ => panic!("expected the stop command"),
    }
    assert!(matches!(m.stop_poll(&id, 0, Liveness::Alive), StopStep::Wait));
    assert!(matches!(m.stop_poll(&id, 1, Liveness::Exited), StopStep::Done));
    assert!(!m.is_tracked(&id));
    assert_eq!(
        m.get_logs(&id, 1),
        vec!["[Sea Lantern] Sending stop command...", "[Sea Lantern] Server stopped gracefully"]
    );
}

#[test]
fn launch_arguments_include_global_and_own_arguments() {
    let (mut m, id) = manager_with_server();
    let plan = match m.start_server(&id, Liveness::Exited, &settings("  -XX:+UseG1GC\t-Dfoo=1 ")) {
        Ok(p) => p,
        Err(_) => panic!("start refused"),
    };
    assert_eq!(
        plan.args,
        vec!["-Xmx2048M", "-Xms512M", "-XX:+UseG1GC", "-Dfoo=1", "-jar", "/srv/a/server.jar", "nogui"]
    );
    let no_eula = LaunchSettings { auto_accept_eula: false, default_jvm_args: String::new(), max_log_lines: 10 };
    match m.start_server(&id, Liveness::Exited, &no_eula) {
        Ok(p) => assert!(p.eula.is_none()),
        Err(_) => panic!("start refused"),
    }
}

#[test]
fn jar_without_directory_runs_in_current_directory() {
    let mut m: ServerManager<u32> = ServerManager::new(Vec::new());
    let s = match m.create_server(request("/")) {
        Ok(s) => s,
        Err(_) => panic!("create failed"),
    };
    assert_eq!(s.path, ".");
}

#[test]
fn starting_twice_is_refused_until_the_process_exits() {
    let (mut m, id) = manager_with_server();
    assert!(m.start_server(&id, Liveness::Alive, &settings("")).is_ok());
    assert!(m.record_started(&id, 1, 10).is_ok());
    assert!(matches!(m.start_server(&id, Liveness::Alive, &settings("")), Err(ServerError::AlreadyRunning)));
    assert!(m.is_tracked(&id));
    assert!(m.start_server(&id, Liveness::Exited, &settings("")).is_ok());
    assert!(!m.is_tracked(&id));
    assert!(m.record_started(&id, 2, 20).is_ok());
    assert!(matches!(m.record_started(&id, 3, 30), Err(3)));
}

#[test]
fn unknown_server_is_not_found() {
    let (mut m, _) = manager_with_server();
    assert!(matches!(m.start_server("nope", Liveness::Alive, &settings("")), Err(ServerError::NotFound)));
    assert!(matches!(m.record_started("nope", 5, 1), Err(5)));
    assert!(m.get_logs("nope", 0).is_empty());
}

#[test]
fn stopping_a_server_that_never_started_changes_nothing() {
    let (mut m, id) = manager_with_server();
    let before = m.get_server_list().len();
    for _ in 0..2 {
        assert!(matches!(m.stop_server(&id, Liveness::Alive), StopStep::Done));
        assert!(!m.is_tracked(&id));
        assert_eq!(m.get_server_list().len(), before);
    }
    assert_eq!(m.get_logs(&id, 0), vec!["[Sea Lantern] Server is not running", "[Sea Lantern] Server is not running"]);
}

#[test]
fn a_process_that_ignores_stop_is_killed_at_the_poll_limit() {
    let (mut m, id) = manager_with_server();
    assert!(m.start_server(&id, Liveness::Alive, &settings("")).is_ok());
    assert!(m.record_started(&id, 42, 1).is_ok());
    assert!(matches!(m.stop_server(&id, Liveness::Alive), StopStep::SendStop(_)));
    let mut polls = 0;
    let mut killed = None;
    for attempt in 0..STOP_POLL_LIMIT {
        polls += 1;
        match m.stop_poll(&id, attempt, Liveness::Alive) {
            StopStep::Wait => {}
            StopStep::Kill(h) => {
                killed = Some(h);
                break;
            }
            _ => panic!("unexpected step"),
        }
    }
    assert_eq!(polls, 20);
    assert_eq!(killed, Some(42));
    assert!(!m.is_tracked(&id));
    assert_eq!(m.get_logs(&id, 2), vec!["[Sea Lantern] Server force-killed after timeout"]);
}

#[test]
fn stop_of_a_process_that_already_exited_drops_its_handle() {
    let (mut m, id) = manager_with_server();
    assert!(m.record_started(&id, 9, 1).is_ok());
    assert!(matches!(m.stop_server(&id, Liveness::Exited), StopStep::Done));
    assert!(!m.is_tracked(&id));
    assert!(matches!(m.stop_poll(&id, 0, Liveness::Alive), StopStep::Done));
}

#[test]
fn deleting_a_running_server_leaves_nothing_behind() {
    let (mut m, id) = manager_with_server();
    assert!(m.record_started(&id, 5, 1).is_ok());
    assert!(matches!(m.stop_server(&id, Liveness::Alive), StopStep::SendStop(_)));
    assert!(matches!(m.stop_poll(&id, 0, Liveness::Exited), StopStep::Done));
    assert_eq!(m.delete_server(&id), None);
    assert!(m.get_server_list().is_empty());
    assert!(!m.is_tracked(&id));
    assert!(m.get_logs(&id, 0).is_empty());
    assert_eq!(m.get_server_status(&id, Liveness::Alive).status, ServerStatus::Stopped);
    assert!(m.running_ids().is_empty());
}

#[test]
fn deleting_hands_back_a_handle_left_behind() {
    let (mut m, id) = manager_with_server();
    assert!(m.record_started(&id, 11, 1).is_ok());
    assert_eq!(m.delete_server(&id), Some(11));
    assert!(m.get_server_list().is_empty());
}

#[test]
fn status_follows_the_poll_and_purges_stale_handles() {
    let (mut m, id) = manager_with_server();
    assert_eq!(m.get_server_status(&id, Liveness::Alive).status, ServerStatus::Stopped);
    assert!(m.record_started(&id, 3, 1).is_ok());
    let st = m.get_server_status(&id, Liveness::Alive);
    assert_eq!(st.status, ServerStatus::Running);
    assert_eq!(st.id, id);
    assert!(st.pid.is_none() && st.uptime.is_none());
    assert_eq!(m.running_ids(), vec![id.clone()]);
    assert_eq!(m.get_server_status(&id, Liveness::Exited).status, ServerStatus::Stopped);
    assert!(!m.is_tracked(&id));
}

#[test]
fn commands_need_a_running_process() {
    let (m, id) = manager_with_server();
    assert!(matches!(m.send_command(&id, "list"), Err(ServerError::NotRunning)));
}

#[test]
fn process_output_is_logged_within_the_limit() {
    let (mut m, id) = manager_with_server();
    assert!(m.start_server(&id, Liveness::Exited, &LaunchSettings {
        auto_accept_eula: false,
        default_jvm_args: String::new(),
        max_log_lines: 3,
    })
    .is_ok());
    assert!(m.record_started(&id, 1, 1).is_ok());
    m.append_output(&id, "a".to_string(), false);
    m.append_output(&id, "b".to_string(), true);
    m.append_output(&id, "c".to_string(), false);
    assert_eq!(m.get_logs(&id, 0), vec!["a", "[STDERR] b", "c"]);
    m.append_output(&id, "d".to_string(), false);
    assert_eq!(m.get_logs(&id, 0), vec!["[STDERR] b", "c", "d"]);
    assert_eq!(m.get_logs(&id, 2), vec!["d"]);
    m.append_output("gone", "x".to_string(), false);
    assert!(m.get_logs("gone", 0).is_empty());
}

#[test]
fn process_handle_can_be_reached_while_tracked() {
    let (mut m, id) = manager_with_server();
    assert!(m.process_mut(&id).is_none());
    assert!(m.record_started(&id, 8, 1).is_ok());
    if let Some(h) = m.process_mut(&id) {
        *h = 80;
    }
    assert_eq!(m.delete_server(&id), Some(80));
}

#[test]
fn duplicate_ids_are_refused() {
    let (mut m, id) = manager_with_server();
    assert!(matches!(m.add_server(request("/x/y.jar"), id.clone(), 5), Err(ServerError::DuplicateId)));
    assert_eq!(m.get_server_list().len(), 1);
    match m.add_server(request("/x/y.jar"), "fixed".to_string(), 5) {
        Ok(s) => {
            assert_eq!(s.id, "fixed");
            assert_eq!(s.created_at, 5);
            assert_eq!(s.path, "/x");
            assert_eq!(s.core_version, "");
        }
        Err(_) => panic!("add refused"),
    }
}

#[test]
fn import_needs_an_existing_jar() {
    let mut m: ServerManager<u32> = ServerManager::new(Vec::new());
    let req = ImportServerRequest {
        name: "Old".to_string(),
        jar_path: "/srv/old/server.jar".to_string(),
        java_path: "java".to_string(),
        max_memory: 1024,
        min_memory: 256,
    };
    match m.import_server(req, false) {
        Err(ServerError::JarNotFound(p)) => assert_eq!(p, "/srv/old/server.jar"),
        _ => panic!("expected JarNotFound"),
    }
    let req = ImportServerRequest {
        name: "Old".to_string(),
        jar_path: "/srv/old/server.jar".to_string(),
        java_path: "java".to_string(),
        max_memory: 1024,
        min_memory: 256,
    };
    match m.import_server(req, true) {
        Ok(s) => {
            assert_eq!(s.core_type, "unknown");
            assert_eq!(s.mc_version, "unknown");
            assert_eq!(s.port, 25565);
            assert_eq!(s.path, "/srv/old");
        }
        Err(_) => panic!("import refused"),
    }
}

#[test]
fn loading_skips_repeated_ids() {
    let (m, _) = manager_with_server();
    let mut list = m.get_server_list();
    let copy = list[0].clone();
    list.push(copy);
    let loaded: ServerManager<u32> = ServerManager::new(list);
    assert_eq!(loaded.get_server_list().len(), 1);
    assert!(loaded.running_ids().is_empty());
}

#[test]
fn error_messages() {
    assert_eq!(ServerError::NotFound.message(), "Server not found");
    assert_eq!(ServerError::AlreadyRunning.message(), "Server is already running");
    assert_eq!(ServerError::NotRunning.message(), "Server is not running");
    assert_eq!(ServerError::CommandFailed("broken pipe".to_string()).message(), "Failed: broken pipe");
    assert_eq!(ServerError::SpawnFailed("no java".to_string()).message(), "Failed to start: no java");
    assert_eq!(ServerError::JarNotFound("/a.jar".to_string()).message(), "JAR file not found: /a.jar");
    assert_eq!(ServerError::DuplicateId.message(), "Server id already in use");
}
