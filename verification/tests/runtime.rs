use yundrone_ble::runtime::{
    app_bundle_root, build_relaunch_command, prepare_cli_runtime, relaunch_output_file_name,
    relaunch_output_path, AppRuntime,
    RelaunchCommand, RuntimeLaunchOutcome, RuntimeMode,
};

#[test]
fn gui_relaunch_uses_open_without_cli_args() {
    let command = build_relaunch_command(
        RuntimeMode::Gui,
        "/tmp/yundrone-ble-client.app",
        &[],
        "/tmp/out.log".to_string(),
        "/tmp/err.log".to_string(),
    );

    assert_eq!(
        command,
        RelaunchCommand {
            program: "/usr/bin/open".to_string(),
            args: vec!["-n".to_string(), "/tmp/yundrone-ble-client.app".to_string()],
            replay_stdout: None,
            replay_stderr: None,
        }
    );
}

#[test]
fn cli_relaunch_passes_through_original_args() {
    let stdout_path = relaunch_output_path("/tmp", 42, 7, "stdout");
    let stderr_path = relaunch_output_path("/tmp", 42, 7, "stderr");
    let command = build_relaunch_command(
        RuntimeMode::Cli,
        "/tmp/yundrone-ble-client.app",
        &["--target".to_string(), "Yundrone_UAV".to_string()],
        stdout_path,
        stderr_path,
    );

    assert_eq!(command.program, "/usr/bin/open");
    assert_eq!(command.args[0], "-n");
    assert_eq!(command.args[1], "-W");
    assert_eq!(command.args[2], "-o");
    assert!(command.args[3].contains("yundrone-cli-"));
    assert_eq!(command.args[4], "--stderr");
    assert!(command.args[5].contains("yundrone-cli-"));
    assert_eq!(command.args[6], "/tmp/yundrone-ble-client.app");
    assert_eq!(command.args[7], "--args");
    assert_eq!(command.args[8], "--target");
    assert_eq!(command.args[9], "Yundrone_UAV");
    assert!(command.replay_stdout.is_some());
    assert!(command.replay_stderr.is_some());
}

#[test]
fn derives_bundle_root_next_to_debug_executable() {
    let bundle_root = app_bundle_root("/tmp/target/debug/gui", "yundrone-ble-client.app").unwrap();

    assert_eq!(bundle_root, "/tmp/target/debug/yundrone-ble-client.app");
}

#[test]
fn relaunch_file_names_carry_process_time_and_stream() {
    assert_eq!(relaunch_output_file_name(12, 345, "stderr"), "yundrone-cli-12-345-stderr.log");
}

#[test]
fn relaunch_output_paths_lie_in_the_temporary_directory() {
    assert_eq!(relaunch_output_path("/tmp", 42, 7, "stdout"), "/tmp/yundrone-cli-42-7-stdout.log");
    assert_eq!(relaunch_output_path("/var/tmp/", 1, 2, "stderr"), "/var/tmp/yundrone-cli-1-2-stderr.log");
}

#[test]
fn cli_relaunch_without_args_has_no_args_marker() {
    let command = build_relaunch_command(RuntimeMode::Cli, "/b.app", &[], "o".to_string(), "e".to_string());
    assert_eq!(command.args, vec!["-n", "-W", "-o", "o", "--stderr", "e", "/b.app"]);
}

#[test]
fn executables_without_parent_have_no_bundle_root() {
    assert_eq!(app_bundle_root("/", "x.app").unwrap_err(), "missing parent directory for /");
}

#[test]
fn other_platforms_run_in_place() {
    let app = AppRuntime { bundle_name: "x.app", executable_name: "x", info_plist: b"" };
    assert_eq!(prepare_cli_runtime(&app, &[]), Ok(RuntimeLaunchOutcome::Continue));
}
