use radb::device::{
    emulator_ports, forward_destination, install_destination, install_result, root_result,
    shell_destination, socket_address, uninstall_command, uninstall_result, unroot_result,
};
use radb::error::{InstallResult, RootResult, UninstallResult};
use radb::server::{
    hex_length, parse_device_list, server_request, server_status, AdbServer, HexLength,
    ServerStatus, ADB_SERVER_PORT,
};
use radb::shell::AdbShellResponse;
use radb::touch::{
    drag_and_drop_command, key_command, long_press_command, path_commands, roll_command,
    swipe_command, swipe_directional_command, tap_command, text_command, KeyCode, SwipeDirection,
};

#[test]
fn touch_commands() {
    assert_eq!(tap_command(500, 1000), "input tap 500 1000");
    assert_eq!(swipe_command(1, 2, 3, 4, None), "input swipe 1 2 3 4");
    assert_eq!(swipe_command(1, 2, 3, 4, Some(300)), "input swipe 1 2 3 4 300");
    assert_eq!(long_press_command(100, 200, 1000), "input swipe 100 200 100 200 1000");
    assert_eq!(drag_and_drop_command(0, 0, 10, 20, Some(5)), "input draganddrop 0 0 10 20 5");
    assert_eq!(key_command(KeyCode::HOME), "input keyevent KEYCODE_HOME");
    assert_eq!(text_command("Hello World!"), "input text 'Hello%sWorld!'");
    assert_eq!(roll_command(-3, 4), "input roll -3 4");
    assert_eq!(roll_command(i32::MIN, 0), "input roll -2147483648 0");
}

#[test]
fn directional_swipes() {
    assert_eq!(
        swipe_directional_command(500, 1000, 400, SwipeDirection::Up, 300),
        "input swipe 500 1000 500 600 300"
    );
    assert_eq!(
        swipe_directional_command(500, 100, 400, SwipeDirection::Up, 300),
        "input swipe 500 100 500 0 300"
    );
    assert_eq!(
        swipe_directional_command(100, 100, 400, SwipeDirection::Left, 1),
        "input swipe 100 100 0 100 1"
    );
    assert_eq!(
        swipe_directional_command(100, 100, 50, SwipeDirection::Down, 1),
        "input swipe 100 100 100 150 1"
    );
    assert_eq!(
        swipe_directional_command(100, 100, 50, SwipeDirection::Right, 1),
        "input swipe 100 100 150 100 1"
    );
}

#[test]
fn path_is_a_chain_of_swipes() {
    assert!(path_commands(&[(1, 1)], 10).is_empty());
    assert_eq!(
        path_commands(&[(1, 2), (3, 4), (5, 6)], 10),
        vec!["input swipe 1 2 3 4 10".to_string(), "input swipe 3 4 5 6 10".to_string()]
    );
}

#[test]
fn device_commands_and_results() {
    assert_eq!(shell_destination("ls", true), "shell,v2,raw:ls");
    assert_eq!(shell_destination("ls", false), "shell,raw:ls");
    assert_eq!(install_destination(1234, &[]), "exec:cmd package install -S 1234");
    assert_eq!(install_destination(5, &["-r", "-g"]), "exec:cmd package install -S 5 -r -g");
    assert_eq!(install_result("Success\n".into()), InstallResult::Success);
    assert_eq!(
        install_result("Failure [X]".into()),
        InstallResult::Failure("Failure [X]".into())
    );
    assert_eq!(uninstall_command("com.example"), "cmd package uninstall com.example");
    let failed = AdbShellResponse { output: "Failure".into(), error_output: String::new(), exit_code: 1 };
    assert_eq!(
        uninstall_result(failed),
        UninstallResult::Failure { reason: "Failure".into(), exit_code: 1 }
    );
    assert_eq!(root_result("restarting adbd as root\n".into()), RootResult::Success);
    assert_eq!(root_result("adbd is already running as root\n".into()), RootResult::Success);
    assert_eq!(root_result("no".into()), RootResult::Failure("no".into()));
    assert_eq!(unroot_result("restarting adbd as non-root\n".into()), RootResult::Success);
    assert_eq!(forward_destination(8080), "tcp:8080");
    assert_eq!(socket_address("127.0.0.1", 5555), "127.0.0.1:5555");
    let ports = emulator_ports();
    assert_eq!(ports.len(), 65);
    assert_eq!(ports[0], 5555);
    assert_eq!(ports[64], 5683);
}

#[test]
fn host_server() {
    let s = AdbServer::default_local();
    assert_eq!(s.host(), "127.0.0.1");
    assert_eq!(s.port(), ADB_SERVER_PORT);
    assert_eq!(s.address(), "127.0.0.1:5037");
    assert_eq!(AdbServer::new("host", 1).address(), "host:1");
    assert_eq!(server_request("host:devices"), "000chost:devices");
    assert_eq!(server_request(&"x".repeat(0x12345)).len(), 5 + 0x12345);
    assert!(matches!(server_status(b"OKAY"), ServerStatus::Okay));
    assert!(matches!(server_status(b"FAIL"), ServerStatus::Fail));
    assert!(matches!(server_status(b"OKAx"), ServerStatus::Other));
    assert!(matches!(hex_length(b"000c"), HexLength::Value(12)));
    assert!(matches!(hex_length(b"00Ff"), HexLength::Value(255)));
    assert!(matches!(hex_length(b"+00c"), HexLength::Value(12)));
    assert!(matches!(hex_length(b"zzzz"), HexLength::NotHex));
    assert!(matches!(hex_length(b"-001"), HexLength::NotHex));
    assert!(matches!(hex_length(&[0xff, 0, 0, 0]), HexLength::NotUtf8));
}

#[test]
fn device_list_from_server_reply() {
    let output = "emulator-5554\tdevice\n\n  192.168.1.50:5555\tunauthorized \r\nno-tab-line\n";
    let devices = parse_device_list(output);
    assert_eq!(devices.len(), 2);
    assert_eq!(devices[0].serial, "emulator-5554");
    assert_eq!(devices[0].state, "device");
    assert_eq!(devices[1].serial, "192.168.1.50:5555");
    assert_eq!(devices[1].state, "unauthorized");
}
