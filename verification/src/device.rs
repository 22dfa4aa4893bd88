//! Device operations: the service destinations they open, the commands they
//! run, and how the device's answers are read.
use vstd::prelude::*;
use vstd::string::*;

use crate::constants::{MAX_EMULATOR_PORT, MIN_EMULATOR_PORT};
use crate::error::{InstallResult, RootResult, UninstallResult};
use crate::shell::AdbShellResponse;
use crate::text::{contains_seq, decimal, push_char, push_decimal, push_str, str_contains, string_of};

verus! {

/// The socket address `host:port`.
pub open spec fn spec_socket_address(host: Seq<char>, port: u16) -> Seq<char> {
    host + seq![':'] + decimal(port as nat)
}

/// The socket address `host:port`.
pub fn socket_address(host: &str, port: u16) -> (a: String)
    ensures
        a@ == spec_socket_address(host@, port),
{
    let mut a = string_of(host);
    push_char(&mut a, ':');
    push_decimal(&mut a, port as u64);
    assert(a@ =~= spec_socket_address(host@, port));
    a
}

/// The service destination that connects to TCP port `port` on the device.
pub fn forward_destination(port: u16) -> (d: String)
    ensures
        d@ == "tcp:"@ + decimal(port as nat),
{
    let mut d = string_of("tcp:");
    push_decimal(&mut d, port as u64);
    d
}

/// The ports standard emulators listen on: every other port from 5555 to 5683.
pub open spec fn is_emulator_port(p: int) -> bool {
    MIN_EMULATOR_PORT <= p <= MAX_EMULATOR_PORT && (p - MIN_EMULATOR_PORT) % 2 == 0
}

/// The ports probed when discovering emulators, in increasing order.
pub fn emulator_ports() -> (ports: Vec<u16>)
    ensures
        ports@.len() == 65,
        forall|k: int| 0 <= k < 65 ==> #[trigger] ports@[k] == MIN_EMULATOR_PORT + 2 * k,
        forall|k: int| 0 <= k < 65 ==> is_emulator_port(#[trigger] ports@[k] as int),
{
    let mut ports: Vec<u16> = Vec::new();
    let mut p: u16 = MIN_EMULATOR_PORT;
    while p <= MAX_EMULATOR_PORT
        invariant
            MIN_EMULATOR_PORT <= p <= MAX_EMULATOR_PORT + 2,
            (p - MIN_EMULATOR_PORT) % 2 == 0,
            ports@.len() == (p - MIN_EMULATOR_PORT) / 2,
            forall|k: int| 0 <= k < ports@.len() ==> #[trigger] ports@[k] == MIN_EMULATOR_PORT + 2 * k,
        decreases MAX_EMULATOR_PORT + 2 - p,
    {
        ports.push(p);
        p = p + 2;
    }
    ports
}

/// The shell service destination for `command`, in the v2 or raw v1 protocol.
pub open spec fn spec_shell_destination(command: Seq<char>, is_v2: bool) -> Seq<char> {
    if is_v2 {
        "shell,v2,raw:"@ + command
    } else {
        "shell,raw:"@ + command
    }
}

/// The shell service destination for `command`.
pub fn shell_destination(command: &str, is_v2: bool) -> (d: String)
    ensures
        d@ == spec_shell_destination(command@, is_v2),
{
    let mut d = if is_v2 {
        string_of("shell,v2,raw:")
    } else {
        string_of("shell,raw:")
    };
    push_str(&mut d, command);
    d
}

/// The items of `list` joined by `sep`.
pub open spec fn join(list: Seq<Seq<char>>, sep: Seq<char>) -> Seq<char>
    decreases list.len(),
{
    if list.len() == 0 {
        Seq::empty()
    } else if list.len() == 1 {
        list[0]
    } else {
        join(list.drop_last(), sep) + sep + list.last()
    }
}

/// The texts of a list of string slices.
pub open spec fn texts(list: Seq<&str>) -> Seq<Seq<char>> {
    list.map_values(|s: &str| s@)
}

/// The service destination that installs a package of `file_size` bytes with `options`.
pub open spec fn spec_install_destination(file_size: u64, options: Seq<Seq<char>>) -> Seq<char> {
    "exec:cmd package install -S "@ + decimal(file_size as nat) + if options.len() == 0 {
        Seq::empty()
    } else {
        seq![' '] + join(options, seq![' '])
    }
}

/// The service destination that installs a package of `file_size` bytes with `options`.
pub fn install_destination(file_size: u64, options: &[&str]) -> (d: String)
    ensures
        d@ == spec_install_destination(file_size, texts(options@)),
{
    let mut d = string_of("exec:cmd package install -S ");
    push_decimal(&mut d, file_size as u64);
    let ghost base = d@;
    let ghost opts = texts(options@);
    let mut i: usize = 0;
    while i < options.len()
        invariant
            i <= options@.len(),
            opts == texts(options@),
            d@ == base + if i == 0 {
                Seq::empty()
            } else {
                seq![' '] + join(opts.take(i as int), seq![' '])
            },
        decreases options@.len() - i,
    {
        push_char(&mut d, ' ');
        push_str(&mut d, options[i]);
        proof {
            let t = opts.take(i + 1);
            assert(t.drop_last() =~= opts.take(i as int));
            assert(t.last() == options@[i as int]@);
            if i == 0 {
                assert(t.len() == 1);
                assert(join(t, seq![' ']) == t[0]);
            }
        }
        i = i + 1;
        assert(d@ =~= base + seq![' '] + join(opts.take(i as int), seq![' ']));
    }
    assert(opts.take(options@.len() as int) =~= opts);
    assert(d@ =~= spec_install_destination(file_size, opts));
    d
}

/// How the output of `cmd package install` reads: success when it says `Success`.
pub fn install_result(output: String) -> (r: InstallResult)
    ensures
        contains_seq(output@, "Success"@) ==> r == InstallResult::Success,
        !contains_seq(output@, "Success"@) ==> r == InstallResult::Failure(output),
{
    if str_contains(output.as_str(), "Success") {
        InstallResult::Success
    } else {
        InstallResult::Failure(output)
    }
}

/// The shell command that uninstalls `package_name`.
pub fn uninstall_command(package_name: &str) -> (c: String)
    ensures
        c@ == "cmd package uninstall "@ + package_name@,
{
    let mut c = string_of("cmd package uninstall ");
    push_str(&mut c, package_name);
    c
}

/// How the response to `cmd package uninstall` reads: success when the output
/// says `Success`, otherwise a failure with the output and the exit code.
pub fn uninstall_result(response: AdbShellResponse) -> (r: UninstallResult)
    ensures
        contains_seq(response.output@, "Success"@) ==> r == UninstallResult::Success,
        !contains_seq(response.output@, "Success"@) ==> r == (UninstallResult::Failure {
            reason: response.output,
            exit_code: response.exit_code,
        }),
{
    if str_contains(response.output.as_str(), "Success") {
        UninstallResult::Success
    } else {
        UninstallResult::Failure { reason: response.output, exit_code: response.exit_code }
    }
}

/// How the answer of the `root:` service reads: success when the daemon restarts
/// as root or already runs as root.
pub fn root_result(output: String) -> (r: RootResult)
    ensures
        contains_seq(output@, "restarting adbd as root"@) || contains_seq(
            output@,
            "already running as root"@,
        ) ==> r == RootResult::Success,
        !(contains_seq(output@, "restarting adbd as root"@) || contains_seq(
            output@,
            "already running as root"@,
        )) ==> r == RootResult::Failure(output),
{
    if str_contains(output.as_str(), "restarting adbd as root") || str_contains(
        output.as_str(),
        "already running as root",
    ) {
        RootResult::Success
    } else {
        RootResult::Failure(output)
    }
}

/// How the answer of the `unroot:` service reads: success when the daemon
/// restarts as non-root.
pub fn unroot_result(output: String) -> (r: RootResult)
    ensures
        contains_seq(output@, "restarting adbd as non-root"@) ==> r == RootResult::Success,
        !contains_seq(output@, "restarting adbd as non-root"@) ==> r == RootResult::Failure(output),
{
    if str_contains(output.as_str(), "restarting adbd as non-root") {
        RootResult::Success
    } else {
        RootResult::Failure(output)
    }
}

} // verus!
