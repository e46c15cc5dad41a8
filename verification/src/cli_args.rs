//! The command-line arguments of the CLI's subcommands, as plain values.
use vstd::prelude::*;
use crate::shell::strs;

verus! {

/// `bluetooth`: one action, chosen by the first flag given.
#[derive(Debug, Clone)]
pub struct BtArgs {
    pub list: bool,
    pub scan: bool,
    pub connect: Option<String>,
    pub disconnect: Option<String>,
    pub power: Option<String>,
    pub status: bool,
    pub discoverable: Option<String>,
    pub pairable: Option<String>,
    /// Address and alias.
    pub alias: Option<Vec<String>>,
    pub pair: Option<String>,
    /// Address and `on` or `off`.
    pub trust: Option<Vec<String>>,
    pub remove: Option<String>,
}

/// `brightness`.
#[derive(Debug, Clone, Copy)]
pub struct BrightnessArgs {
    pub get: bool,
    pub set: Option<u8>,
    pub inc: Option<u8>,
    pub dec: Option<u8>,
}

/// `clipboard`.
#[derive(Debug, Clone)]
pub struct ClipArgs {
    pub get: bool,
    pub set: Option<String>,
    pub history: bool,
}

/// `daemon`.
#[derive(Debug, Clone, Copy)]
pub struct DaemonArgs {
    pub status: bool,
    pub stop: bool,
    pub restart: bool,
}

/// `disk`.
#[derive(Debug, Clone)]
pub struct DiskArgs {
    pub list: bool,
    pub mount: Option<String>,
    pub unmount: Option<String>,
    pub eject: Option<String>,
}

/// `greeter install`.
#[derive(Debug, Clone)]
pub struct GreeterInstallArgs {
    pub yes: bool,
    pub compositor: Option<String>,
    pub path: Option<String>,
    pub cache_dir: Option<String>,
}

/// `greeter enable`.
#[derive(Debug, Clone)]
pub struct GreeterEnableArgs {
    pub yes: bool,
    pub compositor: Option<String>,
    pub path: Option<String>,
    pub cache_dir: Option<String>,
}

/// `greeter sync`.
#[derive(Debug, Clone)]
pub struct GreeterSyncArgs {
    pub yes: bool,
    pub cache_dir: Option<String>,
}

/// `greeter uninstall`.
#[derive(Debug, Clone, Copy)]
pub struct GreeterUninstallArgs {
    pub yes: bool,
}

/// The `greeter` subcommands.
#[derive(Debug, Clone)]
pub enum GreeterCommand {
    Install(GreeterInstallArgs),
    Enable(GreeterEnableArgs),
    Sync(GreeterSyncArgs),
    Status,
    Uninstall(GreeterUninstallArgs),
}

/// `greeter`.
#[derive(Debug, Clone)]
pub struct GreeterArgs {
    pub command: GreeterCommand,
}

/// `network`.
#[derive(Debug, Clone)]
pub struct NetArgs {
    pub status: bool,
    pub wifi: bool,
    pub eth: bool,
    pub hotspot: bool,
    pub scan: bool,
    pub list: bool,
    pub details: bool,
    pub connect: bool,
    pub disconnect: bool,
    pub forget: bool,
    pub ssid: Option<String>,
    pub password: Option<String>,
    pub iface: Option<String>,
    pub band: Option<String>,
    pub channel: Option<u32>,
    pub backend: Option<String>,
    pub power: Option<String>,
}

/// `notify`.
#[derive(Debug, Clone)]
pub struct NotifyArgs {
    pub list: bool,
    pub dismiss: Option<u32>,
    pub title: Option<String>,
    pub body: Option<String>,
    pub urgency: Option<String>,
}

/// `power`.
#[derive(Debug, Clone, Copy)]
pub struct PowerArgs {
    pub battery: bool,
    pub status: bool,
}

/// `proc`.
#[derive(Debug, Clone)]
pub struct ProcArgs {
    pub list: bool,
    pub find: Option<String>,
    pub kill: Option<u32>,
    pub watch: Option<u32>,
    pub force: bool,
    /// `cpu`, `mem`, `pid` or `name`.
    pub sort: String,
    pub top: usize,
}

/// `sysmon`.
#[derive(Debug, Clone, Copy)]
pub struct SysmonArgs {
    pub cpu: bool,
    pub mem: bool,
    pub disk: bool,
    pub net: bool,
    pub gpu: bool,
    pub watch: bool,
}

/// `shell run`.
#[derive(Debug, Clone)]
pub struct RunArgs {
    pub config: String,
    pub daemon: bool,
    pub daemon_child: bool,
    pub args: Vec<String>,
}

/// `shell update`.
#[derive(Debug, Clone)]
pub struct UpdateArgs {
    pub pass_through: Vec<String>,
    pub dry_run: bool,
    pub json: bool,
}

/// `shell version`.
#[derive(Debug, Clone, Copy)]
pub struct VersionArgs {
    pub json: bool,
}

/// `shell ipc`.
#[derive(Debug, Clone)]
pub struct IpcArgs {
    pub args: Vec<String>,
}

/// `restart-detached`.
#[derive(Debug, Clone, Copy)]
pub struct RestartDetachedArgs {
    pub target_pid: i32,
}

/// The `shell` subcommands.
#[derive(Debug, Clone)]
pub enum ShellCommand {
    Run(RunArgs),
    Restart,
    Kill,
    Ipc(IpcArgs),
    Update(UpdateArgs),
    Version(VersionArgs),
}

/// The arguments `update` hands to the update script: `--dry-run` first
/// when asked for, then the pass-through arguments.
pub fn update_script_args(args: &UpdateArgs) -> (v: Vec<String>)
    ensures
        strs(v@) == (if args.dry_run {
            seq!["--dry-run"@]
        } else {
            Seq::<Seq<char>>::empty()
        }) + strs(args.pass_through@),
{
    let mut v: Vec<String> = Vec::new();
    if args.dry_run {
        v.push(crate::text::string_of(crate::text::chars_of("--dry-run").as_slice()));
    }
    let ghost head = strs(v@);
    let mut i: usize = 0;
    while i < args.pass_through.len()
        invariant
            0 <= i <= args.pass_through@.len(),
            strs(v@) == head + strs(args.pass_through@).subrange(0, i as int),
        decreases args.pass_through.len() - i,
    {
        let ghost before = v@;
        v.push(args.pass_through[i].clone());
        proof {
            assert(strs(v@) =~= strs(before).push(args.pass_through@[i as int]@));
            assert(strs(v@) =~= head + strs(args.pass_through@).subrange(0, i + 1));
        }
        i = i + 1;
    }
    proof {
        assert(strs(args.pass_through@).subrange(0, args.pass_through@.len() as int) =~= strs(args.pass_through@));
        assert(head =~= (if args.dry_run {
            seq!["--dry-run"@]
        } else {
            Seq::<Seq<char>>::empty()
        }));
    }
    v
}

/// The shell's server: it has nothing to start and always succeeds.
pub fn start(verbose: bool) -> (r: Result<(), String>)
    ensures
        r is Ok,
{
    Ok(())
}

} // verus!
