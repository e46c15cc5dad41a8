use crawlds::cli_args::{
    start, update_script_args, BrightnessArgs, BtArgs, ClipArgs, DiskArgs, NetArgs, NotifyArgs,
    ProcArgs, SysmonArgs, UpdateArgs,
};
use crawlds::cli_route::{
    brightness_request, bt_request, clip_request, disk_request, net_request, notify_request,
    proc_request, sysmon_method, BrightnessRequest, BtRequest, ClipRequest, DiskRequest, NetRequest,
    NotifyRequest, ProcRequest,
};
use crawlds::client::{CrawlClient, EventSubscription, JsonRpcClient};
use crawlds::process::{kill_signal, watch_outcome, KillSignal, ProcError};

fn bt() -> BtArgs {
    BtArgs {
        list: false,
        scan: false,
        connect: None,
        disconnect: None,
        power: None,
        status: false,
        discoverable: None,
        pairable: None,
        alias: None,
        pair: None,
        trust: None,
        remove: None,
    }
}

fn net() -> NetArgs {
    NetArgs {
        status: false,
        wifi: false,
        eth: false,
        hotspot: false,
        scan: false,
        list: false,
        details: false,
        connect: false,
        disconnect: false,
        forget: false,
        ssid: None,
        password: None,
        iface: None,
        band: None,
        channel: None,
        backend: None,
        power: None,
    }
}

#[test]
fn bluetooth_requests() {
    assert!(matches!(bt_request(&bt()), BtRequest::Status));
    let mut a = bt();
    a.scan = true;
    a.power = Some("on".to_string());
    assert!(matches!(bt_request(&a), BtRequest::Power { on: true }));
    let mut b = bt();
    b.trust = Some(vec!["AA:BB".to_string(), "off".to_string()]);
    assert!(matches!(bt_request(&b), BtRequest::Trust { ref address, trusted: false } if address == "AA:BB"));
    let mut c = bt();
    c.alias = Some(vec!["AA".to_string()]);
    assert!(matches!(bt_request(&c), BtRequest::AliasUsage));
    assert_eq!(bt_request(&c).method(), None);
    let mut d = bt();
    d.connect = Some("CC".to_string());
    d.remove = Some("DD".to_string());
    assert_eq!(bt_request(&d).method(), Some("BtConnect"));
}

#[test]
fn network_requests() {
    assert!(matches!(net_request(&net()), NetRequest::Interfaces));
    let mut a = net();
    a.power = Some("1".to_string());
    a.wifi = true;
    assert!(matches!(net_request(&a), NetRequest::Power { on: true }));
    let mut h = net();
    h.hotspot = true;
    h.connect = true;
    match net_request(&h) {
        NetRequest::HotspotStart { ssid, password, .. } => {
            assert_eq!(ssid, "CrawlDS-Hotspot");
            assert!(password.is_none());
        }
        _ => panic!("expected a hotspot start"),
    }
    let mut w = net();
    w.wifi = true;
    w.connect = true;
    w.scan = true;
    assert!(matches!(net_request(&w), NetRequest::WifiScan));
    let mut e = net();
    e.eth = true;
    e.details = true;
    assert_eq!(net_request(&e).method(), "NetEthDetails");
    let mut s = net();
    s.status = true;
    assert_eq!(net_request(&s).method(), "NetStatus");
}

#[test]
fn update_arguments_and_server() {
    let args = UpdateArgs { pass_through: vec!["--force".to_string()], dry_run: true, json: false };
    assert_eq!(update_script_args(&args), vec!["--dry-run".to_string(), "--force".to_string()]);
    assert!(start(true).is_ok());
}

#[test]
fn clients_remember_their_socket() {
    assert_eq!(CrawlClient::new("/run/c.sock".to_string()).socket_path(), "/run/c.sock");
    assert_eq!(JsonRpcClient::new("/j".to_string()).socket_path(), "/j");
    assert_eq!(EventSubscription::new("/e".to_string()).socket_path(), "/e");
    assert_eq!(CrawlClient::request_uri("/health"), "http://localhost/health");
}

#[test]
fn process_decisions() {
    assert_eq!(kill_signal(true), KillSignal::Kill);
    assert_eq!(kill_signal(false), KillSignal::Term);
    assert_eq!(watch_outcome(5, Some("vim".to_string())).unwrap(), "vim");
    assert!(matches!(watch_outcome(5, Some(String::new())), Err(ProcError::NotFound(5))));
    assert!(matches!(watch_outcome(6, None), Err(ProcError::NotFound(6))));
}

#[test]
fn sysmon_routes_to_cpu_unless_asked() {
    let none = SysmonArgs { cpu: false, mem: false, disk: false, net: false, gpu: false, watch: false };
    assert_eq!(sysmon_method(&none), "SysmonCpu");
    assert_eq!(sysmon_method(&SysmonArgs { mem: true, ..none }), "SysmonMem");
    assert_eq!(sysmon_method(&SysmonArgs { disk: true, net: true, ..none }), "SysmonDisk");
    assert_eq!(sysmon_method(&SysmonArgs { net: true, ..none }), "SysmonNet");
    assert_eq!(sysmon_method(&SysmonArgs { gpu: true, ..none }), "SysmonGpu");
    assert_eq!(sysmon_method(&SysmonArgs { cpu: true, gpu: true, ..none }), "SysmonCpu");
}

#[test]
fn brightness_routes() {
    let a = BrightnessArgs { get: false, set: Some(40), inc: Some(5), dec: None };
    let r = brightness_request(&a);
    assert_eq!(r, BrightnessRequest::SetTo(40));
    assert_eq!(r.method(), "BrightnessSet");
    let r = brightness_request(&BrightnessArgs { get: false, set: None, inc: None, dec: Some(3) });
    assert_eq!(r, BrightnessRequest::Dec(3));
    assert_eq!(r.method(), "BrightnessDec");
    let r = brightness_request(&BrightnessArgs { get: true, set: None, inc: None, dec: None });
    assert_eq!(r.method(), "BrightnessGet");
}

#[test]
fn proc_routes() {
    let base = ProcArgs { list: false, find: None, kill: None, watch: None, force: false, sort: "mem".to_string(), top: 5 };
    let r = proc_request(&ProcArgs { kill: Some(9), force: true, find: Some("x".to_string()), ..base.clone() });
    assert!(matches!(r, ProcRequest::Kill { pid: 9, force: true }));
    assert_eq!(r.method(), "ProcKill");
    let r = proc_request(&ProcArgs { watch: Some(3), kill: Some(9), ..base.clone() });
    assert!(matches!(r, ProcRequest::Watch(3)));
    let r = proc_request(&ProcArgs { find: Some("fire".to_string()), ..base.clone() });
    assert!(matches!(r, ProcRequest::Find(ref n) if n == "fire"));
    let r = proc_request(&base);
    assert!(matches!(r, ProcRequest::List { ref sort, top: 5 } if sort == "mem"));
    assert_eq!(r.method(), "ProcList");
}

#[test]
fn disk_routes() {
    let base = DiskArgs { list: false, mount: None, unmount: None, eject: None };
    let r = disk_request(&DiskArgs { unmount: Some("/dev/sdb1".to_string()), eject: Some("/dev/sdc".to_string()), ..base.clone() });
    assert!(matches!(r, DiskRequest::Unmount(ref d) if d == "/dev/sdb1"));
    assert_eq!(r.method(), "DiskUnmount");
    assert_eq!(disk_request(&base).method(), "DiskList");
}

#[test]
fn notify_routes() {
    let base = NotifyArgs { list: false, dismiss: None, title: None, body: None, urgency: None };
    let r = notify_request(&NotifyArgs { title: Some("Hi".to_string()), ..base.clone() });
    match r {
        NotifyRequest::Send { ref title, ref body, ref urgency } => {
            assert_eq!(title, "Hi");
            assert_eq!(body, "");
            assert_eq!(urgency, "normal");
        }
        _ => panic!("expected a notification to send"),
    }
    assert_eq!(r.method(), "NotifySend");
    let r = notify_request(&NotifyArgs { dismiss: Some(4), title: Some("Hi".to_string()), ..base.clone() });
    assert!(matches!(r, NotifyRequest::Dismiss(4)));
    assert_eq!(notify_request(&base).method(), "NotifyList");
}

#[test]
fn clipboard_routes() {
    let r = clip_request(&ClipArgs { get: false, set: Some("text".to_string()), history: true });
    assert!(matches!(r, ClipRequest::Replace(ref t) if t == "text"));
    assert_eq!(r.method(), "ClipSet");
    assert_eq!(clip_request(&ClipArgs { get: false, set: None, history: true }).method(), "ClipHistory");
    assert_eq!(clip_request(&ClipArgs { get: true, set: None, history: false }).method(), "ClipGet");
}
