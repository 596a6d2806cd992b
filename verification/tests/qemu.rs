use imgbuild::config::ConfigFile;
use imgbuild::config::ImageConfig;
use imgbuild::config::ImageFormat;
use imgbuild::disk::DiskManager;
use imgbuild::error::BuildError;
use imgbuild::error::Failure;
use imgbuild::paths::PathManager;
use imgbuild::qemu::daemon_joined;
use imgbuild::qemu::decimal;
use imgbuild::qemu::greeting_step;
use imgbuild::qemu::image_created;
use imgbuild::qemu::reply_step;
use imgbuild::qemu::signed_decimal;
use imgbuild::qemu::DiskAction;
use imgbuild::qemu::QCow2;
use imgbuild::qemu::QmpCommand;
use imgbuild::qemu::ReadOutcome;
use imgbuild::qemu::ReplyStep;
use imgbuild::reporter::ReportMode;
use imgbuild::reporter::StatusUpdate;

fn strings(items: &[&str]) -> Vec<String> {
    items.iter().map(|i| i.to_string()).collect()
}

fn daemon_arguments() -> Vec<String> {
    strings(&[
        "--blockdev",
        "node-name=prot-node,driver=file,filename=/b/os.qcow2",
        "--blockdev",
        "node-name=fmt-node,driver=qcow2,file=prot-node",
        "--chardev",
        "socket,path=/b/qemu-monitor.sock,id=qemu-monitor",
        "--monitor",
        "chardev=qemu-monitor",
        "--export",
        "type=fuse,id=exp0,node-name=fmt-node,mountpoint=/b/os.qcow2,writable=on",
    ])
}

#[test]
fn numbers_are_written_in_decimal() {
    assert_eq!(decimal(0), "0");
    assert_eq!(decimal(7), "7");
    assert_eq!(decimal(10), "10");
    assert_eq!(decimal(1234567890), "1234567890");
    assert_eq!(decimal(u64::MAX), "18446744073709551615");
    for n in [0u64, 9, 99, 100, 101, 65536, 999999999999] {
        assert_eq!(decimal(n), n.to_string());
    }
}

#[test]
fn negative_numbers_get_a_minus_sign() {
    assert_eq!(signed_decimal(0), "0");
    assert_eq!(signed_decimal(64), "64");
    assert_eq!(signed_decimal(-5), "-5");
    assert_eq!(signed_decimal(i64::MIN), "-9223372036854775808");
    assert_eq!(signed_decimal(i64::MAX), "9223372036854775807");
}

#[test]
fn the_image_is_created_by_qemu_img() {
    let (disk, actions) = QCow2::create_disk("/b/os.qcow2".to_string(), 64, ImageFormat::QCow2);
    assert_eq!(
        actions,
        vec![DiskAction::CreateImage { args: strings(&["create", "-f", "qcow2", "/b/os.qcow2", "64M"]) }]
    );
    assert_eq!(disk.backing(), "/b/os.qcow2");
    let (_, actions) = QCow2::create_disk("img".to_string(), 2048, ImageFormat::Raw);
    assert_eq!(actions, vec![DiskAction::CreateImage { args: strings(&["create", "-f", "raw", "img", "2048M"]) }]);
}

#[test]
fn the_control_socket_lies_beside_the_image() {
    let (disk, _) = QCow2::create_disk("/b/os.qcow2".to_string(), 64, ImageFormat::QCow2);
    assert_eq!(disk.monitor(), "/b/qemu-monitor.sock");
    let (disk, _) = QCow2::create_disk("os.qcow2".to_string(), 64, ImageFormat::QCow2);
    assert_eq!(disk.monitor(), "qemu-monitor.sock");
    let (disk, _) = QCow2::create_disk("/".to_string(), 64, ImageFormat::QCow2);
    assert_eq!(disk.monitor(), "/qemu-monitor.sock");
}

#[test]
fn the_daemon_exports_the_image_and_offers_a_monitor() {
    let (disk, _) = QCow2::create_disk("/b/os.qcow2".to_string(), 64, ImageFormat::QCow2);
    assert_eq!(disk.daemon_args(), daemon_arguments());
}

#[test]
fn mounting_starts_the_daemon_and_negotiates() {
    let (mut disk, _) = QCow2::create_disk("/b/os.qcow2".to_string(), 64, ImageFormat::QCow2);
    assert_eq!(
        disk.mount(),
        vec![
            DiskAction::RemoveStaleSocket { path: "/b/qemu-monitor.sock".to_string() },
            DiskAction::Listen { path: "/b/qemu-monitor.sock".to_string() },
            DiskAction::SpawnDaemon { args: daemon_arguments() },
            DiskAction::AwaitGreeting,
            DiskAction::Exchange(QmpCommand::Capabilities),
        ]
    );
}

#[test]
fn unmounting_quits_the_daemon_if_it_runs() {
    let (mut disk, _) = QCow2::create_disk("/b/os.qcow2".to_string(), 64, ImageFormat::QCow2);
    assert_eq!(disk.unmount(), vec![]);
    disk.mount();
    assert_eq!(
        disk.unmount(),
        vec![
            DiskAction::Exchange(QmpCommand::Quit),
            DiskAction::JoinDaemon,
            DiskAction::RemoveSocket { path: "/b/qemu-monitor.sock".to_string() },
        ]
    );
    assert_eq!(disk.unmount(), vec![]);
}

#[test]
fn the_backend_follows_the_image_format() {
    let image = ImageConfig {
        label: "os".to_string(),
        description: None,
        size: 32,
        format: ImageFormat::QCow2,
        partitions: vec![],
    };
    let config = ConfigFile {
        name: "Os".to_string(),
        description: None,
        requires: vec![],
        image: image.clone(),
        components: vec![],
    };
    let paths = PathManager::new(&config, Some("/b".to_string()), "/");
    let (mut disk, actions) = DiskManager::create_disk(&image, &paths).unwrap();
    assert!(matches!(disk, DiskManager::QCow2(_)));
    assert_eq!(
        actions,
        vec![DiskAction::CreateImage { args: strings(&["create", "-f", "qcow2", "/b/os.qcow2", "32M"]) }]
    );
    assert_eq!(disk.backing(), "/b/os.qcow2");
    assert_eq!(disk.mount().len(), 5);
    assert_eq!(disk.unmount().len(), 3);
    let (disk, _) = DiskManager::create_disk(&ImageConfig { format: ImageFormat::Raw, ..image }, &paths).unwrap();
    assert!(matches!(disk, DiskManager::Raw(_)));
}

#[test]
fn commands_are_known_by_name() {
    assert_eq!(QmpCommand::Capabilities.execute(), "qmp_capabilities");
    assert_eq!(QmpCommand::Quit.execute(), "quit");
    assert!(QmpCommand::Capabilities.has_arguments());
    assert!(!QmpCommand::Quit.has_arguments());
}

#[test]
fn any_payload_is_a_greeting() {
    assert_eq!(greeting_step(ReadOutcome::Bytes(1)), ReplyStep::Accepted);
    assert_eq!(greeting_step(ReadOutcome::Bytes(1024)), ReplyStep::Accepted);
}

#[test]
fn an_empty_read_means_that_the_daemon_hung_up() {
    let hung_up = ReplyStep::Rejected(Failure::Build(BuildError::QmpQuitWrite0));
    assert_eq!(greeting_step(ReadOutcome::Bytes(0)), hung_up);
    assert_eq!(reply_step(ReadOutcome::Bytes(0)), hung_up);
}

#[test]
fn a_failed_read_is_surfaced() {
    assert_eq!(
        greeting_step(ReadOutcome::Failed { errno: 104, would_block: false }),
        ReplyStep::Rejected(Failure::Io(104))
    );
    assert_eq!(
        greeting_step(ReadOutcome::Failed { errno: 11, would_block: true }),
        ReplyStep::Rejected(Failure::Io(11))
    );
    assert_eq!(
        reply_step(ReadOutcome::Failed { errno: 104, would_block: false }),
        ReplyStep::Rejected(Failure::Io(104))
    );
}

#[test]
fn a_reply_that_is_not_there_yet_is_awaited() {
    assert_eq!(reply_step(ReadOutcome::Failed { errno: 11, would_block: true }), ReplyStep::Retry);
    assert_eq!(reply_step(ReadOutcome::Bytes(17)), ReplyStep::Accepted);
}

#[test]
fn exit_codes_are_judged() {
    assert_eq!(image_created(true), Ok(()));
    assert_eq!(image_created(false), Err(BuildError::FailedToCreateImage));
    assert_eq!(daemon_joined(true), Ok(()));
    assert_eq!(daemon_joined(false), Err(BuildError::QmpQuitFail));
}

#[test]
fn report_modes_are_known_by_name() {
    assert_eq!(ReportMode::Auto.name(), "auto");
    assert_eq!(ReportMode::Tui.name(), "tui");
    assert_eq!(ReportMode::Text.name(), "text");
    assert_eq!(ReportMode::Json.name(), "json");
    assert_eq!(ReportMode::default(), ReportMode::Auto);
    assert_eq!(StatusUpdate {}, StatusUpdate {});
}
