//! The copy-on-write disk backend: the command lines of the external tools and
//! the control-channel handshake with the storage daemon.

use crate::config::ImageFormat;
use crate::error::BuildError;
use crate::error::BuildErrorView;
use crate::error::Failure;
use crate::error::FailureView;
use crate::paths::directory;
use crate::paths::directory_of;
use crate::paths::join_path;
use crate::paths::joined_path;
use crate::paths::parent_of;
use crate::paths::parent_path;
use vstd::prelude::*;
use vstd::string::*;

verus! {

/// The text of one decimal digit.
pub open spec fn digit_text(d: nat) -> Seq<char> {
    if d == 0 {
        "0"@
    } else if d == 1 {
        "1"@
    } else if d == 2 {
        "2"@
    } else if d == 3 {
        "3"@
    } else if d == 4 {
        "4"@
    } else if d == 5 {
        "5"@
    } else if d == 6 {
        "6"@
    } else if d == 7 {
        "7"@
    } else if d == 8 {
        "8"@
    } else {
        "9"@
    }
}

/// A natural number in decimal notation, without leading zeros.
pub open spec fn decimal_text(n: nat) -> Seq<char>
    decreases n,
{
    if n < 10 {
        digit_text(n)
    } else {
        decimal_text(n / 10) + digit_text(n % 10)
    }
}

/// An integer in decimal notation, with a minus sign if it is negative.
pub open spec fn signed_decimal_text(n: int) -> Seq<char> {
    if n < 0 {
        "-"@ + decimal_text((-n) as nat)
    } else {
        decimal_text(n as nat)
    }
}

fn digit(d: u64) -> (r: &'static str)
    requires
        d < 10,
    ensures
        r@ == digit_text(d as nat),
{
    if d == 0 {
        "0"
    } else if d == 1 {
        "1"
    } else if d == 2 {
        "2"
    } else if d == 3 {
        "3"
    } else if d == 4 {
        "4"
    } else if d == 5 {
        "5"
    } else if d == 6 {
        "6"
    } else if d == 7 {
        "7"
    } else if d == 8 {
        "8"
    } else {
        "9"
    }
}

/// Writes a natural number in decimal notation.
pub fn decimal(n: u64) -> (r: String)
    ensures
        r@ == decimal_text(n as nat),
    decreases n,
{
    if n < 10 {
        digit(n).to_owned()
    } else {
        let mut text = decimal(n / 10);
        text.append(digit(n % 10));
        text
    }
}

/// Writes an integer in decimal notation.
pub fn signed_decimal(n: i64) -> (r: String)
    ensures
        r@ == signed_decimal_text(n as int),
{
    if n < 0 {
        let magnitude: u64 = if n == i64::MIN {
            0x8000_0000_0000_0000u64
        } else {
            (-n) as u64
        };
        let mut text = "-".to_owned();
        let digits = decimal(magnitude);
        text.append(digits.as_str());
        text
    } else {
        decimal(n as u64)
    }
}

/// The name by which the external tools know an image format.
pub open spec fn format_name(format: ImageFormat) -> Seq<char> {
    match format {
        ImageFormat::Raw => "raw"@,
        ImageFormat::QCow2 => "qcow2"@,
    }
}

fn format_str(format: ImageFormat) -> (r: &'static str)
    ensures
        r@ == format_name(format),
{
    match format {
        ImageFormat::Raw => "raw",
        ImageFormat::QCow2 => "qcow2",
    }
}

/// The arguments of `qemu-img` that create an image of `size` mebibytes.
pub open spec fn create_image_args(path: Seq<char>, size: int, format: ImageFormat) -> Seq<
    Seq<char>,
> {
    seq![
        "create"@,
        "-f"@,
        format_name(format),
        path,
        signed_decimal_text(size) + "M"@,
    ]
}

/// The path of the storage daemon's control socket: `qemu-monitor.sock` beside
/// the backing file, or under it where the backing path has no parent.
pub open spec fn monitor_socket(backing: Seq<char>) -> Seq<char> {
    joined_path(directory_of(backing, parent_path(backing)), "qemu-monitor.sock"@)
}

/// The arguments of `qemu-storage-daemon` that export the image at its own
/// path and offer a control channel on the monitor socket.
pub open spec fn storage_daemon_args(
    backing: Seq<char>,
    monitor: Seq<char>,
    format: ImageFormat,
) -> Seq<Seq<char>> {
    seq![
        "--blockdev"@,
        "node-name=prot-node,driver=file,filename="@ + backing,
        "--blockdev"@,
        "node-name=fmt-node,driver="@ + format_name(format) + ",file=prot-node"@,
        "--chardev"@,
        "socket,path="@ + monitor + ",id=qemu-monitor"@,
        "--monitor"@,
        "chardev=qemu-monitor"@,
        "--export"@,
        "type=fuse,id=exp0,node-name=fmt-node,mountpoint="@ + backing + ",writable=on"@,
    ]
}

/// A command on the storage daemon's control channel.
#[derive(Debug, Clone, Copy, PartialEq, Eq, Structural)]
pub enum QmpCommand {
    /// Feature negotiation, with no capability enabled.
    Capabilities,
    /// Ask the daemon to terminate.
    Quit,
}

impl QmpCommand {
    /// The value of the command's `execute` key.
    pub open spec fn execute_name(self) -> Seq<char> {
        match self {
            QmpCommand::Capabilities => "qmp_capabilities"@,
            QmpCommand::Quit => "quit"@,
        }
    }

    /// The value of the command's `execute` key.
    pub fn execute(&self) -> (r: &'static str)
        ensures
            r@ == self.execute_name(),
    {
        match self {
            QmpCommand::Capabilities => "qmp_capabilities",
            QmpCommand::Quit => "quit",
        }
    }

    /// Whether the command carries an `arguments` object, which then holds an
    /// empty `enable` list.
    pub fn has_arguments(&self) -> (r: bool)
        ensures
            r == (*self == QmpCommand::Capabilities),
    {
        match self {
            QmpCommand::Capabilities => true,
            QmpCommand::Quit => false,
        }
    }
}

/// How one read on the control channel ended.
#[derive(Debug, Clone, Copy, PartialEq, Eq, Structural)]
pub enum ReadOutcome {
    /// This many bytes arrived.
    Bytes(usize),
    /// The read failed with this error number; `would_block` says that nothing
    /// was there to read yet.
    Failed { errno: i32, would_block: bool },
}

/// What to do after a read on the control channel.
#[derive(Debug, Clone, PartialEq, Eq)]
pub enum ReplyStep {
    /// A non-empty payload arrived: go on.
    Accepted,
    /// Nothing has arrived yet: read again.
    Retry,
    /// The exchange failed.
    Rejected(Failure),
}

pub enum ReplyStepView {
    Accepted,
    Retry,
    Rejected(FailureView),
}

impl View for ReplyStep {
    type V = ReplyStepView;

    open spec fn view(&self) -> ReplyStepView {
        match self {
            ReplyStep::Accepted => ReplyStepView::Accepted,
            ReplyStep::Retry => ReplyStepView::Retry,
            ReplyStep::Rejected(f) => ReplyStepView::Rejected(f@),
        }
    }
}

/// The rule for the daemon's greeting: any non-empty payload is accepted, an
/// empty one means that the daemon hung up, and a failed read is surfaced.
pub open spec fn greeting_rule(outcome: ReadOutcome) -> ReplyStepView {
    match outcome {
        ReadOutcome::Bytes(n) => if n > 0 {
            ReplyStepView::Accepted
        } else {
            ReplyStepView::Rejected(FailureView::Build(BuildErrorView::QmpQuitWrite0))
        },
        ReadOutcome::Failed { errno, would_block } => ReplyStepView::Rejected(
            FailureView::Io(errno),
        ),
    }
}

/// The rule for the reply to a command: as for the greeting, but a read that
/// would block is tried again.
pub open spec fn reply_rule(outcome: ReadOutcome) -> ReplyStepView {
    match outcome {
        ReadOutcome::Failed { errno, would_block } => if would_block {
            ReplyStepView::Retry
        } else {
            ReplyStepView::Rejected(FailureView::Io(errno))
        },
        _ => greeting_rule(outcome),
    }
}

/// Judges the read that waits for the daemon's greeting.
pub fn greeting_step(outcome: ReadOutcome) -> (r: ReplyStep)
    ensures
        r@ == greeting_rule(outcome),
{
    match outcome {
        ReadOutcome::Bytes(n) => {
            if n > 0 {
                ReplyStep::Accepted
            } else {
                ReplyStep::Rejected(Failure::Build(BuildError::QmpQuitWrite0))
            }
        },
        ReadOutcome::Failed { errno, would_block } => ReplyStep::Rejected(Failure::Io(errno)),
    }
}

/// Judges a read that waits for the reply to a command.
pub fn reply_step(outcome: ReadOutcome) -> (r: ReplyStep)
    ensures
        r@ == reply_rule(outcome),
{
    match outcome {
        ReadOutcome::Failed { errno, would_block } => {
            if would_block {
                ReplyStep::Retry
            } else {
                ReplyStep::Rejected(Failure::Io(errno))
            }
        },
        _ => greeting_step(outcome),
    }
}

/// One thing that the caller does to a disk backend's outside world.
#[derive(Debug, Clone, PartialEq, Eq)]
pub enum DiskAction {
    /// Open the file, creating it if need be, and set its length in bytes.
    Allocate { path: String, bytes: u64 },
    /// Run `qemu-img` with these arguments; a non-zero exit is
    /// `FailedToCreateImage`.
    CreateImage { args: Vec<String> },
    /// Remove a socket file left over at this path, if there is one.
    RemoveStaleSocket { path: String },
    /// Listen on a Unix-domain socket at this path.
    Listen { path: String },
    /// Start `qemu-storage-daemon` with these arguments.
    SpawnDaemon { args: Vec<String> },
    /// Accept the daemon's connection and judge its greeting with
    /// [`greeting_step`].
    AwaitGreeting,
    /// Send the command and judge the reads that follow with [`reply_step`].
    Exchange(QmpCommand),
    /// Wait for the daemon to terminate; a daemon that cannot be joined is
    /// `QmpQuitFail`.
    JoinDaemon,
    /// Remove the socket file at this path.
    RemoveSocket { path: String },
}

pub enum DiskActionView {
    Allocate { path: Seq<char>, bytes: u64 },
    CreateImage { args: Seq<Seq<char>> },
    RemoveStaleSocket { path: Seq<char> },
    Listen { path: Seq<char> },
    SpawnDaemon { args: Seq<Seq<char>> },
    AwaitGreeting,
    Exchange(QmpCommand),
    JoinDaemon,
    RemoveSocket { path: Seq<char> },
}

impl View for DiskAction {
    type V = DiskActionView;

    open spec fn view(&self) -> DiskActionView {
        match self {
            DiskAction::Allocate { path, bytes } => DiskActionView::Allocate {
                path: path@,
                bytes: *bytes,
            },
            DiskAction::CreateImage { args } => DiskActionView::CreateImage {
                args: args.deep_view(),
            },
            DiskAction::RemoveStaleSocket { path } => DiskActionView::RemoveStaleSocket {
                path: path@,
            },
            DiskAction::Listen { path } => DiskActionView::Listen { path: path@ },
            DiskAction::SpawnDaemon { args } => DiskActionView::SpawnDaemon {
                args: args.deep_view(),
            },
            DiskAction::AwaitGreeting => DiskActionView::AwaitGreeting,
            DiskAction::Exchange(c) => DiskActionView::Exchange(*c),
            DiskAction::JoinDaemon => DiskActionView::JoinDaemon,
            DiskAction::RemoveSocket { path } => DiskActionView::RemoveSocket { path: path@ },
        }
    }
}

/// The views of a run of actions, in order.
pub open spec fn action_views(actions: Seq<DiskAction>) -> Seq<DiskActionView> {
    Seq::new(actions.len(), |i: int| actions[i]@)
}

/// What a copy-on-write backend is made of.
pub struct QCow2View {
    /// The path of the backing file, which is also where the daemon exports
    /// the image.
    pub backing: Seq<char>,
    pub format: ImageFormat,
    /// The image size in mebibytes.
    pub size: int,
    /// Whether the storage daemon is running.
    pub running: bool,
}

impl QCow2View {
    /// What `create_disk` asks of the caller.
    pub open spec fn create_actions(self) -> Seq<DiskActionView> {
        seq![
            DiskActionView::CreateImage {
                args: create_image_args(self.backing, self.size, self.format),
            },
        ]
    }

    /// What `mount` asks of the caller.
    pub open spec fn mount_actions(self) -> Seq<DiskActionView> {
        let monitor = monitor_socket(self.backing);
        seq![
            DiskActionView::RemoveStaleSocket { path: monitor },
            DiskActionView::Listen { path: monitor },
            DiskActionView::SpawnDaemon {
                args: storage_daemon_args(self.backing, monitor, self.format),
            },
            DiskActionView::AwaitGreeting,
            DiskActionView::Exchange(QmpCommand::Capabilities),
        ]
    }

    /// What `unmount` asks of the caller.
    pub open spec fn unmount_actions(self) -> Seq<DiskActionView> {
        if self.running {
            seq![
                DiskActionView::Exchange(QmpCommand::Quit),
                DiskActionView::JoinDaemon,
                DiskActionView::RemoveSocket { path: monitor_socket(self.backing) },
            ]
        } else {
            Seq::empty()
        }
    }
}

/// The disk backend for images that a storage daemon mediates.
#[derive(Debug, Clone, PartialEq, Eq)]
pub struct QCow2 {
    backing: String,
    format: ImageFormat,
    size: i64,
    running: bool,
}

impl View for QCow2 {
    type V = QCow2View;

    closed spec fn view(&self) -> QCow2View {
        QCow2View {
            backing: self.backing@,
            format: self.format,
            size: self.size as int,
            running: self.running,
        }
    }
}

impl QCow2 {
    /// A backend for the image at `backing`, with no daemon running, and the
    /// action that creates the image.
    pub fn create_disk(backing: String, size: i64, format: ImageFormat) -> (r: (
        Self,
        Vec<DiskAction>,
    ))
        ensures
            r.0@ == (QCow2View { backing: backing@, format, size: size as int, running: false }),
            action_views(r.1@) == r.0@.create_actions(),
    {
        let mut args: Vec<String> = Vec::new();
        args.push("create".to_owned());
        args.push("-f".to_owned());
        args.push(format_str(format).to_owned());
        args.push(backing.clone());
        let mut amount = signed_decimal(size);
        amount.append("M");
        args.push(amount);
        assert(args.deep_view() =~= create_image_args(backing@, size as int, format));
        let mut actions: Vec<DiskAction> = Vec::new();
        actions.push(DiskAction::CreateImage { args });
        let disk = QCow2 { backing, format, size, running: false };
        assert(action_views(actions@) =~= disk@.create_actions());
        (disk, actions)
    }

    /// The path of the backing file.
    pub fn backing(&self) -> (r: String)
        ensures
            r@ == self@.backing,
    {
        self.backing.clone()
    }

    /// The path of the control socket.
    pub fn monitor(&self) -> (r: String)
        ensures
            r@ == monitor_socket(self@.backing),
    {
        let dir = directory(self.backing.as_str(), parent_of(self.backing.as_str()));
        join_path(dir.as_str(), "qemu-monitor.sock")
    }

    /// The arguments with which the storage daemon is started.
    pub fn daemon_args(&self) -> (r: Vec<String>)
        ensures
            r.deep_view() == storage_daemon_args(
                self@.backing,
                monitor_socket(self@.backing),
                self@.format,
            ),
    {
        let monitor = self.monitor();
        let mut file_driver = "node-name=prot-node,driver=file,filename=".to_owned();
        file_driver.append(self.backing.as_str());
        let mut format_driver = "node-name=fmt-node,driver=".to_owned();
        format_driver.append(format_str(self.format));
        format_driver.append(",file=prot-node");
        let mut chardev = "socket,path=".to_owned();
        chardev.append(monitor.as_str());
        chardev.append(",id=qemu-monitor");
        let mut export = "type=fuse,id=exp0,node-name=fmt-node,mountpoint=".to_owned();
        export.append(self.backing.as_str());
        export.append(",writable=on");
        let mut args: Vec<String> = Vec::new();
        args.push("--blockdev".to_owned());
        args.push(file_driver);
        args.push("--blockdev".to_owned());
        args.push(format_driver);
        args.push("--chardev".to_owned());
        args.push(chardev);
        args.push("--monitor".to_owned());
        args.push("chardev=qemu-monitor".to_owned());
        args.push("--export".to_owned());
        args.push(export);
        assert(args.deep_view() =~= storage_daemon_args(
            self@.backing,
            monitor_socket(self@.backing),
            self@.format,
        ));
        args
    }

    /// Starts the storage daemon: lists what the caller has to do, and records
    /// that the daemon is running.
    pub fn mount(&mut self) -> (r: Vec<DiskAction>)
        ensures
            final(self)@ == (QCow2View { running: true, ..old(self)@ }),
            action_views(r@) == old(self)@.mount_actions(),
    {
        let monitor = self.monitor();
        let args = self.daemon_args();
        let mut actions: Vec<DiskAction> = Vec::new();
        actions.push(DiskAction::RemoveStaleSocket { path: monitor.clone() });
        actions.push(DiskAction::Listen { path: monitor });
        actions.push(DiskAction::SpawnDaemon { args });
        actions.push(DiskAction::AwaitGreeting);
        actions.push(DiskAction::Exchange(QmpCommand::Capabilities));
        self.running = true;
        assert(action_views(actions@) =~= old(self)@.mount_actions());
        actions
    }

    /// Stops the storage daemon if it is running: lists what the caller has to
    /// do, and records that no daemon is running.
    pub fn unmount(&mut self) -> (r: Vec<DiskAction>)
        ensures
            final(self)@ == (QCow2View { running: false, ..old(self)@ }),
            action_views(r@) == old(self)@.unmount_actions(),
    {
        let mut actions: Vec<DiskAction> = Vec::new();
        if self.running {
            let monitor = self.monitor();
            actions.push(DiskAction::Exchange(QmpCommand::Quit));
            actions.push(DiskAction::JoinDaemon);
            actions.push(DiskAction::RemoveSocket { path: monitor });
            self.running = false;
        }
        assert(action_views(actions@) =~= old(self)@.unmount_actions());
        actions
    }
}

/// Judges how `qemu-img` ended: anything but a clean exit means that the image
/// was not created.
pub fn image_created(exit_success: bool) -> (r: Result<(), BuildError>)
    ensures
        r == if exit_success {
            Ok::<(), BuildError>(())
        } else {
            Err(BuildError::FailedToCreateImage)
        },
{
    if exit_success {
        Ok(())
    } else {
        Err(BuildError::FailedToCreateImage)
    }
}

/// Judges the wait for the storage daemon after the quit command: a daemon
/// that could not be joined did not terminate cleanly.
pub fn daemon_joined(joined: bool) -> (r: Result<(), BuildError>)
    ensures
        r == if joined {
            Ok::<(), BuildError>(())
        } else {
            Err(BuildError::QmpQuitFail)
        },
{
    if joined {
        Ok(())
    } else {
        Err(BuildError::QmpQuitFail)
    }
}

} // verus!
