//! Failures of a launch, and the record that carries one from the child to
//! the parent.
//!
//! Between duplication and the replacement of the program image the child
//! cannot return an error to anybody: it shares no call stack with the
//! parent. It writes one record to a pipe instead and exits. The pipe's
//! write end is closed when the program image is replaced, so a pipe that
//! ends without a byte means that the launch succeeded.

use crate::bytes::{append, copy_range};
use vstd::prelude::*;

verus! {

/// The step of a launch that failed.
#[derive(Clone, Copy, Debug, PartialEq, Eq, Hash, Structural)]
pub enum Step {
    /// The configuration asks for things that exclude each other; found
    /// before the process is duplicated.
    Config,
    /// The process could not be duplicated.
    Fork,
    /// An existing namespace could not be joined.
    JoinNamespace,
    /// A new namespace could not be created.
    CreateNamespace,
    /// A UID or GID map could not be written.
    IdMapWrite,
    /// A helper program that writes a UID or GID map could not be started.
    IdMapHelperSpawn,
    /// A helper program that writes a UID or GID map did not exit with zero.
    IdMapHelperExit,
    /// The user id, group id or supplementary groups could not be set.
    Identity,
    /// The root directory could not be changed by `chroot`.
    Chroot,
    /// The root directory could not be changed by `pivot_root`, or the old
    /// root could not be unmounted.
    PivotRoot,
    /// The working directory could not be changed.
    Chdir,
    /// The capabilities could not be restricted.
    Capabilities,
    /// The signal mask could not be reset.
    SignalMask,
    /// A file descriptor could not be put in its place.
    Descriptors,
    /// The caller's hook that runs in the child returned an error.
    PreExec,
    /// The signal for the parent's death could not be registered.
    DeathSignal,
    /// The program image could not be replaced.
    Exec,
    /// The caller's hook that runs in the parent returned an error.
    BeforeUnfreeze,
    /// The child's termination could not be awaited or collected.
    Wait,
    /// The pipe that reports failures could not be made or read, or carried
    /// a record that cannot be understood.
    Channel,
}

/// The number of steps.
pub const STEPS: u8 = 20;

impl Step {
    /// The number that stands for this step in a record.
    pub open spec fn spec_code(self) -> u8 {
        match self {
            Step::Config => 1,
            Step::Fork => 2,
            Step::JoinNamespace => 3,
            Step::CreateNamespace => 4,
            Step::IdMapWrite => 5,
            Step::IdMapHelperSpawn => 6,
            Step::IdMapHelperExit => 7,
            Step::Identity => 8,
            Step::Chroot => 9,
            Step::PivotRoot => 10,
            Step::Chdir => 11,
            Step::Capabilities => 12,
            Step::SignalMask => 13,
            Step::Descriptors => 14,
            Step::PreExec => 15,
            Step::DeathSignal => 16,
            Step::Exec => 17,
            Step::BeforeUnfreeze => 18,
            Step::Wait => 19,
            Step::Channel => 20,
        }
    }

    /// The step that `code` stands for, if any.
    pub open spec fn spec_from_code(code: u8) -> Option<Step> {
        if code == 1 {
            Some(Step::Config)
        } else if code == 2 {
            Some(Step::Fork)
        } else if code == 3 {
            Some(Step::JoinNamespace)
        } else if code == 4 {
            Some(Step::CreateNamespace)
        } else if code == 5 {
            Some(Step::IdMapWrite)
        } else if code == 6 {
            Some(Step::IdMapHelperSpawn)
        } else if code == 7 {
            Some(Step::IdMapHelperExit)
        } else if code == 8 {
            Some(Step::Identity)
        } else if code == 9 {
            Some(Step::Chroot)
        } else if code == 10 {
            Some(Step::PivotRoot)
        } else if code == 11 {
            Some(Step::Chdir)
        } else if code == 12 {
            Some(Step::Capabilities)
        } else if code == 13 {
            Some(Step::SignalMask)
        } else if code == 14 {
            Some(Step::Descriptors)
        } else if code == 15 {
            Some(Step::PreExec)
        } else if code == 16 {
            Some(Step::DeathSignal)
        } else if code == 17 {
            Some(Step::Exec)
        } else if code == 18 {
            Some(Step::BeforeUnfreeze)
        } else if code == 19 {
            Some(Step::Wait)
        } else if code == 20 {
            Some(Step::Channel)
        } else {
            None
        }
    }

    /// What the step is called in messages.
    pub open spec fn spec_name(self) -> Seq<char> {
        match self {
            Step::Config => "configuration error"@,
            Step::Fork => "duplication failure"@,
            Step::JoinNamespace => "namespace-join failure"@,
            Step::CreateNamespace => "namespace-creation failure"@,
            Step::IdMapWrite => "id-map direct-write failure"@,
            Step::IdMapHelperSpawn => "id-map helper-spawn failure"@,
            Step::IdMapHelperExit => "id-map helper-exit failure"@,
            Step::Identity => "identity-change failure"@,
            Step::Chroot => "chroot failure"@,
            Step::PivotRoot => "pivot-root failure"@,
            Step::Chdir => "working-directory-change failure"@,
            Step::Capabilities => "capability-drop failure"@,
            Step::SignalMask => "signal-mask-restore failure"@,
            Step::Descriptors => "descriptor failure"@,
            Step::PreExec => "pre-exec-hook failure"@,
            Step::DeathSignal => "death-signal failure"@,
            Step::Exec => "image-replacement failure"@,
            Step::BeforeUnfreeze => "before-unfreeze-hook failure"@,
            Step::Wait => "wait failure"@,
            Step::Channel => "error-channel failure"@,
        }
    }

    /// Whether the step is made by the child, between duplication and the
    /// replacement of the program image. Only such a step is reported
    /// through the pipe; the others fail in the parent.
    pub open spec fn spec_in_child(self) -> bool {
        match self {
            Step::JoinNamespace
            | Step::Identity
            | Step::Chroot
            | Step::PivotRoot
            | Step::Chdir
            | Step::Capabilities
            | Step::SignalMask
            | Step::Descriptors
            | Step::PreExec
            | Step::DeathSignal
            | Step::Exec
            | Step::Channel => true,
            _ => false,
        }
    }

    /// The number that stands for this step in a record.
    pub fn code(self) -> (code: u8)
        ensures
            code == self.spec_code(),
            1 <= code <= STEPS,
    {
        match self {
            Step::Config => 1,
            Step::Fork => 2,
            Step::JoinNamespace => 3,
            Step::CreateNamespace => 4,
            Step::IdMapWrite => 5,
            Step::IdMapHelperSpawn => 6,
            Step::IdMapHelperExit => 7,
            Step::Identity => 8,
            Step::Chroot => 9,
            Step::PivotRoot => 10,
            Step::Chdir => 11,
            Step::Capabilities => 12,
            Step::SignalMask => 13,
            Step::Descriptors => 14,
            Step::PreExec => 15,
            Step::DeathSignal => 16,
            Step::Exec => 17,
            Step::BeforeUnfreeze => 18,
            Step::Wait => 19,
            Step::Channel => 20,
        }
    }

    /// The step that `code` stands for; `None` for a number that stands for
    /// no step.
    pub fn from_code(code: u8) -> (step: Option<Step>)
        ensures
            step == Step::spec_from_code(code),
            step is Some <==> 1 <= code <= STEPS,
            step matches Some(s) ==> s.spec_code() == code,
    {
        match code {
            1 => Some(Step::Config),
            2 => Some(Step::Fork),
            3 => Some(Step::JoinNamespace),
            4 => Some(Step::CreateNamespace),
            5 => Some(Step::IdMapWrite),
            6 => Some(Step::IdMapHelperSpawn),
            7 => Some(Step::IdMapHelperExit),
            8 => Some(Step::Identity),
            9 => Some(Step::Chroot),
            10 => Some(Step::PivotRoot),
            11 => Some(Step::Chdir),
            12 => Some(Step::Capabilities),
            13 => Some(Step::SignalMask),
            14 => Some(Step::Descriptors),
            15 => Some(Step::PreExec),
            16 => Some(Step::DeathSignal),
            17 => Some(Step::Exec),
            18 => Some(Step::BeforeUnfreeze),
            19 => Some(Step::Wait),
            20 => Some(Step::Channel),
            _ => None,
        }
    }

    /// What the step is called in messages.
    pub fn name(self) -> (name: &'static str)
        ensures
            name@ == self.spec_name(),
    {
        match self {
            Step::Config => "configuration error",
            Step::Fork => "duplication failure",
            Step::JoinNamespace => "namespace-join failure",
            Step::CreateNamespace => "namespace-creation failure",
            Step::IdMapWrite => "id-map direct-write failure",
            Step::IdMapHelperSpawn => "id-map helper-spawn failure",
            Step::IdMapHelperExit => "id-map helper-exit failure",
            Step::Identity => "identity-change failure",
            Step::Chroot => "chroot failure",
            Step::PivotRoot => "pivot-root failure",
            Step::Chdir => "working-directory-change failure",
            Step::Capabilities => "capability-drop failure",
            Step::SignalMask => "signal-mask-restore failure",
            Step::Descriptors => "descriptor failure",
            Step::PreExec => "pre-exec-hook failure",
            Step::DeathSignal => "death-signal failure",
            Step::Exec => "image-replacement failure",
            Step::BeforeUnfreeze => "before-unfreeze-hook failure",
            Step::Wait => "wait failure",
            Step::Channel => "error-channel failure",
        }
    }

    /// Whether the step is made by the child.
    pub fn in_child(self) -> (inside: bool)
        ensures
            inside == self.spec_in_child(),
    {
        match self {
            Step::JoinNamespace
            | Step::Identity
            | Step::Chroot
            | Step::PivotRoot
            | Step::Chdir
            | Step::Capabilities
            | Step::SignalMask
            | Step::Descriptors
            | Step::PreExec
            | Step::DeathSignal
            | Step::Exec
            | Step::Channel => true,
            _ => false,
        }
    }
}

/// Every step has a code of its own, from which it is found again.
pub proof fn lemma_step_codes(step: Step)
    ensures
        Step::spec_from_code(step.spec_code()) == Some(step),
        1 <= step.spec_code() <= STEPS,
{
}

/// A failure as contracts speak of it: the step, the operating system's
/// error code, and what more there is to say, such as the path at fault.
pub struct Failure {
    /// The step that failed.
    pub step: Step,
    /// The error code of the operating system; zero where none applies.
    pub errno: i32,
    /// What more there is to say, in UTF-8.
    pub detail: Option<Seq<u8>>,
}

/// A failure of a launch: the step that failed, the error code of the
/// operating system and, where there is more to say, a short text.
#[derive(Clone, Debug, PartialEq, Eq)]
pub struct Error {
    /// The step that failed.
    pub step: Step,
    /// The error code of the operating system; zero where none applies.
    pub errno: i32,
    /// What more there is to say, in UTF-8.
    pub detail: Option<Vec<u8>>,
}

impl View for Error {
    type V = Failure;

    open spec fn view(&self) -> Failure {
        Failure {
            step: self.step,
            errno: self.errno,
            detail: match self.detail {
                Some(text) => Some(text@),
                None => None,
            },
        }
    }
}

impl Error {
    /// The failure of `step` with the error code `errno`.
    pub fn new(step: Step, errno: i32) -> (err: Error)
        ensures
            err@ == (Failure { step, errno, detail: None }),
    {
        Error { step, errno, detail: None }
    }

    /// The failure of `step` with the error code `errno`, and `detail` to
    /// say more.
    pub fn with_detail(step: Step, errno: i32, detail: Vec<u8>) -> (err: Error)
        ensures
            err@ == (Failure { step, errno, detail: Some(detail@) }),
    {
        Error { step, errno, detail: Some(detail) }
    }

    /// The step that failed.
    pub fn step(&self) -> (step: Step)
        ensures
            step == self@.step,
    {
        self.step
    }

    /// The error code of the operating system.
    pub fn raw_os_error(&self) -> (errno: i32)
        ensures
            errno == self@.errno,
    {
        self.errno
    }
}

/// `libc::PIPE_BUF`: the largest write to a pipe that the kernel never
/// splits nor mixes with another writer's bytes. libc defines it as 4096 for
/// Linux.
#[verifier::external_body]
fn pipe_buf() -> (limit: usize)
    ensures
        limit == RECORD_LIMIT,
{
    libc::PIPE_BUF
}

/// `libc::EINVAL`, the error code for an invalid argument: 22 in libc's
/// definitions for Linux.
#[verifier::external_body]
fn libc_einval() -> (errno: i32)
    ensures
        errno == EINVAL,
{
    libc::EINVAL
}

/// `libc::ECHILD`, the error code for a wait without a child to wait for:
/// 10 in libc's definitions for Linux.
#[verifier::external_body]
fn libc_echild() -> (errno: i32)
    ensures
        errno == ECHILD,
{
    libc::ECHILD
}

/// The error code for an invalid argument.
pub const EINVAL: i32 = 22;

/// The error code for a wait without a child to wait for.
pub const ECHILD: i32 = 10;

/// The error code for an invalid argument, with which a configuration that
/// cannot be launched is answered.
pub fn invalid_argument() -> (errno: i32)
    ensures
        errno == EINVAL,
{
    libc_einval()
}

/// The error code with which a wait is answered that has no child to wait
/// for.
pub fn no_child() -> (errno: i32)
    ensures
        errno == ECHILD,
{
    libc_echild()
}

/// The length of the head of a record: the step's code, then the error code
/// in four bytes.
pub const HEAD_LEN: usize = 5;

/// The greatest length of a record. A record is written by one call, and a
/// write of this length or less reaches the parent whole.
pub const RECORD_LIMIT: usize = 4096;

/// The greatest length of the text in a record.
pub const DETAIL_LIMIT: usize = 4091;

/// The four bytes that stand for `errno` in a record: its two's complement
/// in 32 bits, highest byte first.
pub open spec fn errno_bytes(errno: i32) -> Seq<u8> {
    let unsigned: int = if errno < 0 {
        errno + 0x1_0000_0000
    } else {
        errno as int
    };
    seq![
        (unsigned / 0x100_0000) as u8,
        ((unsigned / 0x1_0000) % 0x100) as u8,
        ((unsigned / 0x100) % 0x100) as u8,
        (unsigned % 0x100) as u8,
    ]
}

/// The error code that four bytes of a record stand for.
pub open spec fn errno_of(b0: u8, b1: u8, b2: u8, b3: u8) -> i32 {
    let unsigned: int = b0 * 0x100_0000 + b1 * 0x1_0000 + b2 * 0x100 + b3;
    if unsigned >= 0x8000_0000 {
        (unsigned - 0x1_0000_0000) as i32
    } else {
        unsigned as i32
    }
}

/// Whether `byte` continues a character in UTF-8, rather than starting one.
pub open spec fn is_continuation(byte: u8) -> bool {
    0x80 <= byte < 0xC0
}

/// The greatest place at or below `limit` where `text` can be cut without
/// splitting a character, for a `limit` inside the text: the greatest place
/// that holds no continuation byte, or zero.
pub open spec fn cut_before(text: Seq<u8>, limit: int) -> int
    decreases limit,
{
    if limit <= 0 {
        0
    } else if is_continuation(text[limit]) {
        cut_before(text, limit - 1)
    } else {
        limit
    }
}

/// The length to which a text is shortened for a record: its own length
/// where that is within `DETAIL_LIMIT`, else the greatest length within it
/// that splits no character.
pub open spec fn cut_length(text: Seq<u8>) -> int {
    if text.len() <= DETAIL_LIMIT {
        text.len() as int
    } else {
        cut_before(text, DETAIL_LIMIT as int)
    }
}

/// Where a text is cut: within the limit, at the start of a character, and
/// nowhere earlier than need be.
pub proof fn lemma_cut_before(text: Seq<u8>, limit: int)
    requires
        0 <= limit < text.len(),
    ensures
        0 <= cut_before(text, limit) <= limit,
        cut_before(text, limit) > 0 ==> !is_continuation(text[cut_before(text, limit)]),
        forall|i: int|
            cut_before(text, limit) < i <= limit ==> is_continuation(#[trigger] text[i]),
    decreases limit,
{
    if limit > 0 && is_continuation(text[limit]) {
        lemma_cut_before(text, limit - 1);
    }
}

/// The text of a failure as a record carries it: shortened to fit, and
/// empty where the failure has none.
pub open spec fn wire_detail(detail: Option<Seq<u8>>) -> Seq<u8> {
    match detail {
        Some(text) => text.take(cut_length(text)),
        None => Seq::<u8>::empty(),
    }
}

/// The record that reports `failure`: the step's code, the error code, and
/// the text.
pub open spec fn record(failure: Failure) -> Seq<u8> {
    seq![failure.step.spec_code()] + errno_bytes(failure.errno) + wire_detail(failure.detail)
}

/// The failure that the parent reads from the record of `failure`: the same
/// step and error code; the text shortened as in the record, and absent
/// where nothing is left of it.
pub open spec fn delivered(failure: Failure) -> Failure {
    Failure {
        step: failure.step,
        errno: failure.errno,
        detail: if wire_detail(failure.detail).len() == 0 {
            None
        } else {
            Some(wire_detail(failure.detail))
        },
    }
}

/// What the parent learns from the pipe once the child has closed it.
#[derive(Clone, Debug, PartialEq, Eq)]
pub enum Report {
    /// The pipe carried nothing: the program image was replaced.
    Started,
    /// The child reported the failure of a step.
    Failed(Error),
    /// The pipe carried bytes that are no record.
    Garbled,
}

/// What the parent learns from the pipe, as contracts speak of it.
pub enum Reported {
    /// The pipe carried nothing.
    Started,
    /// The child reported the failure of a step.
    Failed(Failure),
    /// The pipe carried bytes that are no record.
    Garbled,
}

impl View for Report {
    type V = Reported;

    open spec fn view(&self) -> Reported {
        match self {
            Report::Started => Reported::Started,
            Report::Failed(err) => Reported::Failed(err@),
            Report::Garbled => Reported::Garbled,
        }
    }
}

/// What the bytes read from the pipe mean. No byte at all means success. A
/// record is at least a head that starts with the code of a step; what
/// follows the head is the text.
pub open spec fn spec_decode(bytes: Seq<u8>) -> Reported {
    if bytes.len() == 0 {
        Reported::Started
    } else if bytes.len() < HEAD_LEN {
        Reported::Garbled
    } else {
        match Step::spec_from_code(bytes[0]) {
            None => Reported::Garbled,
            Some(step) => Reported::Failed(
                Failure {
                    step,
                    errno: errno_of(bytes[1], bytes[2], bytes[3], bytes[4]),
                    detail: if bytes.len() == HEAD_LEN {
                        None
                    } else {
                        Some(bytes.subrange(HEAD_LEN as int, bytes.len() as int))
                    },
                },
            ),
        }
    }
}

/// Four bytes made from an error code stand for that error code.
pub proof fn lemma_errno_bytes(errno: i32)
    ensures
        errno_bytes(errno).len() == 4,
        errno_of(
            errno_bytes(errno)[0],
            errno_bytes(errno)[1],
            errno_bytes(errno)[2],
            errno_bytes(errno)[3],
        ) == errno,
{
}

/// A record is never longer than one write to a pipe may be.
pub proof fn lemma_record_fits(failure: Failure)
    ensures
        HEAD_LEN <= record(failure).len() <= RECORD_LIMIT,
{
    match failure.detail {
        Some(text) => {
            if text.len() > DETAIL_LIMIT {
                lemma_cut_before(text, DETAIL_LIMIT as int);
            }
        },
        None => {},
    }
}

/// What is written is what is read: the parent reads from the record of a
/// failure that failure, its text shortened as the record has it.
pub proof fn lemma_decode_record(failure: Failure)
    ensures
        spec_decode(record(failure)) == Reported::Failed(delivered(failure)),
{
    let bytes = record(failure);
    let text = wire_detail(failure.detail);
    lemma_errno_bytes(failure.errno);
    lemma_step_codes(failure.step);
    lemma_record_fits(failure);
    assert(bytes[0] == failure.step.spec_code());
    assert(bytes[1] == errno_bytes(failure.errno)[0]);
    assert(bytes[2] == errno_bytes(failure.errno)[1]);
    assert(bytes[3] == errno_bytes(failure.errno)[2]);
    assert(bytes[4] == errno_bytes(failure.errno)[3]);
    assert(bytes.len() == HEAD_LEN + text.len());
    if text.len() > 0 {
        assert(bytes.subrange(HEAD_LEN as int, bytes.len() as int) =~= text);
    }
}

/// The length to which `text` is shortened for a record.
pub fn detail_length(text: &Vec<u8>) -> (len: usize)
    ensures
        len == cut_length(text@),
        len <= DETAIL_LIMIT,
        len <= text.len(),
{
    if text.len() <= DETAIL_LIMIT {
        return text.len();
    }
    let mut at: usize = DETAIL_LIMIT;
    while at > 0 && text[at] >= 0x80 && text[at] < 0xC0
        invariant
            at <= DETAIL_LIMIT < text.len(),
            cut_before(text@, at as int) == cut_before(text@, DETAIL_LIMIT as int),
        decreases at,
    {
        at = at - 1;
    }
    at
}

/// Writes the record that reports `err`. The child hands the bytes to one
/// `write` on the pipe.
pub fn encode(err: &Error) -> (bytes: Vec<u8>)
    ensures
        bytes@ == record(err@),
        HEAD_LEN <= bytes.len() <= RECORD_LIMIT,
{
    let wide: i64 = err.errno as i64;
    let unsigned: i64 = if wide < 0 {
        wide + 0x1_0000_0000
    } else {
        wide
    };
    let mut bytes: Vec<u8> = Vec::new();
    bytes.push(err.step.code());
    bytes.push((unsigned / 0x100_0000) as u8);
    bytes.push(((unsigned / 0x1_0000) % 0x100) as u8);
    bytes.push(((unsigned / 0x100) % 0x100) as u8);
    bytes.push((unsigned % 0x100) as u8);
    assert(bytes@ =~= seq![err.step.spec_code()] + errno_bytes(err.errno));
    match &err.detail {
        Some(text) => {
            let len = detail_length(text);
            let short = copy_range(text, 0, len);
            append(&mut bytes, &short);
            assert(short@ =~= text@.take(len as int));
        },
        None => {},
    }
    assert(bytes@ =~= record(err@));
    proof {
        lemma_record_fits(err@);
    }
    bytes
}

/// A record with the error code `errno` in place of the one that it holds.
pub open spec fn restamped(record: Seq<u8>, errno: i32) -> Seq<u8> {
    record.take(1) + errno_bytes(errno) + record.skip(HEAD_LEN as int)
}

/// Writes the error code `errno` into a record, in place of the one that
/// it holds. Nothing is allocated: a child that must not allocate makes its
/// records before the process is duplicated and, when a step fails, writes
/// the error code of that moment into the record of the step.
pub fn stamp_errno(record: &mut Vec<u8>, errno: i32)
    requires
        old(record).len() >= HEAD_LEN,
    ensures
        final(record)@ == restamped(old(record)@, errno),
{
    let wide: i64 = errno as i64;
    let unsigned: i64 = if wide < 0 {
        wide + 0x1_0000_0000
    } else {
        wide
    };
    record.set(1, (unsigned / 0x100_0000) as u8);
    record.set(2, ((unsigned / 0x1_0000) % 0x100) as u8);
    record.set(3, ((unsigned / 0x100) % 0x100) as u8);
    record.set(4, (unsigned % 0x100) as u8);
    assert(record@ =~= restamped(old(record)@, errno));
}

/// The record of a failure in which another error code is written is the
/// record of that failure with the other error code.
pub proof fn lemma_restamped_record(failure: Failure, errno: i32)
    ensures
        restamped(record(failure), errno) == record(Failure { errno, ..failure }),
{
    lemma_errno_bytes(failure.errno);
    lemma_errno_bytes(errno);
    assert(restamped(record(failure), errno) =~= record(Failure { errno, ..failure }));
}

/// Reads what the pipe carried: all the bytes that were read from it until
/// it was closed.
pub fn decode(bytes: &Vec<u8>) -> (report: Report)
    ensures
        report@ == spec_decode(bytes@),
{
    if bytes.len() == 0 {
        return Report::Started;
    }
    if bytes.len() < HEAD_LEN {
        return Report::Garbled;
    }
    let step = match Step::from_code(bytes[0]) {
        Some(step) => step,
        None => {
            return Report::Garbled;
        },
    };
    let unsigned: i64 = (bytes[1] as i64) * 0x100_0000 + (bytes[2] as i64) * 0x1_0000 + (
    bytes[3] as i64) * 0x100 + (bytes[4] as i64);
    let errno: i32 = if unsigned >= 0x8000_0000 {
        (unsigned - 0x1_0000_0000) as i32
    } else {
        unsigned as i32
    };
    let detail = if bytes.len() == HEAD_LEN {
        None
    } else {
        Some(copy_range(bytes, HEAD_LEN, bytes.len()))
    };
    Report::Failed(Error { step, errno, detail })
}

/// The greatest number of bytes that the parent has to read from the pipe.
pub fn record_limit() -> (limit: usize)
    ensures
        limit == RECORD_LIMIT,
{
    pipe_buf()
}

} // verus!
