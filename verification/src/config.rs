//! What a child is to be, as far as the operating system is concerned.

use crate::idmap::{GidMap, UidMap};
use crate::namespace::{JoinMap, Namespace, NamespaceSet};
use nix::sys::signal::Signal;
use vstd::prelude::*;

verus! {

/// The number of the signal that cannot be caught.
pub const SIGKILL: i32 = 9;

/// `nix::sys::signal::Signal::SIGKILL`, as its number. nix takes the number
/// from libc, where it is 9 on Linux.
#[verifier::external_body]
fn sigkill() -> (signal: i32)
    ensures
        signal == SIGKILL,
{
    Signal::SIGKILL as i32
}

/// The greatest number that a signal has on Linux, the real-time signals
/// included.
pub const SIGNAL_MAX: i32 = 64;

/// Whether `number` is the number of a signal: the signals are numbered
/// from 1 to `SIGNAL_MAX`.
pub open spec fn is_signal(number: i32) -> bool {
    1 <= number <= SIGNAL_MAX
}

/// Whether `number` is the number of a signal.
pub fn signal_number(number: i32) -> (valid: bool)
    ensures
        valid == is_signal(number),
{
    1 <= number && number <= SIGNAL_MAX
}

/// What a child is to be, as far as the operating system is concerned.
pub struct Config {
    /// The number of the signal that is sent to the child when the parent
    /// dies; `None` lets the child outlive the parent. A number that is no
    /// signal's makes the description impossible to launch.
    pub death_sig: Option<i32>,
    /// The working directory of the child, looked up after the root has
    /// changed.
    pub work_dir: Option<Vec<u8>>,
    /// The user id of the child.
    pub uid: Option<u32>,
    /// The group id of the child.
    pub gid: Option<u32>,
    /// The supplementary groups of the child.
    pub supplementary_gids: Option<Vec<u32>>,
    /// The maps of user and group ids for a new user namespace.
    pub id_maps: Option<(Vec<UidMap>, Vec<GidMap>)>,
    /// The kinds of namespace that are created for the child.
    pub namespaces: NamespaceSet,
    /// The namespaces that the child joins.
    pub setns_namespaces: JoinMap,
    /// Whether the child starts with no signal blocked and every signal
    /// handled by default.
    pub restore_sigmask: bool,
    /// Whether the child becomes the leader of a new process group.
    pub make_group_leader: bool,
}

/// A configuration as contracts speak of it.
pub struct ConfigView {
    /// The signal for the parent's death, where one is asked for.
    pub death_sig: Option<i32>,
    /// The working directory, where one is asked for.
    pub work_dir: Option<Seq<u8>>,
    /// The user id, where it is set.
    pub uid: Option<u32>,
    /// The group id, where it is set.
    pub gid: Option<u32>,
    /// The supplementary groups, where they are set.
    pub supplementary_gids: Option<Seq<u32>>,
    /// The map of user ids and the map of group ids, where there are any.
    pub id_maps: Option<(Seq<UidMap>, Seq<GidMap>)>,
    /// The kinds of namespace that are created.
    pub namespaces: Set<Namespace>,
    /// The namespaces that are joined, each by its descriptor.
    pub joins: Map<Namespace, i32>,
    /// Whether the handling of signals is reset.
    pub restore_sigmask: bool,
    /// Whether the child becomes the leader of a new process group.
    pub make_group_leader: bool,
}

impl View for Config {
    type V = ConfigView;

    open spec fn view(&self) -> ConfigView {
        ConfigView {
            death_sig: self.death_sig,
            work_dir: match self.work_dir {
                Some(dir) => Some(dir@),
                None => None,
            },
            uid: self.uid,
            gid: self.gid,
            supplementary_gids: match self.supplementary_gids {
                Some(groups) => Some(groups@),
                None => None,
            },
            id_maps: match self.id_maps {
                Some((uids, gids)) => Some((uids@, gids@)),
                None => None,
            },
            namespaces: self.namespaces@,
            joins: self.setns_namespaces@,
            restore_sigmask: self.restore_sigmask,
            make_group_leader: self.make_group_leader,
        }
    }
}

/// The configuration that a launch starts from: the child is killed when
/// the parent dies and starts with the default handling of signals;
/// everything else is as in the parent.
pub open spec fn default_config() -> ConfigView {
    ConfigView {
        death_sig: Some(SIGKILL),
        work_dir: None,
        uid: None,
        gid: None,
        supplementary_gids: None,
        id_maps: None,
        namespaces: Set::<Namespace>::empty(),
        joins: Map::<Namespace, i32>::empty(),
        restore_sigmask: true,
        make_group_leader: false,
    }
}

impl Default for Config {
    fn default() -> (config: Config)
        ensures
            config@ == default_config(),
    {
        Config {
            death_sig: Some(sigkill()),
            work_dir: None,
            uid: None,
            gid: None,
            supplementary_gids: None,
            id_maps: None,
            namespaces: NamespaceSet::empty(),
            setns_namespaces: JoinMap::new(),
            restore_sigmask: true,
            make_group_leader: false,
        }
    }
}

} // verus!
