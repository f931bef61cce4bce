//! Decisions of the daemon around its loops: what a control action turns
//! into (most go through a clean restart of the process, which reuses the
//! whole start-up path), and which screen resolution to use.

use vstd::prelude::*;

use crate::ipc::DaemonAction;
use crate::layout::Screen;
use crate::orchestrator::ControlCmd;
use crate::text::str_eq;

verus! {

/// The flag that forces the server role.
pub open spec fn server_flag() -> Seq<char> {
    "--server"@
}

/// The launch arguments without the server flag (to decide the role again).
pub open spec fn without_server_flag(args: Seq<String>) -> Seq<String> {
    args.filter(|a: String| a@ != server_flag())
}

/// Copy of a list of strings.
pub fn clone_strings(v: &Vec<String>) -> (r: Vec<String>)
    ensures
        r@ == v@,
{
    let mut r: Vec<String> = Vec::new();
    let n = v.len();
    let mut i: usize = 0;
    while i < n
        invariant
            n == v@.len(),
            i <= n,
            r@ == v@.take(i as int),
        decreases n - i,
    {
        r.push(v[i].clone());
        assert(v@.take(i + 1) =~= v@.take(i as int).push(v@[i as int]));
        i += 1;
    }
    assert(v@.take(n as int) =~= v@);
    r
}

/// The launch arguments without the server flag.
pub fn strip_server_flag(args: &Vec<String>) -> (r: Vec<String>)
    ensures
        r@ == without_server_flag(args@),
{
    let ghost pred = |a: String| a@ != server_flag();
    let mut r: Vec<String> = Vec::new();
    let n = args.len();
    let mut i: usize = 0;
    assert(args@.take(0).filter(pred) =~= Seq::<String>::empty()) by {
        reveal_with_fuel(Seq::filter, 1);
    }
    while i < n
        invariant
            n == args@.len(),
            i <= n,
            pred == (|a: String| a@ != server_flag()),
            r@ == args@.take(i as int).filter(pred),
        decreases n - i,
    {
        assert(args@.take(i + 1).drop_last() =~= args@.take(i as int));
        assert(args@.take(i + 1).last() == args@[i as int]);
        proof {
            reveal_with_fuel(Seq::filter, 1);
        }
        if !str_eq(args[i].as_str(), "--server") {
            r.push(args[i].clone());
        }
        i += 1;
    }
    assert(args@.take(n as int) =~= args@);
    r
}

/// What to do for a control action.
#[derive(Debug, PartialEq, Eq)]
pub enum Plan {
    /// Leave the process.
    Exit,
    /// Start the program again with these arguments, then leave.
    Relaunch(Vec<String>),
    /// Save this name in the configuration, then start the program again
    /// with these arguments and leave.
    RenameAndRelaunch(String, Vec<String>),
    /// Hand the command to the server loop (no restart).
    Control(ControlCmd),
}

/// The arguments the program was started with, and the same without the
/// server flag.
pub struct Launch {
    args: Vec<String>,
    base: Vec<String>,
}

impl Launch {
    pub closed spec fn args_view(&self) -> Seq<String> {
        self.args@
    }

    pub closed spec fn base_view(&self) -> Seq<String> {
        self.base@
    }

    /// The launch of a program started with `args` (its arguments,
    /// without the program name).
    pub fn new(args: Vec<String>) -> (l: Launch)
        ensures
            l.args_view() == args@,
            l.base_view() == without_server_flag(args@),
    {
        let base = strip_server_flag(&args);
        Launch { args, base }
    }

    /// What a control action turns into: quitting leaves; reconnecting
    /// restarts without the server flag (the role is decided again); forcing
    /// the server role restarts with the flag; renaming saves the name and
    /// restarts keeping the current role; forgetting a machine and moving
    /// screens go to the server loop.
    pub fn plan(&self, action: DaemonAction) -> (p: Plan)
        ensures
            match action {
                DaemonAction::Quit => p == Plan::Exit,
                DaemonAction::Reconnect => p matches Plan::Relaunch(a) && a@ == self.base_view(),
                DaemonAction::ForceServer => p matches Plan::Relaunch(a) && a@.len() == self.base_view().len() + 1
                    && a@.drop_last() == self.base_view() && a@.last()@ == server_flag(),
                DaemonAction::Rename(name) => p matches Plan::RenameAndRelaunch(n, a) && n == name && a@
                    == self.args_view(),
                DaemonAction::Forget(id) => p == Plan::Control(ControlCmd::Forget(id)),
                DaemonAction::SetLayout(moves) => p == Plan::Control(ControlCmd::SetLayout(moves)),
            },
    {
        match action {
            DaemonAction::Quit => Plan::Exit,
            DaemonAction::Reconnect => Plan::Relaunch(clone_strings(&self.base)),
            DaemonAction::ForceServer => {
                let mut a = clone_strings(&self.base);
                a.push("--server".to_owned());
                assert(a@.drop_last() =~= self.base@);
                Plan::Relaunch(a)
            },
            DaemonAction::Rename(name) => Plan::RenameAndRelaunch(name, clone_strings(&self.args)),
            DaemonAction::Forget(id) => Plan::Control(ControlCmd::Forget(id)),
            DaemonAction::SetLayout(moves) => Plan::Control(ControlCmd::SetLayout(moves)),
        }
    }
}

/// The resolution used when none can be detected.
pub open spec fn fallback_screen_spec() -> Screen {
    Screen { width: 1920, height: 1080 }
}

/// The resolution used when none can be detected.
pub fn fallback_screen() -> (s: Screen)
    ensures
        s == fallback_screen_spec(),
{
    Screen::new(1920, 1080)
}

/// The screen chosen among the displays `ds` (width, height, primary): the
/// first primary one, else the first one, else the fallback.
pub open spec fn chosen_screen(ds: Seq<(u32, u32, bool)>) -> Screen {
    if exists|i: int| 0 <= i < ds.len() && #[trigger] ds[i].2 {
        let i = choose|i: int|
            0 <= i < ds.len() && ds[i].2 && forall|j: int| 0 <= j < i ==> !#[trigger] ds[j].2;
        Screen { width: ds[i].0, height: ds[i].1 }
    } else if ds.len() > 0 {
        Screen { width: ds[0].0, height: ds[0].1 }
    } else {
        fallback_screen_spec()
    }
}

/// Chooses the main screen among the displays found (see
/// [`chosen_screen`]).
pub fn pick_screen(ds: &[(u32, u32, bool)]) -> (s: Screen)
    ensures
        s == chosen_screen(ds@),
{
    let n = ds.len();
    let mut i: usize = 0;
    while i < n
        invariant
            n == ds@.len(),
            i <= n,
            forall|j: int| 0 <= j < i ==> !#[trigger] ds@[j].2,
        decreases n - i,
    {
        if ds[i].2 {
            let ghost k = choose|k: int|
                0 <= k < ds@.len() && ds@[k].2 && forall|j: int| 0 <= j < k ==> !#[trigger] ds@[j].2;
            assert(0 <= i < ds@.len() && ds@[i as int].2 && forall|j: int|
                0 <= j < i ==> !#[trigger] ds@[j].2);
            proof {
                if k < i {
                    assert(!ds@[k].2);
                } else if k > i {
                    assert(!ds@[i as int].2);
                }
            }
            return Screen::new(ds[i].0, ds[i].1);
        }
        i += 1;
    }
    if n > 0 {
        Screen::new(ds[0].0, ds[0].1)
    } else {
        fallback_screen()
    }
}

/// Longest control socket path, in bytes, used as is: a Unix socket path must
/// fit in the `sun_path` field of its address (104 bytes on some systems).
pub const MAX_SOCKET_PATH: usize = 100;

/// The control socket path (as bytes): the one given explicitly, if any;
/// else `default` when it is at most [`MAX_SOCKET_PATH`] bytes long, else
/// `fallback` (in the temporary directory).
pub fn choose_socket_path(explicit: Option<Vec<u8>>, default: Vec<u8>, fallback: Vec<u8>) -> (r: Vec<
    u8,
>)
    ensures
        r@ == match explicit {
            Some(p) => p@,
            None => if default@.len() <= MAX_SOCKET_PATH {
                default@
            } else {
                fallback@
            },
        },
{
    match explicit {
        Some(p) => p,
        None => if default.len() <= MAX_SOCKET_PATH {
            default
        } else {
            fallback
        },
    }
}

} // verus!
