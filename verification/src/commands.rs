//! The application's state and the decisions behind its commands: the
//! shared directory, starting and stopping the server, server addresses
//! and QR codes.
use vstd::prelude::*;
use crate::models::{opt_view, ServerInfo, ServerInfoView};
use crate::network::{generate_server_urls, local_ip_list, server_views, servers_for};
use crate::foreign::{qr_encodable, qr_refusal, qr_svg_text};
use crate::qr_service::{dark_colour, failure_text, generate_qr_svg, light_colour, qr_size_ok};

verus! {

/// The view of the application's state.
pub struct AppStateView {
    pub shared_dir: Option<Seq<char>>,
    pub server_info: Option<ServerInfoView>,
    pub running: bool,
    pub password: Option<Seq<char>>,
}

/// The application's state: the shared directory, whether a server runs
/// and where it can be reached, and the server's password.
pub struct AppState {
    shared_dir: Option<String>,
    server_info: Option<ServerInfo>,
    running: bool,
    password: Option<String>,
}

/// The view of an optional server record.
pub open spec fn info_view(o: Option<ServerInfo>) -> Option<ServerInfoView> {
    match o {
        Some(i) => Some(i@),
        None => None,
    }
}

/// What starting the server amounts to.
#[derive(Debug)]
pub enum StartPlan {
    /// A server already runs at this address.
    Existing(ServerInfo),
    /// Launch a server for `shared_dir`, on `port` or, when none was asked
    /// for, on the first free port from 8080 on.
    Launch { port: Option<u16>, shared_dir: String },
}

/// The view of a [`StartPlan`].
pub enum StartPlanView {
    Existing(ServerInfoView),
    Launch(Option<u16>, Seq<char>),
}

/// The view of a plan or of the refusal that replaced it.
pub open spec fn plan_view(r: Result<StartPlan, String>) -> Result<StartPlanView, Seq<char>> {
    match r {
        Ok(StartPlan::Existing(i)) => Ok(StartPlanView::Existing(i@)),
        Ok(StartPlan::Launch { port, shared_dir }) => Ok(StartPlanView::Launch(port, shared_dir@)),
        Err(e) => Err(e@),
    }
}

/// The state after choosing `path` as the shared directory, which exists
/// (or not) and is a directory (or not), and the answer to that request.
pub open spec fn after_set_shared_dir(s: AppStateView, path: Seq<char>, exists: bool, is_dir: bool) -> (
    AppStateView,
    Result<(), Seq<char>>,
) {
    if !exists {
        (s, Err("Path does not exist"@))
    } else if !is_dir {
        (s, Err("Path is not a directory"@))
    } else {
        (AppStateView { shared_dir: Some(path), ..s }, Ok(()))
    }
}

/// What a request to start the server on `port` amounts to.
pub open spec fn start_plan(s: AppStateView, port: Option<u16>) -> Result<StartPlanView, Seq<char>> {
    match s.shared_dir {
        None => Err("Shared directory not set"@),
        Some(dir) => if s.running {
            match s.server_info {
                Some(i) => Ok(StartPlanView::Existing(i)),
                None => Err("Server info not available"@),
            }
        } else {
            Ok(StartPlanView::Launch(port, dir))
        },
    }
}

/// The state once a server runs at `info`.
pub open spec fn after_start(s: AppStateView, info: ServerInfoView) -> AppStateView {
    AppStateView { server_info: Some(info), running: true, ..s }
}

/// The state once the server is stopped.
pub open spec fn after_stop(s: AppStateView) -> AppStateView {
    AppStateView { server_info: None, running: false, ..s }
}

/// The port to start on: the one asked for, else the free one the search
/// found.
pub open spec fn chosen_port(requested: Option<u16>, found: Option<u16>) -> Result<u16, Seq<char>> {
    match requested {
        Some(p) => Ok(p),
        None => match found {
            Some(p) => Ok(p),
            None => Err("No available port found"@),
        },
    }
}

impl View for AppState {
    type V = AppStateView;

    closed spec fn view(&self) -> AppStateView {
        AppStateView {
            shared_dir: opt_view(self.shared_dir),
            server_info: info_view(self.server_info),
            running: self.running,
            password: opt_view(self.password),
        }
    }
}

impl AppState {
    /// A state with no shared directory and no server.
    pub fn new() -> (r: AppState)
        ensures
            r@ == (AppStateView { shared_dir: None, server_info: None, running: false, password: None }),
    {
        AppState { shared_dir: None, server_info: None, running: false, password: None }
    }

    /// Chooses `path` as the shared directory; `exists` and `is_dir` tell
    /// what the filesystem knows of it.
    pub fn set_shared_dir(&mut self, path: String, exists: bool, is_dir: bool) -> (r: Result<(), String>)
        ensures
            (final(self)@, match r {
                Ok(()) => Ok(()),
                Err(e) => Err(e@),
            }) == after_set_shared_dir(old(self)@, path@, exists, is_dir),
    {
        if !exists {
            return Err(String::from_str("Path does not exist"));
        }
        if !is_dir {
            return Err(String::from_str("Path is not a directory"));
        }
        self.shared_dir = Some(path);
        Ok(())
    }

    /// The shared directory, if one was chosen.
    pub fn get_shared_dir(&self) -> (r: Option<String>)
        ensures
            opt_view(r) == self@.shared_dir,
    {
        match &self.shared_dir {
            Some(d) => Some(d.clone()),
            None => None,
        }
    }

    /// What a request to start the server on `port` amounts to: refused
    /// without a shared directory, the running server's address when one
    /// runs, else a launch.
    pub fn plan_start(&self, port: Option<u16>) -> (r: Result<StartPlan, String>)
        ensures
            plan_view(r) == start_plan(self@, port),
    {
        let dir = match &self.shared_dir {
            None => {
                return Err(String::from_str("Shared directory not set"));
            },
            Some(d) => d,
        };
        if self.running {
            return match &self.server_info {
                Some(i) => Ok(StartPlan::Existing(i.duplicate())),
                None => Err(String::from_str("Server info not available")),
            };
        }
        Ok(StartPlan::Launch { port, shared_dir: dir.clone() })
    }

    /// Records that a server now runs at `info`.
    pub fn record_started(&mut self, info: ServerInfo)
        ensures
            final(self)@ == after_start(old(self)@, info@),
    {
        self.server_info = Some(info);
        self.running = true;
    }

    /// Stops the server; tells whether one was running (and must be
    /// aborted).
    pub fn stop_server(&mut self) -> (r: bool)
        ensures
            r == old(self)@.running,
            final(self)@ == after_stop(old(self)@),
    {
        let was = self.running;
        self.running = false;
        self.server_info = None;
        was
    }

    /// Where the running server can be reached, if one runs.
    pub fn get_server_status(&self) -> (r: Option<ServerInfo>)
        ensures
            info_view(r) == self@.server_info,
    {
        match &self.server_info {
            Some(i) => Some(i.duplicate()),
            None => None,
        }
    }

    /// The password the server asks for, if any.
    pub fn server_password(&self) -> (r: Option<String>)
        ensures
            opt_view(r) == self@.password,
    {
        match &self.password {
            Some(p) => Some(p.clone()),
            None => None,
        }
    }
}

/// The port to start on: `requested`, else `found`, the free port the
/// search found.
pub fn resolve_port(requested: Option<u16>, found: Option<u16>) -> (r: Result<u16, String>)
    ensures
        match r {
            Ok(p) => Ok(p),
            Err(e) => Err(e@),
        } == chosen_port(requested, found),
{
    match requested {
        Some(p) => Ok(p),
        None => match found {
            Some(p) => Ok(p),
            None => Err(String::from_str("No available port found")),
        },
    }
}

/// The QR code of `data` as SVG, `size` pixels wide (256 when not given),
/// or the encoder's message.
pub fn generate_qr_code(data: &str, size: Option<u32>) -> (r: Result<String, String>)
    requires
        size matches Some(n) ==> qr_size_ok(n),
    ensures
        r is Ok == qr_encodable(data@),
        r matches Ok(s) ==> s@ == qr_svg_text(
            data@,
            match size {
                Some(n) => n,
                None => 256,
            },
            dark_colour(),
            light_colour(),
        ),
        r matches Err(m) ==> m@ == failure_text(qr_refusal(data@)->0),
{
    let size = match size {
        Some(n) => n,
        None => 256,
    };
    match generate_qr_svg(data, size) {
        Ok(s) => Ok(s),
        Err(e) => Err(e.message()),
    }
}

/// The server records for `port` at each of this machine's addresses
/// (with `probed`, the address a UDP probe found).
pub fn get_server_addresses(port: u16, probed: Option<String>) -> (r: Result<Vec<ServerInfo>, String>)
    ensures
        r matches Ok(v) && exists|local: Option<Seq<char>>|
            server_views(v@) == servers_for(local_ip_list(local, opt_view(probed)), port),
{
    Ok(generate_server_urls(port, probed))
}

/// Starting a server that already runs answers with the running server's
/// address.
pub proof fn lemma_start_is_idempotent(s: AppStateView, info: ServerInfoView, port: Option<u16>)
    requires
        s.shared_dir is Some,
    ensures
        start_plan(after_start(s, info), port) == Ok::<StartPlanView, Seq<char>>(
            StartPlanView::Existing(info),
        ),
{
}

/// After a stop no server runs and none is reported; a new start then
/// launches a server for the same shared directory.
pub proof fn lemma_stop_then_start_launches(s: AppStateView, port: Option<u16>)
    ensures
        after_stop(s).server_info is None,
        !after_stop(s).running,
        s.shared_dir matches Some(d) ==> start_plan(after_stop(s), port) == Ok::<
            StartPlanView,
            Seq<char>,
        >(StartPlanView::Launch(port, d)),
{
}

/// A shared directory that was accepted is the one reported afterwards; a
/// refused one leaves the state as it was.
pub proof fn lemma_shared_dir_read_back(s: AppStateView, path: Seq<char>, exists: bool, is_dir: bool)
    ensures
        after_set_shared_dir(s, path, exists, is_dir).1 is Ok ==> after_set_shared_dir(
            s,
            path,
            exists,
            is_dir,
        ).0.shared_dir == Some(path),
        after_set_shared_dir(s, path, exists, is_dir).1 is Err ==> after_set_shared_dir(
            s,
            path,
            exists,
            is_dir,
        ).0 == s,
{
}

} // verus!
