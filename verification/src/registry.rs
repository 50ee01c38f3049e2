//! The active-file registry and the listener slot: one mutable cell holding
//! the path currently served, and one flag recording whether the local HTTP
//! listener has been started. The caller owns both and wraps them in
//! whatever lock its runtime needs; every operation here is O(1) and pure.

use vstd::prelude::*;

use crate::digits::dec_str;

verus! {

/// The single slot holding the file currently being served. Absent at
/// startup; overwritten wholesale on every selection; never cleared.
pub struct FileServerState {
    current_file: Option<String>,
}

impl View for FileServerState {
    type V = Option<Seq<char>>;

    closed spec fn view(&self) -> Option<Seq<char>> {
        match self.current_file {
            Some(p) => Some(p@),
            None => None,
        }
    }
}

impl FileServerState {
    /// A registry with no file selected.
    pub fn new() -> (s: Self)
        ensures
            s@ is None,
    {
        FileServerState { current_file: None }
    }

    /// Replace the served file unconditionally; the path is not checked to
    /// exist, since existence is checked lazily at serve time.
    pub fn set_file(&mut self, file_path: String)
        ensures
            final(self)@ == Some(file_path@),
    {
        self.current_file = Some(file_path);
    }

    /// The currently served file, if one was ever selected.
    pub fn get_file(&self) -> (r: Option<String>)
        ensures
            match r {
                Some(p) => self@ == Some(p@),
                None => self@ is None,
            },
    {
        match &self.current_file {
            Some(p) => Some(p.clone()),
            None => None,
        }
    }
}

/// The base URL of the local listener on a given port.
pub open spec fn base_url_spec(port: u16) -> Seq<char> {
    "http://127.0.0.1:"@ + dec_str(port as int)
}

/// The playback URL handed to media elements.
pub open spec fn served_file_url_spec(port: u16) -> Seq<char> {
    base_url_spec(port) + "/video.mp4"@
}

/// Build `http://127.0.0.1:{port}`.
pub fn base_url(port: u16) -> (r: String)
    ensures
        r@ == base_url_spec(port),
{
    let mut s = String::from_str("http://127.0.0.1:");
    s.append(crate::digits::fmt_u64(port as u64).as_str());
    proof {
        assert(s@ =~= base_url_spec(port));
    }
    s
}

/// The URL for the currently served file on a given port.
pub fn get_served_file_url(port: u16) -> (r: String)
    ensures
        r@ == served_file_url_spec(port),
{
    let mut s = base_url(port);
    s.append("/video.mp4");
    proof {
        assert(s@ =~= served_file_url_spec(port));
    }
    s
}

/// What starting the listener does, as a function of the port it is already
/// bound to, if any: while a listener runs, report the existing listener's
/// address, ask for no spawn, and leave the slot alone; otherwise report the
/// requested port's address, ask for a spawn, and record that port. The
/// triple is (base URL, spawn needed, new state).
pub open spec fn start_spec(bound: Option<u16>, port: u16) -> (Seq<char>, bool, Option<u16>) {
    match bound {
        Some(p0) => (base_url_spec(p0), false, Some(p0)),
        None => (base_url_spec(port), true, Some(port)),
    }
}

/// The listener slot: the port the local HTTP listener was started on, if
/// it was.
pub struct ServerControl {
    bound_port: Option<u16>,
}

impl View for ServerControl {
    type V = Option<u16>;

    closed spec fn view(&self) -> Option<u16> {
        self.bound_port
    }
}

impl ServerControl {
    /// A slot with no listener running.
    pub fn new() -> (s: Self)
        ensures
            s@ is None,
    {
        ServerControl { bound_port: None }
    }

    /// Begin serving on `port`: returns the base URL and whether the caller
    /// must actually bind and spawn the listener task. When the listener
    /// already runs, the existing listener's address comes back — whatever
    /// port was asked for — and nothing is spawned.
    pub fn start(&mut self, port: u16) -> (r: (String, bool))
        ensures
            (r.0@, r.1, final(self)@) == start_spec(old(self)@, port),
    {
        match self.bound_port {
            Some(p0) => (base_url(p0), false),
            None => {
                self.bound_port = Some(port);
                (base_url(port), true)
            },
        }
    }
}

/// Starting the listener is idempotent: once a start has returned an
/// address, every later start — on that port or any other — returns the
/// same address, requests no second listener, and leaves the slot as it
/// was.
pub proof fn lemma_start_idempotent(bound: Option<u16>, port: u16, later_port: u16)
    ensures
        ({
            let (url1, spawn1, s1) = start_spec(bound, port);
            let (url2, spawn2, s2) = start_spec(s1, later_port);
            url2 == url1 && spawn2 == false && s2 == s1
        }),
{
}

} // verus!

