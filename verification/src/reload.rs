//! The live-reload side of the watch server: the client list, the server-sent
//! events, the HTTP routes and the queue of changed templates.
use vstd::prelude::*;

use std::path::Path;
use std::sync::mpsc::Sender;

use crate::chars;

verus! {

#[verifier::external_type_specification]
#[verifier::external_body]
#[verifier::reject_recursive_types(T)]
pub struct ExSender<T>(Sender<T>);

/// Sends the reload signal `()` to one client.
///
/// Calls std's `Sender::send` and reports whether it returned `Ok`. The
/// documentation says that a send fails exactly when the receiving end has
/// been dropped, which depends on the client's own thread; so nothing is
/// stated of the result.
#[verifier::external_body]
fn send_reload(client: &Sender<()>) -> (delivered: bool) {
    client.send(()).is_ok()
}

/// The elements of `s` whose flag in `keep` is set, in order.
pub open spec fn kept<T>(s: Seq<T>, keep: Seq<bool>) -> Seq<T>
    decreases s.len(),
{
    if s.len() == 0 {
        Seq::empty()
    } else {
        let rest = kept(s.drop_last(), keep.drop_last());
        if keep.last() {
            rest.push(s.last())
        } else {
            rest
        }
    }
}

/// Manages SSE client connections
pub struct SseClients {
    clients: Vec<Sender<()>>,
}

impl View for SseClients {
    type V = Seq<Sender<()>>;

    closed spec fn view(&self) -> Seq<Sender<()>> {
        self.clients@
    }
}

impl SseClients {
    /// No client yet.
    pub fn new() -> (res: Self)
        ensures
            res@ == Seq::<Sender<()>>::empty(),
    {
        Self { clients: Vec::new() }
    }

    /// Registers one more client.
    pub fn add(&mut self, sender: Sender<()>)
        ensures
            final(self)@ == old(self)@.push(sender),
    {
        self.clients.push(sender);
    }

    /// Send to all clients, remove any that have disconnected: one send per
    /// client, in order (`send_to_each`), then the clients whose send succeeded
    /// are kept, in order (`retain_delivered`).
    pub fn broadcast_reload(&mut self)
        ensures
            exists|delivered: Seq<bool>|
                delivered.len() == old(self)@.len() && final(self)@ == kept(
                    old(self)@,
                    delivered,
                ),
    {
        let delivered = send_to_each(&self.clients);
        let mut clients: Vec<Sender<()>> = Vec::new();
        std::mem::swap(&mut clients, &mut self.clients);
        self.clients = retain_delivered(clients, &delivered);
        assert(delivered@.len() == old(self)@.len() && self@ == kept(old(self)@, delivered@));
    }
}

/// Sends the reload signal to each client once, in order, and gives for each
/// whether it was delivered.
pub fn send_to_each(clients: &Vec<Sender<()>>) -> (delivered: Vec<bool>)
    ensures
        delivered.len() == clients.len(),
{
    let mut delivered: Vec<bool> = Vec::new();
    let mut i: usize = 0;
    while i < clients.len()
        invariant
            i <= clients.len(),
            delivered.len() == i,
        decreases clients.len() - i,
    {
        delivered.push(send_reload(&clients[i]));
        i = i + 1;
    }
    delivered
}

/// The clients whose flag in `delivered` is set, in order.
pub fn retain_delivered(clients: Vec<Sender<()>>, delivered: &Vec<bool>) -> (res: Vec<Sender<()>>)
    requires
        delivered.len() == clients.len(),
    ensures
        res@ == kept(clients@, delivered@),
{
    let ghost all = clients@;
    let mut out: Vec<Sender<()>> = Vec::new();
    let mut i: usize = 0;
    assert(all.take(0) =~= Seq::<Sender<()>>::empty());
    for client in it: clients
        invariant
            it.seq() == all,
            all.len() == delivered.len(),
            i == it.index(),
            out@ == kept(all.take(it.index() as int), delivered@.take(it.index() as int)),
    {
        let ghost k = it.index() as int;
        assert(all.take(k + 1).drop_last() =~= all.take(k));
        assert(delivered@.take(k + 1).drop_last() =~= delivered@.take(k));
        assert(all.take(k + 1).last() == client);
        assert(delivered@.take(k + 1).last() == delivered@[k]);
        if delivered[i] {
            out.push(client);
        }
        i = i + 1;
    }
    assert(all.take(all.len() as int) =~= all);
    assert(delivered@.take(all.len() as int) =~= delivered@);
    out
}

// ---------------------------------------------------------------------------
// Server-sent events
// ---------------------------------------------------------------------------

/// What a client connection's wait ended with.
pub enum SseEvent {
    /// A reload signal arrived.
    Reload,
    /// No signal within the keep-alive period.
    Timeout,
    /// The signalling side is gone.
    Disconnected,
}

/// The response head and first event written to a new SSE client.
pub open spec fn sse_preamble_text() -> Seq<char> {
    "HTTP/1.1 200 OK\r\nContent-Type: text/event-stream\r\nCache-Control: no-cache\r\nConnection: keep-alive\r\nAccess-Control-Allow-Origin: *\r\n\r\ndata: connected\n\n"@
}

/// The response head and first event written to a new SSE client.
pub fn sse_preamble() -> (res: String)
    ensures
        res@ == sse_preamble_text(),
{
    let mut v = chars::chars_of("HTTP/1.1 200 OK\r\nContent-Type: text/event-stream\r\n");
    chars::extend_str(&mut v, "Cache-Control: no-cache\r\nConnection: keep-alive\r\n");
    chars::extend_str(&mut v, "Access-Control-Allow-Origin: *\r\n\r\ndata: connected\n\n");
    proof {
        reveal_strlit("HTTP/1.1 200 OK\r\nContent-Type: text/event-stream\r\n");
        reveal_strlit("Cache-Control: no-cache\r\nConnection: keep-alive\r\n");
        reveal_strlit("Access-Control-Allow-Origin: *\r\n\r\ndata: connected\n\n");
        reveal_strlit(
            "HTTP/1.1 200 OK\r\nContent-Type: text/event-stream\r\nCache-Control: no-cache\r\nConnection: keep-alive\r\nAccess-Control-Allow-Origin: *\r\n\r\ndata: connected\n\n",
        );
        assert(v@ =~= sse_preamble_text());
    }
    chars::string_of(&v)
}

/// What to write after `event`: the reload event, a keep-alive comment, or
/// nothing, the connection ending.
pub fn sse_message(event: &SseEvent) -> (res: Option<String>)
    ensures
        match event {
            SseEvent::Reload => res matches Some(m) && m@ == "data: reload\n\n"@,
            SseEvent::Timeout => res matches Some(m) && m@ == ": keepalive\n\n"@,
            SseEvent::Disconnected => res is None,
        },
{
    match event {
        SseEvent::Reload => Some(chars::string_of(&chars::chars_of("data: reload\n\n"))),
        SseEvent::Timeout => Some(chars::string_of(&chars::chars_of(": keepalive\n\n"))),
        SseEvent::Disconnected => None,
    }
}

// ---------------------------------------------------------------------------
// HTTP routes
// ---------------------------------------------------------------------------

/// The decimal digits of `n`.
pub open spec fn decimal(n: nat) -> Seq<char>
    decreases n,
{
    if n < 10 {
        seq![(48 + n) as char]
    } else {
        decimal(n / 10).push((48 + n % 10) as char)
    }
}

/// The decimal digits of `n`.
pub fn decimal_exec(n: u16) -> (res: Vec<char>)
    ensures
        res@ == decimal(n as nat),
    decreases n,
{
    if n < 10 {
        let mut v: Vec<char> = Vec::new();
        v.push((48u8 + n as u8) as char);
        v
    } else {
        let mut v = decimal_exec(n / 10);
        v.push((48u8 + (n % 10) as u8) as char);
        v
    }
}

/// The live-reload client script for a server on `port`.
pub open spec fn livereload_script(port: nat) -> Seq<char> {
    "(() => {\n    const es = new EventSource('http://localhost:"@ + decimal(port)
        + "/live-reload');\n    es.onmessage = (e) => {\n        if (e.data === 'reload') {\n            console.log('[litquid] Reloading...');\n            location.reload();\n        }\n    };\n    es.onerror = () => console.log('[litquid] Live reload disconnected, retrying...');\n})();\n"@
}

/// A plain HTTP answer.
pub struct HttpReply {
    pub status: u16,
    pub body: String,
    /// The `Content-Type` header, if one is sent.
    pub content_type: Option<String>,
    /// Whether `Access-Control-Allow-Origin: *` is sent.
    pub allow_any_origin: bool,
}

/// An HTTP answer as the library sees it: status, body, content type, CORS.
pub type ReplyModel = (u16, Seq<char>, Option<Seq<char>>, bool);

/// The answer to a request for `url` on a server on `port`; `None` for the
/// event stream, which stays open.
pub open spec fn route_spec(url: Seq<char>, port: nat) -> Option<ReplyModel> {
    if url == "/live-reload"@ {
        None
    } else if url == "/livereload.js"@ {
        Some((200, livereload_script(port), Some("application/javascript"@), true))
    } else if url == "/health"@ {
        Some((200, "ok"@, None, true))
    } else {
        Some((404, "Not Found"@, None, false))
    }
}

/// An answer as the library sees it.
pub open spec fn reply_view(r: Option<HttpReply>) -> Option<ReplyModel> {
    match r {
        Some(x) => Some((x.status, x.body@, x.content_type.deep_view(), x.allow_any_origin)),
        None => None,
    }
}

fn reply(status: u16, body: &str, content_type: Option<&str>, allow_any_origin: bool) -> (res:
    HttpReply)
    ensures
        res.status == status,
        res.body@ == body@,
        res.content_type.deep_view() == (match content_type {
            Some(c) => Some(c@),
            None => None::<Seq<char>>,
        }),
        res.allow_any_origin == allow_any_origin,
{
    let ct = match content_type {
        Some(c) => Some(chars::string_of(&chars::chars_of(c))),
        None => None,
    };
    proof {
        if ct is Some {
            assert(ct.unwrap().deep_view() == ct.unwrap()@);
        }
    }
    HttpReply {
        status,
        body: chars::string_of(&chars::chars_of(body)),
        content_type: ct,
        allow_any_origin,
    }
}

/// How the live-reload server answers a request for `url` (see `route_spec`).
pub fn route(url: &str, port: u16) -> (res: Option<HttpReply>)
    ensures
        reply_view(res) == route_spec(url@, port as nat),
{
    let u = chars::chars_of(url);
    if chars::eq_lit(&u, "/live-reload") {
        None
    } else if chars::eq_lit(&u, "/livereload.js") {
        let mut script = chars::chars_of("(() => {\n    const es = new EventSource('http://localhost:");
        let digits = decimal_exec(port);
        chars::extend(&mut script, &digits);
        chars::extend_str(
            &mut script,
            "/live-reload');\n    es.onmessage = (e) => {\n        if (e.data === 'reload') {\n            console.log('[litquid] Reloading...');\n            location.reload();\n        }\n    };\n    es.onerror = () => console.log('[litquid] Live reload disconnected, retrying...');\n})();\n",
        );
        let mut r = reply(200, "", Some("application/javascript"), true);
        r.body = chars::string_of(&script);
        Some(r)
    } else if chars::eq_lit(&u, "/health") {
        Some(reply(200, "ok", None, true))
    } else {
        Some(reply(404, "Not Found", None, false))
    }
}

// ---------------------------------------------------------------------------
// Changed templates
// ---------------------------------------------------------------------------

/// The extension of the path `p`, as std's `Path::extension` gives it.
pub uninterp spec fn path_extension(p: Seq<char>) -> Option<Seq<char>>;

/// The extension of `path` (std's `Path::extension`, converted to a `String`).
///
/// Std documents the result in terms of the path's last component; the
/// contract only names it: it depends on `path` alone.
#[verifier::external_body]
fn extension_of(path: &str) -> (res: Option<String>)
    ensures
        res.deep_view() == path_extension(path@),
{
    Path::new(path).extension().map(|e| e.to_string_lossy().into_owned())
}

/// `path` names a `.liquid` template.
pub open spec fn is_liquid_path(path: Seq<char>) -> bool {
    path_extension(path) == Some("liquid"@)
}

/// Queues a changed path: appended exactly when it names a `.liquid` file and
/// is not queued yet.
pub fn queue_change(pending: &mut Vec<String>, path: &str)
    ensures
        final(pending).deep_view() == (if is_liquid_path(path@) && !old(pending).deep_view().contains(
            path@,
        ) {
            old(pending).deep_view().push(path@)
        } else {
            old(pending).deep_view()
        }),
{
    let is_liquid = match extension_of(path) {
        Some(e) => {
            assert(e.deep_view() == e@);
            chars::eq_lit(&chars::chars_of(e.as_str()), "liquid")
        },
        None => false,
    };
    if !is_liquid {
        return;
    }
    let p = chars::chars_of(path);
    let mut k: usize = 0;
    while k < pending.len()
        invariant
            k <= pending.len(),
            pending.deep_view() == old(pending).deep_view(),
            p@ == path@,
            forall|j: int| 0 <= j < k ==> pending.deep_view()[j] != path@,
        decreases pending.len() - k,
    {
        let q = chars::chars_of(pending[k].as_str());
        assert(pending.deep_view()[k as int] == pending@[k as int]@);
        if q.len() == p.len() && chars::matches_at_exec(&q, &p, 0) {
            assert(q@.subrange(0, p@.len() as int) =~= q@);
            assert(pending.deep_view()[k as int] == path@);
            return;
        }
        proof {
            if q@ == p@ {
                assert(q@.subrange(0, p@.len() as int) =~= q@);
            }
        }
        k = k + 1;
    }
    let s = chars::string_of(&p);
    let ghost old_dv = pending.deep_view();
    pending.push(s);
    assert(pending.deep_view() =~= old_dv.push(path@));
}

/// Browsers are told to reload when at least one template was regenerated.
pub fn any_regenerated(outcomes: &Vec<bool>) -> (res: bool)
    ensures
        res == outcomes@.contains(true),
{
    let mut i: usize = 0;
    while i < outcomes.len()
        invariant
            i <= outcomes.len(),
            forall|j: int| 0 <= j < i ==> !outcomes@[j],
        decreases outcomes.len() - i,
    {
        if outcomes[i] {
            assert(outcomes@[i as int] == true);
            return true;
        }
        i = i + 1;
    }
    false
}

} // verus!
