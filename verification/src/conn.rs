//! The per-server connection core: session configuration and state, the
//! three-state keep-alive lifecycle, the registration and SASL driver, the
//! inbound dispatcher and the outbound API.

use vstd::prelude::*;

use crate::utils;
use crate::wire::{Cmd, CmdView, Msg, MsgView, OutMsg, OutView, Pfx, PfxView, SendQueue};

verus! {

broadcast use crate::wire::lemma_bytes_deep_view, crate::wire::lemma_bytes_list_deep_view;

/// Ticks of idleness after which a PING is sent.
pub const PING_TICKS: u64 = 60;

/// Ticks after a PING without any inbound traffic before the link counts as
/// dead.
pub const PONG_TICKS: u64 = 60;

/// Ticks spent disconnected before a reconnect is requested.
pub const RECONNECT_TICKS: u64 = 30;

/// SASL PLAIN credentials.
pub struct SASLAuth {
    pub username: Vec<u8>,
    pub password: Vec<u8>,
}

/// Spec-level mirror of `SASLAuth`.
#[verifier::ext_equal]
pub struct SaslView {
    pub username: Seq<u8>,
    pub password: Seq<u8>,
}

impl DeepView for SASLAuth {
    type V = SaslView;

    open spec fn deep_view(&self) -> SaslView {
        SaslView { username: self.username@, password: self.password@ }
    }
}

/// Per-server configuration handed to `Connection::new`.
pub struct ServerConfig {
    pub addr: Vec<u8>,
    pub port: u16,
    pub tls: bool,
    pub hostname: Vec<u8>,
    pub realname: Vec<u8>,
    pub pass: Option<Vec<u8>>,
    pub nicks: Vec<Vec<u8>>,
    pub join: Vec<Vec<u8>>,
    pub nickserv_ident: Option<Vec<u8>>,
    pub sasl_auth: Option<SASLAuth>,
}

/// An event for the caller.
#[derive(Debug, PartialEq, Eq)]
pub enum ConnEv {
    /// Registration completed (001 received).
    Connected,
    /// The link timed out waiting for a PONG.
    Disconnected,
    /// Enough ticks have passed disconnected; the caller should reconnect.
    WantReconnect,
    /// A stream error described by the caller's transport.
    StreamErr(Vec<u8>),
    /// An inbound message, forwarded after its side effects ran.
    Msg(Msg),
    /// The server confirmed a new nick.
    NickChange(Vec<u8>),
}

/// Spec-level mirror of `ConnEv`.
#[verifier::ext_equal]
pub enum EvView {
    Connected,
    Disconnected,
    WantReconnect,
    StreamErr(Seq<u8>),
    Msg(MsgView),
    NickChange(Seq<u8>),
}

impl DeepView for ConnEv {
    type V = EvView;

    open spec fn deep_view(&self) -> EvView {
        match self {
            ConnEv::Connected => EvView::Connected,
            ConnEv::Disconnected => EvView::Disconnected,
            ConnEv::WantReconnect => EvView::WantReconnect,
            ConnEv::StreamErr(e) => EvView::StreamErr(e@),
            ConnEv::Msg(m) => EvView::Msg(m.deep_view()),
            ConnEv::NickChange(n) => EvView::NickChange(n@),
        }
    }
}

/// The three-state lifecycle. The write queue (the caller-facing stand-in
/// for the stream) is owned by the two live states only.
pub enum ConnStatus {
    /// Healthy; `ticks_passed` counts ticks since the last inbound byte.
    PingPong { ticks_passed: u64, stream: SendQueue },
    /// A PING went out; `ticks_passed` counts ticks since then.
    WaitPong { ticks_passed: u64, stream: SendQueue },
    /// No stream; `ticks_passed` counts toward the reconnect request.
    Disconnected { ticks_passed: u64 },
}

/// Spec-level mirror of `ConnStatus`.
#[verifier::ext_equal]
pub enum StatusView {
    PingPong { ticks: u64, queue: Seq<OutView> },
    WaitPong { ticks: u64, queue: Seq<OutView> },
    Disconnected { ticks: u64 },
}

impl DeepView for ConnStatus {
    type V = StatusView;

    open spec fn deep_view(&self) -> StatusView {
        match self {
            ConnStatus::PingPong { ticks_passed, stream } => StatusView::PingPong {
                ticks: *ticks_passed,
                queue: stream@,
            },
            ConnStatus::WaitPong { ticks_passed, stream } => StatusView::WaitPong {
                ticks: *ticks_passed,
                queue: stream@,
            },
            ConnStatus::Disconnected { ticks_passed } => StatusView::Disconnected {
                ticks: *ticks_passed,
            },
        }
    }
}

/// Whether a stream is present.
pub open spec fn st_is_live(st: StatusView) -> bool {
    !(st is Disconnected)
}

/// The queued outbound commands (empty when disconnected).
pub open spec fn st_queue(st: StatusView) -> Seq<OutView> {
    match st {
        StatusView::PingPong { queue, .. } => queue,
        StatusView::WaitPong { queue, .. } => queue,
        StatusView::Disconnected { .. } => Seq::empty(),
    }
}

/// The tick counter of the current state.
pub open spec fn st_ticks(st: StatusView) -> u64 {
    match st {
        StatusView::PingPong { ticks, .. } => ticks,
        StatusView::WaitPong { ticks, .. } => ticks,
        StatusView::Disconnected { ticks } => ticks,
    }
}

/// Appends outbound commands to the queue of a live state; a disconnected
/// state is left untouched, so nothing is ever emitted there.
pub open spec fn st_push_all(st: StatusView, ms: Seq<OutView>) -> StatusView {
    match st {
        StatusView::PingPong { ticks, queue } => StatusView::PingPong {
            ticks,
            queue: queue + ms,
        },
        StatusView::WaitPong { ticks, queue } => StatusView::WaitPong {
            ticks,
            queue: queue + ms,
        },
        StatusView::Disconnected { .. } => st,
    }
}

impl ConnStatus {
    /// The write queue of a live state.
    pub fn get_stream(&self) -> (r: Option<&SendQueue>)
        ensures
            match r {
                Some(q) => st_is_live(self.deep_view()) && q@ == st_queue(self.deep_view()),
                None => !st_is_live(self.deep_view()),
            },
    {
        match self {
            ConnStatus::PingPong { stream, .. } => Some(stream),
            ConnStatus::WaitPong { stream, .. } => Some(stream),
            ConnStatus::Disconnected { .. } => None,
        }
    }

    /// The write queue of a live state, for appending.
    pub fn get_stream_mut(&mut self) -> (r: Option<&mut SendQueue>)
        ensures
            match r {
                Some(q) => {
                    &&& st_is_live(old(self).deep_view())
                    &&& q@ == st_queue(old(self).deep_view())
                    &&& final(self).deep_view() == st_with_queue(
                        old(self).deep_view(),
                        final(q)@,
                    )
                },
                None => {
                    &&& !st_is_live(old(self).deep_view())
                    &&& *final(self) == *old(self)
                },
            },
    {
        match self {
            ConnStatus::PingPong { stream, .. } => Some(stream),
            ConnStatus::WaitPong { stream, .. } => Some(stream),
            ConnStatus::Disconnected { .. } => None,
        }
    }

    /// No stream is present.
    pub fn is_disconnected(&self) -> (r: bool)
        ensures
            r == !st_is_live(self.deep_view()),
    {
        match self {
            ConnStatus::Disconnected { .. } => true,
            _ => false,
        }
    }

    /// Healthy, not waiting for a PONG.
    pub fn is_ping_pong(&self) -> (r: bool)
        ensures
            r == (self.deep_view() is PingPong),
    {
        match self {
            ConnStatus::PingPong { .. } => true,
            _ => false,
        }
    }

    /// A PING is outstanding.
    pub fn is_wait_pong(&self) -> (r: bool)
        ensures
            r == (self.deep_view() is WaitPong),
    {
        match self {
            ConnStatus::WaitPong { .. } => true,
            _ => false,
        }
    }

    /// The tick counter of the current state.
    pub fn ticks(&self) -> (r: u64)
        ensures
            r == st_ticks(self.deep_view()),
    {
        match self {
            ConnStatus::PingPong { ticks_passed, .. } => *ticks_passed,
            ConnStatus::WaitPong { ticks_passed, .. } => *ticks_passed,
            ConnStatus::Disconnected { ticks_passed } => *ticks_passed,
        }
    }
}

/// A live state with its queue replaced.
pub open spec fn st_with_queue(st: StatusView, q: Seq<OutView>) -> StatusView {
    match st {
        StatusView::PingPong { ticks, .. } => StatusView::PingPong { ticks, queue: q },
        StatusView::WaitPong { ticks, .. } => StatusView::WaitPong { ticks, queue: q },
        StatusView::Disconnected { .. } => st,
    }
}

/// Spec-level mirror of the whole connection.
#[verifier::ext_equal]
pub struct ConnView {
    pub serv_addr: Seq<u8>,
    pub serv_port: u16,
    pub tls: bool,
    pub hostname: Seq<u8>,
    pub realname: Seq<u8>,
    pub pass: Option<Seq<u8>>,
    pub nicks: Seq<Seq<u8>>,
    pub current_nick_idx: int,
    pub auto_join: Seq<Seq<u8>>,
    pub nickserv_ident: Option<Seq<u8>>,
    pub away_status: Option<Seq<u8>>,
    pub servername: Option<Seq<u8>>,
    pub usermask: Option<Seq<u8>>,
    pub status: StatusView,
    pub in_buf: Seq<u8>,
    pub sasl_auth: Option<SaslView>,
    pub nick_accepted: bool,
}

/// No byte string occurs twice.
pub open spec fn no_dups(ss: Seq<Seq<u8>>) -> bool {
    forall|i: int, j: int| 0 <= i < j < ss.len() ==> ss[i] != ss[j]
}

/// The nick currently in use.
pub open spec fn cur_nick(o: ConnView) -> Seq<u8> {
    o.nicks[o.current_nick_idx]
}

/// The connection invariant: the nick index stays in range of a non-empty
/// nick list, the auto-join list holds no duplicates, and a disconnected
/// link never claims an accepted nick.
pub open spec fn view_wf(o: ConnView) -> bool {
    &&& o.nicks.len() > 0
    &&& 0 <= o.current_nick_idx < o.nicks.len()
    &&& no_dups(o.auto_join)
    &&& (o.status is Disconnected ==> !o.nick_accepted)
}

/// The introduction: PASS when configured, then NICK and USER.
pub open spec fn intro_msgs(
    pass: Option<Seq<u8>>,
    hostname: Seq<u8>,
    realname: Seq<u8>,
    nick: Seq<u8>,
) -> Seq<OutView> {
    let base = seq![OutView::Nick { nick }, OutView::User { hostname, realname }];
    match pass {
        Some(p) => seq![OutView::Pass { pass: p }] + base,
        None => base,
    }
}

/// What `new` and `reconnect` queue right after opening: CAP LS when SASL is
/// configured (the introduction is deferred to the CAP LS response), and the
/// plain introduction otherwise.
pub open spec fn opening_msgs(o: ConnView) -> Seq<OutView> {
    if o.sasl_auth is Some {
        seq![OutView::CapLs]
    } else {
        intro_msgs(o.pass, o.hostname, o.realname, o.nicks[0])
    }
}

/// Fresh copy of a byte string.
pub fn clone_bytes(v: &Vec<u8>) -> (r: Vec<u8>)
    ensures
        r@ == v@,
{
    vstd::slice::slice_to_vec(v.as_slice())
}

/// Fresh copy of an optional byte string.
pub fn clone_opt_bytes(v: &Option<Vec<u8>>) -> (r: Option<Vec<u8>>)
    ensures
        r.deep_view() == v.deep_view(),
{
    match v {
        None => None,
        Some(b) => Some(clone_bytes(b)),
    }
}

/// Fresh copy of a list of byte strings.
pub fn clone_bytes_list(v: &Vec<Vec<u8>>) -> (r: Vec<Vec<u8>>)
    ensures
        r.deep_view() == v.deep_view(),
{
    let mut r: Vec<Vec<u8>> = Vec::new();
    let mut i: usize = 0;
    while i < v.len()
        invariant
            0 <= i <= v@.len(),
            r.deep_view() =~= v.deep_view().take(i as int),
        decreases v@.len() - i,
    {
        let ghost old_r = r.deep_view();
        let b = clone_bytes(&v[i]);
        let ghost bv = b@;
        proof {
            assert(b.deep_view() =~= bv);
        }
        r.push(b);
        proof {
            assert(r.deep_view() =~= old_r.push(bv));
            assert(r.deep_view() =~= v.deep_view().take(i as int + 1));
        }
        i = i + 1;
    }
    proof {
        assert(v.deep_view().take(v@.len() as int) =~= v.deep_view());
    }
    r
}

/// Byte-string equality.
pub fn bytes_eq(a: &[u8], b: &[u8]) -> (r: bool)
    ensures
        r == (a@ == b@),
{
    if a.len() != b.len() {
        proof {
            assert(a@ != b@);
        }
        return false;
    }
    let mut i: usize = 0;
    while i < a.len()
        invariant
            a@.len() == b@.len(),
            0 <= i <= a@.len(),
            forall|j: int| 0 <= j < i ==> a@[j] == b@[j],
        decreases a@.len() - i,
    {
        if a[i] != b[i] {
            proof {
                assert(a@ != b@);
            }
            return false;
        }
        i = i + 1;
    }
    proof {
        assert(a@ =~= b@);
    }
    true
}

/// Whether `x` occurs in the list.
pub fn contains_bytes(list: &Vec<Vec<u8>>, x: &[u8]) -> (r: bool)
    ensures
        r == list.deep_view().contains(x@),
{
    let mut i: usize = 0;
    while i < list.len()
        invariant
            0 <= i <= list@.len(),
            forall|j: int| 0 <= j < i ==> list.deep_view()[j] != x@,
        decreases list@.len() - i,
    {
        if bytes_eq(list[i].as_slice(), x) {
            proof {
                assert(list.deep_view()[i as int] == x@);
            }
            return true;
        }
        i = i + 1;
    }
    proof {
        assert(!list.deep_view().contains(x@));
    }
    false
}

/// First index of `x` in the list, if any.
pub fn index_of_bytes(list: &Vec<Vec<u8>>, x: &[u8]) -> (r: Option<usize>)
    ensures
        match r {
            Some(i) => {
                &&& 0 <= i < list@.len()
                &&& list.deep_view()[i as int] == x@
                &&& forall|j: int| 0 <= j < i ==> list.deep_view()[j] != x@
            },
            None => !list.deep_view().contains(x@),
        },
{
    let mut i: usize = 0;
    while i < list.len()
        invariant
            0 <= i <= list@.len(),
            forall|j: int| 0 <= j < i ==> list.deep_view()[j] != x@,
        decreases list@.len() - i,
    {
        if bytes_eq(list[i].as_slice(), x) {
            proof {
                assert(list.deep_view()[i as int] == x@);
            }
            return Some(i);
        }
        i = i + 1;
    }
    proof {
        assert(!list.deep_view().contains(x@));
    }
    None
}

/// First position of `[` or `,`, at or after `i`.
pub open spec fn delim_at(s: Seq<u8>, i: int) -> Option<int>
    decreases s.len() - i,
{
    if i < 0 || i >= s.len() {
        None
    } else if s[i] == 91 || s[i] == 44 {
        Some(i)
    } else {
        delim_at(s, i + 1)
    }
}

/// The servername in a RPL_YOURHOST reply: the text of the second parameter
/// (or the first, when only one is present) after the 13 bytes of
/// "Your host is ", up to the first `[` or `,`, whichever comes first.
pub open spec fn parse_servername_spec(params: Seq<Seq<u8>>) -> Option<Seq<u8>> {
    if params.len() == 0 {
        None
    } else {
        let m = if params.len() >= 2 {
            params[1]
        } else {
            params[0]
        };
        if m.len() < 13 {
            None
        } else {
            let tail = m.skip(13);
            match delim_at(tail, 0) {
                None => None,
                Some(i) => Some(tail.take(i)),
            }
        }
    }
}

/// Extracts the servername from the parameters of a RPL_YOURHOST (002)
/// reply; `None` when the text cannot be parsed, in which case the reply is
/// silently skipped.
pub fn parse_servername(params: &Vec<Vec<u8>>) -> (r: Option<Vec<u8>>)
    ensures
        r.deep_view() == parse_servername_spec(params.deep_view()),
{
    if params.len() == 0 {
        return None;
    }
    let m: &Vec<u8> = if params.len() >= 2 {
        &params[1]
    } else {
        &params[0]
    };
    proof {
        assert(m@ == (if params.deep_view().len() >= 2 {
            params.deep_view()[1]
        } else {
            params.deep_view()[0]
        }));
    }
    if m.len() < 13 {
        return None;
    }
    let ghost tail = m@.skip(13);
    let mut i: usize = 13;
    loop
        invariant_except_break
            13 <= i <= m@.len(),
            params@.len() > 0,
            m@ == (if params.deep_view().len() >= 2 {
                params.deep_view()[1]
            } else {
                params.deep_view()[0]
            }),
            m@.skip(13) == tail,
            delim_at(tail, 0) == delim_at(tail, i - 13),
        ensures
            13 <= i < m@.len(),
            m@.skip(13) == tail,
            delim_at(tail, 0) == Some(i - 13),
        decreases m@.len() - i,
    {
        if i == m.len() {
            proof {
                assert(delim_at(tail, i - 13) is None);
            }
            return None;
        }
        if m[i] == 91 || m[i] == 44 {
            proof {
                assert(tail[i - 13] == m@[i as int]);
            }
            break ;
        }
        proof {
            assert(tail[i - 13] == m@[i as int]);
        }
        i = i + 1;
    }
    let mut r: Vec<u8> = Vec::new();
    let mut j: usize = 13;
    while j < i
        invariant
            13 <= j <= i < m@.len(),
            m@.skip(13) == tail,
            r@ =~= m@.subrange(13, j as int),
        decreases i - j,
    {
        r.push(m[j]);
        j = j + 1;
    }
    proof {
        assert(r@ =~= tail.take(i - 13));
        assert(Some(r).deep_view() =~~= parse_servername_spec(params.deep_view()));
    }
    Some(r)
}

/// Queues the introduction: PASS when a password is configured, then NICK
/// and USER.
pub fn introduce(
    stream: &mut SendQueue,
    pass: Option<&Vec<u8>>,
    hostname: &Vec<u8>,
    realname: &Vec<u8>,
    nick: &Vec<u8>,
)
    ensures
        final(stream)@ =~= old(stream)@ + intro_msgs(pass.deep_view(), hostname@, realname@, nick@),
{
    if let Some(p) = pass {
        stream.push_msg(OutMsg::Pass { pass: clone_bytes(p) });
    }
    stream.push_msg(OutMsg::Nick { nick: clone_bytes(nick) });
    stream.push_msg(
        OutMsg::User { hostname: clone_bytes(hostname), realname: clone_bytes(realname) },
    );
}


/// Appends one outbound command to the queue of a live state.
pub open spec fn st_push1(st: StatusView, m: OutView) -> StatusView {
    match st {
        StatusView::PingPong { ticks, queue } => StatusView::PingPong {
            ticks,
            queue: queue.push(m),
        },
        StatusView::WaitPong { ticks, queue } => StatusView::WaitPong {
            ticks,
            queue: queue.push(m),
        },
        StatusView::Disconnected { .. } => st,
    }
}

/// Both live states collapse to `PingPong` with a fresh tick count on any
/// inbound traffic; a disconnected state stays as it is.
pub open spec fn reset_status(st: StatusView) -> StatusView {
    match st {
        StatusView::PingPong { ticks, queue } => StatusView::PingPong { ticks: 0, queue },
        StatusView::WaitPong { ticks, queue } => StatusView::PingPong { ticks: 0, queue },
        StatusView::Disconnected { .. } => st,
    }
}

/// Increment that sticks at the numeric ceiling instead of wrapping.
pub open spec fn sat_inc_spec(t: u64) -> u64 {
    if t == u64::MAX {
        t
    } else {
        (t + 1) as u64
    }
}

fn sat_inc(t: u64) -> (r: u64)
    ensures
        r == sat_inc_spec(t),
{
    if t == u64::MAX {
        t
    } else {
        t + 1
    }
}

/// The state after one tick: a healthy link PINGs (when the servername is
/// known) after `PING_TICKS` idle ticks, an unanswered PING disconnects
/// after `PONG_TICKS`, and a disconnected link asks for a reconnect (and
/// resets the nick preference) after `RECONNECT_TICKS`.
pub open spec fn tick_step(o: ConnView) -> ConnView {
    match o.status {
        StatusView::PingPong { ticks, queue } => {
            let t1 = sat_inc_spec(ticks);
            match o.servername {
                Some(sn) => if t1 == PING_TICKS {
                    (ConnView {
                        status: StatusView::WaitPong {
                            ticks: 0,
                            queue: queue.push(OutView::Ping { server: sn }),
                        },
                        ..o
                    })
                } else {
                    (ConnView { status: StatusView::PingPong { ticks: t1, queue }, ..o })
                },
                None => (ConnView { status: StatusView::PingPong { ticks: t1, queue }, ..o }),
            }
        },
        StatusView::WaitPong { ticks, queue } => {
            let t1 = sat_inc_spec(ticks);
            if t1 == PONG_TICKS {
                (ConnView {
                    status: StatusView::Disconnected { ticks: 0 },
                    nick_accepted: false,
                    ..o
                })
            } else {
                (ConnView { status: StatusView::WaitPong { ticks: t1, queue }, ..o })
            }
        },
        StatusView::Disconnected { ticks } => {
            let t1 = sat_inc_spec(ticks);
            if t1 == RECONNECT_TICKS {
                (ConnView {
                    status: StatusView::Disconnected { ticks: t1 },
                    current_nick_idx: 0,
                    ..o
                })
            } else {
                (ConnView { status: StatusView::Disconnected { ticks: t1 }, ..o })
            }
        },
    }
}

/// The events one tick emits: `Disconnected` on PONG timeout and
/// `WantReconnect` when the reconnect countdown fires.
pub open spec fn tick_events(o: ConnView) -> Seq<EvView> {
    match o.status {
        StatusView::PingPong { .. } => Seq::empty(),
        StatusView::WaitPong { ticks, .. } => if sat_inc_spec(ticks) == PONG_TICKS {
            seq![EvView::Disconnected]
        } else {
            Seq::empty()
        },
        StatusView::Disconnected { ticks } => if sat_inc_spec(ticks) == RECONNECT_TICKS {
            seq![EvView::WantReconnect]
        } else {
            Seq::empty()
        },
    }
}

/// Appends one event, tracked through the deep view.
fn push_ev(evs: &mut Vec<ConnEv>, e: ConnEv)
    ensures
        final(evs).deep_view() =~= old(evs).deep_view().push(e.deep_view()),
{
    let ghost ev = e.deep_view();
    let ghost old_v = evs.deep_view();
    evs.push(e);
    proof {
        assert(evs.deep_view() =~= old_v.push(ev));
    }
}

/// Appends `src` to `dst`.
fn append_bytes(dst: &mut Vec<u8>, src: &[u8])
    ensures
        final(dst)@ == old(dst)@ + src@,
{
    let mut i: usize = 0;
    while i < src.len()
        invariant
            0 <= i <= src@.len(),
            dst@ =~= old(dst)@ + src@.take(i as int),
        decreases src@.len() - i,
    {
        dst.push(src[i]);
        i = i + 1;
    }
    proof {
        assert(old(dst)@ + src@.take(src@.len() as int) =~= old(dst)@ + src@);
    }
}

/// The auto-join list of the caller's configuration with duplicates dropped,
/// first occurrences and their order kept.
pub open spec fn dedup(ss: Seq<Seq<u8>>) -> Seq<Seq<u8>>
    decreases ss.len(),
{
    if ss.len() == 0 {
        Seq::empty()
    } else {
        let front = dedup(ss.drop_last());
        if front.contains(ss.last()) {
            front
        } else {
            front.push(ss.last())
        }
    }
}

/// The connection core. Its whole behaviour is a function of the
/// configuration, the session state and the inbound messages; all I/O stays
/// with the caller, which feeds bytes in and drains outbound commands.
pub struct Connection {
    serv_addr: Vec<u8>,
    serv_port: u16,
    tls: bool,
    hostname: Vec<u8>,
    realname: Vec<u8>,
    pass: Option<Vec<u8>>,
    nicks: Vec<Vec<u8>>,
    current_nick_idx: usize,
    auto_join: Vec<Vec<u8>>,
    nickserv_ident: Option<Vec<u8>>,
    away_status: Option<Vec<u8>>,
    servername: Option<Vec<u8>>,
    usermask: Option<Vec<u8>>,
    status: ConnStatus,
    in_buf: Vec<u8>,
    sasl_auth: Option<SASLAuth>,
    nick_accepted: bool,
}

impl View for Connection {
    type V = ConnView;

    closed spec fn view(&self) -> ConnView {
        ConnView {
            serv_addr: self.serv_addr@,
            serv_port: self.serv_port,
            tls: self.tls,
            hostname: self.hostname@,
            realname: self.realname@,
            pass: self.pass.deep_view(),
            nicks: self.nicks.deep_view(),
            current_nick_idx: self.current_nick_idx as int,
            auto_join: self.auto_join.deep_view(),
            nickserv_ident: self.nickserv_ident.deep_view(),
            away_status: self.away_status.deep_view(),
            servername: self.servername.deep_view(),
            usermask: self.usermask.deep_view(),
            status: self.status.deep_view(),
            in_buf: self.in_buf@,
            sasl_auth: self.sasl_auth.deep_view(),
            nick_accepted: self.nick_accepted,
        }
    }
}

impl Connection {
    /// The connection invariant (`view_wf`) holds of this value.
    pub open spec fn wf(&self) -> bool {
        view_wf(self@)
    }

    /// Opens a session: the state starts healthy with the caller's
    /// configuration, the nick preference at its first entry, the auto-join
    /// list deduplicated, and the opening commands (CAP LS under SASL, the
    /// plain introduction otherwise) already queued.
    pub fn new(server: ServerConfig) -> (c: Connection)
        requires
            server.nicks@.len() > 0,
        ensures
            c.wf(),
            c@ =~~= (ConnView {
                serv_addr: server.addr@,
                serv_port: server.port,
                tls: server.tls,
                hostname: server.hostname@,
                realname: server.realname@,
                pass: server.pass.deep_view(),
                nicks: server.nicks.deep_view(),
                current_nick_idx: 0,
                auto_join: dedup(server.join.deep_view()),
                nickserv_ident: server.nickserv_ident.deep_view(),
                away_status: None,
                servername: None,
                usermask: None,
                status: StatusView::PingPong {
                    ticks: 0,
                    queue: if server.sasl_auth is Some {
                        seq![OutView::CapLs]
                    } else {
                        intro_msgs(
                            server.pass.deep_view(),
                            server.hostname@,
                            server.realname@,
                            server.nicks.deep_view()[0],
                        )
                    },
                },
                in_buf: Seq::empty(),
                sasl_auth: server.sasl_auth.deep_view(),
                nick_accepted: false,
            }),
    {
        let mut aj: Vec<Vec<u8>> = Vec::new();
        let mut i: usize = 0;
        while i < server.join.len()
            invariant
                0 <= i <= server.join@.len(),
                aj.deep_view() =~= dedup(server.join.deep_view().take(i as int)),
                no_dups(aj.deep_view()),
            decreases server.join@.len() - i,
        {
            let ghost pre = server.join.deep_view().take(i as int);
            proof {
                assert(server.join.deep_view().take(i as int + 1).drop_last() =~= pre);
                assert(server.join.deep_view().take(i as int + 1).last() == server.join.deep_view()[
                    i as int
                ]);
            }
            if !contains_bytes(&aj, server.join[i].as_slice()) {
                let ghost old_aj = aj.deep_view();
                let b = clone_bytes(&server.join[i]);
                let ghost bv = b@;
                proof {
                    assert(b.deep_view() =~= bv);
                }
                aj.push(b);
                proof {
                    assert(aj.deep_view() =~= old_aj.push(bv));
                }
            }
            i = i + 1;
        }
        proof {
            assert(server.join.deep_view().take(server.join@.len() as int) =~= server.join
                .deep_view());
        }
        let mut q = SendQueue::new();
        if server.sasl_auth.is_some() {
            q.push_msg(OutMsg::CapLs);
        } else {
            introduce(
                &mut q,
                server.pass.as_ref(),
                &server.hostname,
                &server.realname,
                &server.nicks[0],
            );
        }
        proof {
            assert(Seq::<OutView>::empty() + intro_msgs(
                server.pass.deep_view(),
                server.hostname@,
                server.realname@,
                server.nicks.deep_view()[0],
            ) =~= intro_msgs(
                server.pass.deep_view(),
                server.hostname@,
                server.realname@,
                server.nicks.deep_view()[0],
            ));
            assert(Seq::<OutView>::empty().push(OutView::CapLs) =~= seq![OutView::CapLs]);
        }
        Connection {
            serv_addr: server.addr,
            serv_port: server.port,
            tls: server.tls,
            hostname: server.hostname,
            realname: server.realname,
            pass: server.pass,
            nicks: server.nicks,
            current_nick_idx: 0,
            auto_join: aj,
            nickserv_ident: server.nickserv_ident,
            away_status: None,
            servername: None,
            usermask: None,
            status: ConnStatus::PingPong { ticks_passed: 0, stream: q },
            in_buf: Vec::new(),
            sasl_auth: server.sasl_auth,
            nick_accepted: false,
        }
    }

    /// The configured server address.
    pub fn get_serv_name(&self) -> (r: &Vec<u8>)
        ensures
            r@ == self@.serv_addr,
    {
        &self.serv_addr
    }

    /// The configured server port.
    pub fn get_serv_port(&self) -> (r: u16)
        ensures
            r == self@.serv_port,
    {
        self.serv_port
    }

    /// The nick currently in use.
    pub fn get_nick(&self) -> (r: &Vec<u8>)
        requires
            self.wf(),
        ensures
            r@ == cur_nick(self@),
    {
        &self.nicks[self.current_nick_idx]
    }

    /// Whether the server has accepted a nick (001 seen, no disconnect
    /// since).
    pub fn is_nick_accepted(&self) -> (r: bool)
        ensures
            r == self@.nick_accepted,
    {
        self.nick_accepted
    }

    /// The lifecycle state.
    pub fn status(&self) -> (r: &ConnStatus)
        ensures
            r.deep_view() == self@.status,
    {
        &self.status
    }

    /// The servername learned from RPL_YOURHOST, if any.
    pub fn get_servername(&self) -> (r: &Option<Vec<u8>>)
        ensures
            r.deep_view() == self@.servername,
    {
        &self.servername
    }

    /// The usermask the server attributes to us, if learned.
    pub fn get_usermask(&self) -> (r: &Option<Vec<u8>>)
        ensures
            r.deep_view() == self@.usermask,
    {
        &self.usermask
    }

    /// The channels to re-join on reconnect, in insertion order.
    pub fn get_auto_join(&self) -> (r: &Vec<Vec<u8>>)
        ensures
            r.deep_view() == self@.auto_join,
    {
        &self.auto_join
    }

    /// The away reason currently in force, if any.
    pub fn get_away_status(&self) -> (r: &Option<Vec<u8>>)
        ensures
            r.deep_view() == self@.away_status,
    {
        &self.away_status
    }

    /// Drains the queued outbound commands for the caller to serialize; a
    /// disconnected link has none.
    pub fn take_outgoing(&mut self) -> (r: Vec<OutMsg>)
        requires
            old(self).wf(),
        ensures
            final(self).wf(),
            r.deep_view() =~= st_queue(old(self)@.status),
            final(self)@ =~~= (ConnView {
                status: st_with_queue(old(self)@.status, Seq::empty()),
                ..old(self)@
            }),
    {
        match &mut self.status {
            ConnStatus::PingPong { stream, .. } => stream.take_msgs(),
            ConnStatus::WaitPong { stream, .. } => stream.take_msgs(),
            ConnStatus::Disconnected { .. } => Vec::new(),
        }
    }

    /// Appends one outbound command when a stream is present; a disconnected
    /// link swallows it.
    fn push_out(&mut self, m: OutMsg)
        ensures
            final(self)@ =~~= (ConnView {
                status: st_push1(old(self)@.status, m.deep_view()),
                ..old(self)@
            }),
    {
        match &mut self.status {
            ConnStatus::PingPong { stream, .. } => stream.push_msg(m),
            ConnStatus::WaitPong { stream, .. } => stream.push_msg(m),
            ConnStatus::Disconnected { .. } => {},
        }
    }

    /// Drops the stream and the accepted nick, entering the disconnected
    /// state with a fresh reconnect countdown.
    pub fn enter_disconnect_state(&mut self)
        requires
            old(self).wf(),
        ensures
            final(self).wf(),
            final(self)@ =~~= (ConnView {
                status: StatusView::Disconnected { ticks: 0 },
                nick_accepted: false,
                ..old(self)@
            }),
    {
        self.status = ConnStatus::Disconnected { ticks_passed: 0 };
        self.nick_accepted = false;
    }

    /// One coarse clock tick: drives the PING/PONG keep-alive and the
    /// reconnect countdown (see `tick_step` and `tick_events`).
    pub fn tick(&mut self, evs: &mut Vec<ConnEv>)
        requires
            old(self).wf(),
        ensures
            final(self).wf(),
            final(self)@ =~~= tick_step(old(self)@),
            final(evs).deep_view() =~~= old(evs).deep_view() + tick_events(old(self)@),
    {
        let ghost old_evs = evs.deep_view();
        let mut st = ConnStatus::Disconnected { ticks_passed: 0 };
        core::mem::swap(&mut self.status, &mut st);
        match st {
            ConnStatus::PingPong { ticks_passed, mut stream } => {
                let t1 = sat_inc(ticks_passed);
                let mut pinged = false;
                if t1 == PING_TICKS {
                    match &self.servername {
                        Some(sn) => {
                            stream.push_msg(OutMsg::Ping { server: clone_bytes(sn) });
                            pinged = true;
                        },
                        None => {},
                    }
                }
                if pinged {
                    self.status = ConnStatus::WaitPong { ticks_passed: 0, stream };
                } else {
                    self.status = ConnStatus::PingPong { ticks_passed: t1, stream };
                }
                proof {
                    assert(evs.deep_view() =~= old_evs + tick_events(old(self)@));
                }
            },
            ConnStatus::WaitPong { ticks_passed, stream } => {
                let t1 = sat_inc(ticks_passed);
                if t1 == PONG_TICKS {
                    push_ev(evs, ConnEv::Disconnected);
                    self.nick_accepted = false;
                    self.status = ConnStatus::Disconnected { ticks_passed: 0 };
                } else {
                    self.status = ConnStatus::WaitPong { ticks_passed: t1, stream };
                    proof {
                        assert(evs.deep_view() =~= old_evs + tick_events(old(self)@));
                    }
                }
            },
            ConnStatus::Disconnected { ticks_passed } => {
                let t1 = sat_inc(ticks_passed);
                if t1 == RECONNECT_TICKS {
                    push_ev(evs, ConnEv::WantReconnect);
                    self.current_nick_idx = 0;
                } else {
                    proof {
                        assert(evs.deep_view() =~= old_evs + tick_events(old(self)@));
                    }
                }
                self.status = ConnStatus::Disconnected { ticks_passed: t1 };
            },
        }
        proof {
            assert(self@ =~~= tick_step(old(self)@));
            assert(evs.deep_view() =~~= old_evs + tick_events(old(self)@));
        }
    }

    /// Any inbound traffic proves connectivity: both live states return to
    /// `PingPong` with a fresh tick count.
    pub fn reset_ticks(&mut self)
        requires
            old(self).wf(),
        ensures
            final(self).wf(),
            final(self)@ =~~= (ConnView { status: reset_status(old(self)@.status), ..old(self)@ }),
    {
        let mut st = ConnStatus::Disconnected { ticks_passed: 0 };
        core::mem::swap(&mut self.status, &mut st);
        match st {
            ConnStatus::PingPong { stream, .. } => {
                self.status = ConnStatus::PingPong { ticks_passed: 0, stream };
            },
            ConnStatus::WaitPong { stream, .. } => {
                self.status = ConnStatus::PingPong { ticks_passed: 0, stream };
            },
            ConnStatus::Disconnected { ticks_passed } => {
                self.status = ConnStatus::Disconnected { ticks_passed };
            },
        }
    }

    /// Accepts bytes the caller read from its stream: they land in the
    /// inbound buffer and reset the keep-alive ticks. A disconnected link
    /// ignores them.
    pub fn bytes_received(&mut self, buf: &[u8])
        requires
            old(self).wf(),
        ensures
            final(self).wf(),
            st_is_live(old(self)@.status) ==> final(self)@ =~~= (ConnView {
                status: reset_status(old(self)@.status),
                in_buf: old(self)@.in_buf + buf@,
                ..old(self)@
            }),
            !st_is_live(old(self)@.status) ==> final(self)@ =~~= old(self)@,
    {
        match &self.status {
            ConnStatus::Disconnected { .. } => {},
            _ => {
                self.reset_ticks();
                append_bytes(&mut self.in_buf, buf);
            },
        }
    }

    /// Removes and returns the next complete line of the inbound buffer,
    /// without its CRLF, for the caller's codec to parse.
    pub fn next_line(&mut self) -> (r: Option<Vec<u8>>)
        requires
            old(self).wf(),
        ensures
            final(self).wf(),
            match crate::wire::find_crlf(old(self)@.in_buf) {
                None => r is None && final(self)@ =~~= old(self)@,
                Some(i) => {
                    &&& r matches Some(line) && line@ == old(self)@.in_buf.take(i)
                    &&& final(self)@ =~~= (ConnView {
                        in_buf: old(self)@.in_buf.skip(i + 2),
                        ..old(self)@
                    })
                },
            },
    {
        crate::wire::read_line(&mut self.in_buf)
    }
}


/// The auto-join list with every occurrence of `c` removed, order kept.
pub open spec fn remove_chan(aj: Seq<Seq<u8>>, c: Seq<u8>) -> Seq<Seq<u8>>
    decreases aj.len(),
{
    if aj.len() == 0 {
        Seq::empty()
    } else {
        let front = remove_chan(aj.drop_last(), c);
        if aj.last() == c {
            front
        } else {
            front.push(aj.last())
        }
    }
}

/// Parting a channel removes it from the auto-join list: the channel is gone
/// afterwards, no duplicate appears, and nothing else joins the list.
pub proof fn lemma_remove_chan(aj: Seq<Seq<u8>>, c: Seq<u8>)
    ensures
        !remove_chan(aj, c).contains(c),
        no_dups(aj) ==> no_dups(remove_chan(aj, c)),
        forall|x: Seq<u8>| remove_chan(aj, c).contains(x) ==> aj.contains(x),
    decreases aj.len(),
{
    if aj.len() == 0 {
    } else {
        let front = remove_chan(aj.drop_last(), c);
        lemma_remove_chan(aj.drop_last(), c);
        let r = remove_chan(aj, c);
        assert forall|x: Seq<u8>| r.contains(x) implies aj.contains(x) by {
            let w = choose|w: int| 0 <= w < r.len() && r[w] == x;
            if aj.last() == c || w < front.len() {
                assert(front[w] == x);
                assert(front.contains(x));
                assert(aj.drop_last().contains(x));
                let v = choose|v: int| 0 <= v < aj.drop_last().len() && aj.drop_last()[v] == x;
                assert(aj[v] == x);
                assert(aj.contains(x));
            } else {
                assert(x == aj.last());
                assert(aj[aj.len() - 1] == x);
                assert(aj.contains(x));
            }
        }
        if no_dups(aj) {
            assert(no_dups(aj.drop_last()));
            if aj.last() != c {
                assert forall|i: int, j: int| 0 <= i < j < r.len() implies r[i] != r[j] by {
                    if j == r.len() - 1 {
                        assert(r[j] == aj.last());
                        assert(r[i] == front[i]);
                        assert(front.contains(front[i]));
                        assert(aj.drop_last().contains(front[i]));
                        let w = choose|w: int|
                            0 <= w < aj.drop_last().len() && aj.drop_last()[w] == front[i];
                        assert(aj[w] == front[i]);
                        assert(aj[w] != aj[aj.len() - 1]);
                    } else {
                        assert(r[i] == front[i] && r[j] == front[j]);
                    }
                }
            }
        }
    }
}

impl Connection {
    /// Queues a NICK request; the session nick changes only once the server
    /// confirms (or a collision advances the preference list).
    pub fn send_nick(&mut self, nick: &Vec<u8>)
        requires
            old(self).wf(),
        ensures
            final(self).wf(),
            final(self)@ =~~= (ConnView {
                status: st_push1(old(self)@.status, OutView::Nick { nick: nick@ }),
                ..old(self)@
            }),
    {
        self.push_out(OutMsg::Nick { nick: clone_bytes(nick) });
    }

    /// Queues a PRIVMSG. Long texts must be pre-split with `split_privmsg`.
    pub fn privmsg(&mut self, target: &Vec<u8>, msg: &Vec<u8>)
        requires
            old(self).wf(),
        ensures
            final(self).wf(),
            final(self)@ =~~= (ConnView {
                status: st_push1(
                    old(self)@.status,
                    OutView::Privmsg { target: target@, msg: msg@ },
                ),
                ..old(self)@
            }),
    {
        self.push_out(OutMsg::Privmsg { target: clone_bytes(target), msg: clone_bytes(msg) });
    }

    /// Queues a CTCP ACTION (the codec frames the body in ACTION markers).
    pub fn ctcp_action(&mut self, target: &Vec<u8>, msg: &Vec<u8>)
        requires
            old(self).wf(),
        ensures
            final(self).wf(),
            final(self)@ =~~= (ConnView {
                status: st_push1(
                    old(self)@.status,
                    OutView::CtcpAction { target: target@, msg: msg@ },
                ),
                ..old(self)@
            }),
    {
        self.push_out(OutMsg::CtcpAction { target: clone_bytes(target), msg: clone_bytes(msg) });
    }

    /// Queues a JOIN for the listed channels; the auto-join list grows only
    /// on the server's RPL_TOPIC confirmation.
    pub fn join(&mut self, chans: &Vec<Vec<u8>>)
        requires
            old(self).wf(),
        ensures
            final(self).wf(),
            final(self)@ =~~= (ConnView {
                status: st_push1(old(self)@.status, OutView::Join { chans: chans.deep_view() }),
                ..old(self)@
            }),
    {
        self.push_out(OutMsg::Join { chans: clone_bytes_list(chans) });
    }

    /// Queues a PART and removes the channel from the auto-join list. A
    /// disconnected link changes nothing.
    pub fn part(&mut self, chan: &Vec<u8>)
        requires
            old(self).wf(),
        ensures
            final(self).wf(),
            st_is_live(old(self)@.status) ==> final(self)@ =~~= (ConnView {
                status: st_push1(old(self)@.status, OutView::Part { chan: chan@ }),
                auto_join: remove_chan(old(self)@.auto_join, chan@),
                ..old(self)@
            }),
            !st_is_live(old(self)@.status) ==> final(self)@ =~~= old(self)@,
    {
        match &self.status {
            ConnStatus::Disconnected { .. } => {
                return ;
            },
            _ => {},
        }
        self.push_out(OutMsg::Part { chan: clone_bytes(chan) });
        let ghost old_aj = self.auto_join.deep_view();
        let mut kept: Vec<Vec<u8>> = Vec::new();
        let mut i: usize = 0;
        while i < self.auto_join.len()
            invariant
                0 <= i <= self.auto_join@.len(),
                kept.deep_view() =~= remove_chan(
                    self.auto_join.deep_view().take(i as int),
                    chan@,
                ),
            decreases self.auto_join@.len() - i,
        {
            let ghost pre = self.auto_join.deep_view().take(i as int);
            proof {
                assert(self.auto_join.deep_view().take(i as int + 1).drop_last() =~= pre);
                assert(self.auto_join.deep_view().take(i as int + 1).last() == self.auto_join
                    .deep_view()[i as int]);
            }
            if !bytes_eq(self.auto_join[i].as_slice(), chan.as_slice()) {
                let ghost old_kept = kept.deep_view();
                let b = clone_bytes(&self.auto_join[i]);
                let ghost bv = b@;
                proof {
                    assert(b.deep_view() =~= bv);
                }
                kept.push(b);
                proof {
                    assert(kept.deep_view() =~= old_kept.push(bv));
                }
            }
            i = i + 1;
        }
        proof {
            assert(self.auto_join.deep_view().take(self.auto_join@.len() as int) =~= self.auto_join
                .deep_view());
            lemma_remove_chan(self.auto_join.deep_view(), chan@);
        }
        self.auto_join = kept;
    }

    /// Stores the away reason (or clears it) and queues AWAY. A disconnected
    /// link changes nothing.
    pub fn away(&mut self, msg: Option<&Vec<u8>>)
        requires
            old(self).wf(),
        ensures
            final(self).wf(),
            st_is_live(old(self)@.status) ==> final(self)@ =~~= (ConnView {
                status: st_push1(old(self)@.status, OutView::Away { msg: msg.deep_view() }),
                away_status: msg.deep_view(),
                ..old(self)@
            }),
            !st_is_live(old(self)@.status) ==> final(self)@ =~~= old(self)@,
    {
        match &self.status {
            ConnStatus::Disconnected { .. } => {
                return ;
            },
            _ => {},
        }
        let copy: Option<Vec<u8>> = match msg {
            None => None,
            Some(m) => Some(clone_bytes(m)),
        };
        self.away_status = match msg {
            None => None,
            Some(m) => Some(clone_bytes(m)),
        };
        self.push_out(OutMsg::Away { msg: copy });
    }

    /// Queues a line to be written verbatim (the codec appends CRLF).
    pub fn raw_msg(&mut self, msg: &Vec<u8>)
        requires
            old(self).wf(),
        ensures
            final(self).wf(),
            final(self)@ =~~= (ConnView {
                status: st_push1(old(self)@.status, OutView::Raw { msg: msg@ }),
                ..old(self)@
            }),
    {
        self.push_out(OutMsg::Raw { msg: clone_bytes(msg) });
    }

    /// Reopens the session, optionally against a new address: the state
    /// returns to healthy with a fresh queue holding the opening commands,
    /// the nick preference resets, and no nick counts as accepted.
    pub fn reconnect(&mut self, new_serv: Option<(Vec<u8>, u16)>)
        requires
            old(self).wf(),
        ensures
            final(self).wf(),
            final(self)@ =~~= (ConnView {
                serv_addr: match new_serv {
                    Some(s) => s.0@,
                    None => old(self)@.serv_addr,
                },
                serv_port: match new_serv {
                    Some(s) => s.1,
                    None => old(self)@.serv_port,
                },
                status: StatusView::PingPong { ticks: 0, queue: opening_msgs(old(self)@) },
                current_nick_idx: 0,
                nick_accepted: false,
                ..old(self)@
            }),
    {
        self.nick_accepted = false;
        match new_serv {
            Some((a, p)) => {
                self.serv_addr = a;
                self.serv_port = p;
            },
            None => {},
        }
        let mut q = SendQueue::new();
        if self.sasl_auth.is_some() {
            q.push_msg(OutMsg::CapLs);
            proof {
                assert(Seq::<OutView>::empty().push(OutView::CapLs) =~= seq![OutView::CapLs]);
            }
        } else {
            introduce(&mut q, self.pass.as_ref(), &self.hostname, &self.realname, &self.nicks[0]);
            proof {
                assert(Seq::<OutView>::empty() + intro_msgs(
                    old(self)@.pass,
                    old(self)@.hostname,
                    old(self)@.realname,
                    old(self)@.nicks[0],
                ) =~= intro_msgs(
                    old(self)@.pass,
                    old(self)@.hostname,
                    old(self)@.realname,
                    old(self)@.nicks[0],
                ));
            }
        }
        self.status = ConnStatus::PingPong { ticks_passed: 0, stream: q };
        self.current_nick_idx = 0;
    }
}


/// The bytes of "sasl".
pub open spec fn sasl_bytes() -> Seq<u8> {
    seq![115u8, 97u8, 115u8, 108u8]
}

/// The bytes of "PLAIN".
pub open spec fn plain_bytes() -> Seq<u8> {
    seq![80u8, 76u8, 65u8, 73u8, 78u8]
}

/// The bytes of "ACK".
pub open spec fn ack_bytes() -> Seq<u8> {
    seq![65u8, 67u8, 75u8]
}

/// The bytes of "NAK".
pub open spec fn nak_bytes() -> Seq<u8> {
    seq![78u8, 65u8, 75u8]
}

/// The bytes of "LS".
pub open spec fn ls_bytes() -> Seq<u8> {
    seq![76u8, 83u8]
}

/// The bytes of "+".
pub open spec fn plus_bytes() -> Seq<u8> {
    seq![43u8]
}

/// The bytes of "NickServ".
pub open spec fn nickserv_bytes() -> Seq<u8> {
    seq![78u8, 105u8, 99u8, 107u8, 83u8, 101u8, 114u8, 118u8]
}

/// The bytes of "identify ".
pub open spec fn identify_prefix() -> Seq<u8> {
    seq![105u8, 100u8, 101u8, 110u8, 116u8, 105u8, 102u8, 121u8, 32u8]
}

fn is_ack(v: &Vec<u8>) -> (r: bool)
    ensures
        r == (v@ == ack_bytes()),
{
    let r = v.len() == 3 && v[0] == 65 && v[1] == 67 && v[2] == 75;
    proof {
        if r {
            assert(v@ =~= ack_bytes());
        }
    }
    r
}

fn is_nak(v: &Vec<u8>) -> (r: bool)
    ensures
        r == (v@ == nak_bytes()),
{
    let r = v.len() == 3 && v[0] == 78 && v[1] == 65 && v[2] == 75;
    proof {
        if r {
            assert(v@ =~= nak_bytes());
        }
    }
    r
}

fn is_ls(v: &Vec<u8>) -> (r: bool)
    ensures
        r == (v@ == ls_bytes()),
{
    let r = v.len() == 2 && v[0] == 76 && v[1] == 83;
    proof {
        if r {
            assert(v@ =~= ls_bytes());
        }
    }
    r
}

fn is_plus(v: &Vec<u8>) -> (r: bool)
    ensures
        r == (v@ == plus_bytes()),
{
    let r = v.len() == 1 && v[0] == 43;
    proof {
        if r {
            assert(v@ =~= plus_bytes());
        }
    }
    r
}

fn is_sasl(v: &Vec<u8>) -> (r: bool)
    ensures
        r == (v@ == sasl_bytes()),
{
    let r = v.len() == 4 && v[0] == 115 && v[1] == 97 && v[2] == 115 && v[3] == 108;
    proof {
        if r {
            assert(v@ =~= sasl_bytes());
        }
    }
    r
}

/// Whether "sasl" occurs among the capability parameters.
fn contains_sasl(params: &Vec<Vec<u8>>) -> (r: bool)
    ensures
        r == params.deep_view().contains(sasl_bytes()),
{
    let mut i: usize = 0;
    while i < params.len()
        invariant
            0 <= i <= params@.len(),
            forall|j: int| 0 <= j < i ==> params.deep_view()[j] != sasl_bytes(),
        decreases params@.len() - i,
    {
        if is_sasl(&params[i]) {
            proof {
                assert(params.deep_view()[i as int] == sasl_bytes());
            }
            return true;
        }
        i = i + 1;
    }
    proof {
        assert(!params.deep_view().contains(sasl_bytes()));
    }
    false
}

fn make_sasl() -> (r: Vec<u8>)
    ensures
        r@ == sasl_bytes(),
{
    let mut r: Vec<u8> = Vec::new();
    r.push(115);
    r.push(97);
    r.push(115);
    r.push(108);
    proof {
        assert(r@ =~= sasl_bytes());
    }
    r
}

fn make_plain() -> (r: Vec<u8>)
    ensures
        r@ == plain_bytes(),
{
    let mut r: Vec<u8> = Vec::new();
    r.push(80);
    r.push(76);
    r.push(65);
    r.push(73);
    r.push(78);
    proof {
        assert(r@ =~= plain_bytes());
    }
    r
}

fn make_nickserv() -> (r: Vec<u8>)
    ensures
        r@ == nickserv_bytes(),
{
    let mut r: Vec<u8> = Vec::new();
    r.push(78);
    r.push(105);
    r.push(99);
    r.push(107);
    r.push(83);
    r.push(101);
    r.push(114);
    r.push(118);
    proof {
        assert(r@ =~= nickserv_bytes());
    }
    r
}

/// The NickServ identify line for a configured password.
fn make_identify(pwd: &Vec<u8>) -> (r: Vec<u8>)
    ensures
        r@ == identify_prefix() + pwd@,
{
    let mut r: Vec<u8> = Vec::new();
    r.push(105);
    r.push(100);
    r.push(101);
    r.push(110);
    r.push(116);
    r.push(105);
    r.push(102);
    r.push(121);
    r.push(32);
    proof {
        assert(r@ =~= identify_prefix());
    }
    append_bytes(&mut r, pwd.as_slice());
    r
}

/// The usermask learned from our own JOIN: "nick!user".
fn make_join_mask(nick: &Vec<u8>, user: &Vec<u8>) -> (r: Vec<u8>)
    ensures
        r@ == nick@ + seq![33u8] + user@,
{
    let mut r = clone_bytes(nick);
    r.push(33);
    proof {
        assert(r@ =~= nick@ + seq![33u8]);
    }
    append_bytes(&mut r, user.as_slice());
    r
}

/// The usermask learned from a hidden-host reply: "nick!~hostname@host".
fn make_hidden_mask(nick: &Vec<u8>, hostname: &Vec<u8>, host: &Vec<u8>) -> (r: Vec<u8>)
    ensures
        r@ == nick@ + seq![33u8, 126u8] + hostname@ + seq![64u8] + host@,
{
    let mut r = clone_bytes(nick);
    r.push(33);
    r.push(126);
    proof {
        assert(r@ =~= nick@ + seq![33u8, 126u8]);
    }
    append_bytes(&mut r, hostname.as_slice());
    r.push(64);
    proof {
        assert(r@ =~= nick@ + seq![33u8, 126u8] + hostname@ + seq![64u8]);
    }
    append_bytes(&mut r, host.as_slice());
    proof {
        assert(r@ =~= nick@ + seq![33u8, 126u8] + hostname@ + seq![64u8] + host@);
    }
    r
}

/// The SASL PLAIN credential blob before encoding:
/// username NUL username NUL password.
pub open spec fn sasl_plain_payload(a: SaslView) -> Seq<u8> {
    a.username + seq![0u8] + a.username + seq![0u8] + a.password
}

fn make_sasl_payload(auth: &SASLAuth) -> (r: Vec<u8>)
    ensures
        r@ == sasl_plain_payload(auth.deep_view()),
{
    let mut r = clone_bytes(&auth.username);
    r.push(0);
    proof {
        assert(r@ =~= auth.username@ + seq![0u8]);
    }
    append_bytes(&mut r, auth.username.as_slice());
    r.push(0);
    proof {
        assert(r@ =~= auth.username@ + seq![0u8] + auth.username@ + seq![0u8]);
    }
    append_bytes(&mut r, auth.password.as_slice());
    proof {
        assert(r@ =~= sasl_plain_payload(auth.deep_view()));
    }
    r
}

/// What base64 encoding returns for the given bytes.
pub uninterp spec fn base64_of(s: Seq<u8>) -> Seq<u8>;

/// Relies on base64::encode (standard alphabet, with padding): the encoding
/// is a pure function of the input bytes, four output bytes for every three
/// of input.
#[verifier::external_body]
fn encode_base64(bytes: &Vec<u8>) -> (r: Vec<u8>)
    ensures
        r@ == base64_of(bytes@),
        r@.len() == 4 * ((bytes@.len() + 2) / 3),
{
    base64::encode(bytes).into_bytes()
}

/// First non-whitespace position at or after `i`.
pub open spec fn first_non_ws(s: Seq<u8>, i: int) -> int
    decreases s.len() - i,
{
    if i < 0 || i >= s.len() {
        i
    } else if !utils::is_split_ws(s[i]) {
        i
    } else {
        first_non_ws(s, i + 1)
    }
}

/// Last non-whitespace position at or below `i`, or below zero.
pub open spec fn last_non_ws(s: Seq<u8>, i: int) -> int
    decreases i + 1,
{
    if i < 0 {
        i
    } else if !utils::is_split_ws(s[i]) {
        i
    } else {
        last_non_ws(s, i - 1)
    }
}

/// `s` with leading and trailing ASCII whitespace removed.
pub open spec fn trim_spec(s: Seq<u8>) -> Seq<u8> {
    let lo = first_non_ws(s, 0);
    let hi = last_non_ws(s, s.len() - 1);
    if lo > hi {
        Seq::empty()
    } else {
        s.subrange(lo, hi + 1)
    }
}

/// Copy of `v` with leading and trailing ASCII whitespace removed.
fn trim_bytes(v: &[u8]) -> (r: Vec<u8>)
    ensures
        r@ == trim_spec(v@),
{
    let ghost sv = v@;
    let n = v.len();
    let mut lo: usize = 0;
    loop
        invariant_except_break
            0 <= lo <= n,
            n == sv.len(),
            sv == v@,
            first_non_ws(sv, 0) == first_non_ws(sv, lo as int),
        ensures
            n == sv.len(),
            sv == v@,
            first_non_ws(sv, 0) == lo as int,
            lo <= n,
        decreases n - lo,
    {
        if lo == n {
            break ;
        }
        if !utils::is_ws_byte(v[lo]) {
            break ;
        }
        lo = lo + 1;
    }
    let mut hi: usize = n;
    loop
        invariant_except_break
            0 <= hi <= n,
            n == sv.len(),
            sv == v@,
            last_non_ws(sv, sv.len() - 1) == last_non_ws(sv, hi - 1),
        ensures
            n == sv.len(),
            sv == v@,
            hi <= n,
            last_non_ws(sv, sv.len() - 1) == hi - 1,
        decreases hi,
    {
        if hi == 0 {
            break ;
        }
        if !utils::is_ws_byte(v[hi - 1]) {
            break ;
        }
        hi = hi - 1;
    }
    let mut r: Vec<u8> = Vec::new();
    if lo >= hi {
        proof {
            assert(r@ =~= trim_spec(sv));
        }
        return r;
    }
    let mut k: usize = lo;
    while k < hi
        invariant
            lo <= k <= hi <= n,
            n == sv.len(),
            sv == v@,
            r@ =~= sv.subrange(lo as int, k as int),
        decreases hi - k,
    {
        r.push(v[k]);
        k = k + 1;
    }
    proof {
        assert(first_non_ws(sv, 0) == lo as int);
        assert(last_non_ws(sv, sv.len() - 1) == hi - 1);
        assert(r@ =~= trim_spec(sv));
    }
    r
}

/// The usermask in a RPL_USERHOST reply: the text of the second parameter
/// after the first `=`, an optional `+`/`-` sign skipped, trimmed.
pub open spec fn userhost_mask(params: Seq<Seq<u8>>) -> Option<Seq<u8>> {
    if params.len() < 2 {
        None
    } else {
        let p = params[1];
        match crate::wire::find_byte_spec(p, 61) {
            None => None,
            Some(e) => {
                let j = if e + 1 < p.len() && (p[e + 1] == 43 || p[e + 1] == 45) {
                    e + 2
                } else {
                    e + 1
                };
                Some(trim_spec(p.skip(j)))
            },
        }
    }
}

/// First index of `x` in `ss` at or after `i`.
pub open spec fn idx_of_at(ss: Seq<Seq<u8>>, x: Seq<u8>, i: int) -> Option<int>
    decreases ss.len() - i,
{
    if i < 0 || i >= ss.len() {
        None
    } else if ss[i] == x {
        Some(i)
    } else {
        idx_of_at(ss, x, i + 1)
    }
}

proof fn lemma_first_index(ss: Seq<Seq<u8>>, x: Seq<u8>, i: int)
    requires
        0 <= i <= ss.len(),
        forall|j: int| 0 <= j < i ==> ss[j] != x,
    ensures
        idx_of_at(ss, x, 0) == idx_of_at(ss, x, i),
    decreases i,
{
    if i > 0 {
        lemma_first_index(ss, x, i - 1);
        assert(idx_of_at(ss, x, i - 1) == idx_of_at(ss, x, i));
    }
}

/// Adopting a confirmed nick: its first position in the preference list when
/// present, a fresh last entry otherwise.
pub open spec fn set_nick_view(o: ConnView, n: Seq<u8>) -> ConnView {
    match idx_of_at(o.nicks, n, 0) {
        Some(j) => (ConnView { current_nick_idx: j, ..o }),
        None => (ConnView { nicks: o.nicks.push(n), current_nick_idx: o.nicks.len() as int, ..o }),
    }
}

/// Advancing after a nick collision: within the preference list only the
/// index moves; at its end a new nick (the last one plus '_') is appended
/// and requested from the server.
pub open spec fn next_nick_view(o: ConnView) -> ConnView {
    if o.current_nick_idx + 1 == o.nicks.len() {
        let newn = o.nicks.last() + seq![95u8];
        (ConnView {
            status: st_push1(o.status, OutView::Nick { nick: newn }),
            nicks: o.nicks.push(newn),
            current_nick_idx: o.current_nick_idx + 1,
            ..o
        })
    } else {
        (ConnView { current_nick_idx: o.current_nick_idx + 1, ..o })
    }
}

/// The NickServ identify command, when a password is configured.
pub open spec fn nickserv_msgs(o: ConnView) -> Seq<OutView> {
    match o.nickserv_ident {
        Some(p) => seq![
            OutView::Privmsg { target: nickserv_bytes(), msg: identify_prefix() + p },
        ],
        None => Seq::empty(),
    }
}

impl Connection {
    /// Adopts a server-confirmed nick (see `set_nick_view`).
    fn set_nick(&mut self, nick: &Vec<u8>)
        requires
            old(self).wf(),
        ensures
            final(self).wf(),
            final(self)@ =~~= set_nick_view(old(self)@, nick@),
            cur_nick(final(self)@) == nick@,
    {
        match index_of_bytes(&self.nicks, nick.as_slice()) {
            Some(j) => {
                proof {
                    lemma_first_index(self.nicks.deep_view(), nick@, j as int);
                }
                self.current_nick_idx = j;
            },
            None => {
                proof {
                    assert forall|k: int|
                        0 <= k < self.nicks.deep_view().len() implies self.nicks.deep_view()[k]
                        != nick@ by {
                        assert(!self.nicks.deep_view().contains(nick@));
                    }
                    lemma_first_index(
                        self.nicks.deep_view(),
                        nick@,
                        self.nicks.deep_view().len() as int,
                    );
                }
                let ghost oldn = self.nicks.deep_view();
                let b = clone_bytes(nick);
                let ghost bv = b@;
                proof {
                    assert(b.deep_view() =~= bv);
                }
                self.nicks.push(b);
                proof {
                    assert(self.nicks.deep_view() =~= oldn.push(bv));
                }
                self.current_nick_idx = self.nicks.len() - 1;
            },
        }
    }

    /// Advances the nick preference after a collision (see
    /// `next_nick_view`).
    fn next_nick(&mut self)
        requires
            old(self).wf(),
        ensures
            final(self).wf(),
            final(self)@ =~~= next_nick_view(old(self)@),
    {
        let n = self.nicks.len();
        if self.current_nick_idx + 1 == n {
            let mut newn = clone_bytes(&self.nicks[n - 1]);
            newn.push(95);
            proof {
                assert(newn@ =~= old(self)@.nicks.last() + seq![95u8]);
            }
            self.push_out(OutMsg::Nick { nick: clone_bytes(&newn) });
            let ghost oldn = self.nicks.deep_view();
            let ghost nv = newn@;
            proof {
                assert(newn.deep_view() =~= nv);
            }
            self.nicks.push(newn);
            proof {
                assert(self.nicks.deep_view() =~= oldn.push(nv));
            }
        }
        self.current_nick_idx = self.current_nick_idx + 1;
    }

    /// Queues the NickServ identify line when a password is configured.
    fn nickserv_ident(&mut self)
        ensures
            final(self)@ =~~= (ConnView {
                status: st_push_all(old(self)@.status, nickserv_msgs(old(self)@)),
                ..old(self)@
            }),
    {
        let pwd = clone_opt_bytes(&self.nickserv_ident);
        match pwd {
            Some(p) => {
                let target = make_nickserv();
                let line = make_identify(&p);
                self.push_out(OutMsg::Privmsg { target, msg: line });
                proof {
                    assert(st_push1(
                        old(self)@.status,
                        OutView::Privmsg {
                            target: nickserv_bytes(),
                            msg: identify_prefix() + p@,
                        },
                    ) =~~= st_push_all(old(self)@.status, nickserv_msgs(old(self)@)));
                }
            },
            None => {
                proof {
                    assert(st_push_all(old(self)@.status, nickserv_msgs(old(self)@)) =~~= old(
                        self,
                    )@.status);
                }
            },
        }
    }

    /// Queues CAP END, abandoning capability negotiation.
    fn end_capability_negotiation(&mut self)
        ensures
            final(self)@ =~~= (ConnView {
                status: st_push1(old(self)@.status, OutView::CapEnd),
                ..old(self)@
            }),
    {
        self.push_out(OutMsg::CapEnd);
    }

    /// Queues the base64-encoded SASL PLAIN credentials, when both a stream
    /// and credentials are present.
    fn plain_sasl_authenticate(&mut self)
        ensures
            final(self)@ =~~= (match old(self)@.sasl_auth {
                Some(a) => (ConnView {
                    status: st_push1(
                        old(self)@.status,
                        OutView::Authenticate { param: base64_of(sasl_plain_payload(a)) },
                    ),
                    ..old(self)@
                }),
                None => old(self)@,
            }),
    {
        let payload = match &self.sasl_auth {
            Some(auth) => Some(make_sasl_payload(auth)),
            None => None,
        };
        match payload {
            Some(p) => {
                let encoded = encode_base64(&p);
                self.push_out(OutMsg::Authenticate { param: encoded });
            },
            None => {},
        }
    }
}


/// The session state after dispatching one parsed inbound message: CAP and
/// SASL drive the registration handshake, PING is answered, JOIN/396/302
/// teach the usermask, 001 accepts the nick, 002 teaches the servername,
/// 433 advances the nick preference, NICK adopts a confirmed nick, 376
/// joins the auto-join channels and re-asserts away, and 332 records a
/// confirmed join. Everything else leaves the state alone.
pub open spec fn msg_step(o: ConnView, m: MsgView) -> ConnView {
    match m.cmd {
        CmdView::Cap { subcommand, params, .. } => {
            if subcommand == ack_bytes() {
                if params.contains(sasl_bytes()) {
                    (ConnView {
                        status: st_push1(o.status, OutView::Authenticate { param: plain_bytes() }),
                        ..o
                    })
                } else {
                    o
                }
            } else if subcommand == nak_bytes() {
                (ConnView { status: st_push1(o.status, OutView::CapEnd), ..o })
            } else if subcommand == ls_bytes() {
                if st_is_live(o.status) {
                    let st1 = st_push_all(
                        o.status,
                        intro_msgs(o.pass, o.hostname, o.realname, o.nicks[0]),
                    );
                    if params.contains(sasl_bytes()) {
                        (ConnView {
                            status: st_push1(st1, OutView::CapReq { caps: seq![sasl_bytes()] }),
                            ..o
                        })
                    } else {
                        (ConnView { status: st1, ..o })
                    }
                } else {
                    o
                }
            } else {
                o
            }
        },
        CmdView::Authenticate { param } => {
            if param == plus_bytes() {
                match o.sasl_auth {
                    Some(a) => (ConnView {
                        status: st_push1(
                            o.status,
                            OutView::Authenticate { param: base64_of(sasl_plain_payload(a)) },
                        ),
                        ..o
                    }),
                    None => o,
                }
            } else {
                o
            }
        },
        CmdView::Ping { server } => (ConnView {
            status: st_push1(o.status, OutView::Pong { server }),
            ..o
        }),
        CmdView::Join { .. } => match m.pfx {
            Some(PfxView::User { nick, user }) => if nick == cur_nick(o) {
                (ConnView { usermask: Some(nick + seq![33u8] + user), ..o })
            } else {
                o
            },
            _ => o,
        },
        CmdView::Nick { nick } => match m.pfx {
            Some(PfxView::User { nick: old_nick, .. }) => if old_nick == cur_nick(o) {
                let o1 = set_nick_view(o, nick);
                (ConnView { status: st_push_all(o1.status, nickserv_msgs(o1)), ..o1 })
            } else {
                o
            },
            _ => o,
        },
        CmdView::Reply { num, params } => {
            if num == 903 || num == 904 {
                (ConnView { status: st_push1(o.status, OutView::CapEnd), ..o })
            } else if num == 396 {
                if params.len() == 3 {
                    (ConnView {
                        usermask: Some(
                            cur_nick(o) + seq![33u8, 126u8] + o.hostname + seq![64u8] + params[1],
                        ),
                        ..o
                    })
                } else {
                    o
                }
            } else if num == 302 {
                match userhost_mask(params) {
                    Some(um) => (ConnView { usermask: Some(um), ..o }),
                    None => o,
                }
            } else if num == 1 {
                (ConnView {
                    status: st_push_all(o.status, nickserv_msgs(o)),
                    nick_accepted: true,
                    ..o
                })
            } else if num == 2 {
                match parse_servername_spec(params) {
                    Some(sn) => (ConnView { servername: Some(sn), ..o }),
                    None => o,
                }
            } else if num == 433 {
                if !o.nick_accepted {
                    next_nick_view(o)
                } else {
                    o
                }
            } else if num == 376 {
                if st_is_live(o.status) {
                    let ms = (if o.auto_join.len() > 0 {
                        seq![OutView::Join { chans: o.auto_join }]
                    } else {
                        Seq::<OutView>::empty()
                    }) + (match o.away_status {
                        Some(r) => seq![OutView::Away { msg: Some(r) }],
                        None => Seq::<OutView>::empty(),
                    });
                    (ConnView { status: st_push_all(o.status, ms), ..o })
                } else {
                    o
                }
            } else if num == 332 {
                if params.len() == 2 || params.len() == 3 {
                    let chan = params[params.len() - 2];
                    if o.auto_join.contains(chan) {
                        o
                    } else {
                        (ConnView { auto_join: o.auto_join.push(chan), ..o })
                    }
                } else {
                    o
                }
            } else {
                o
            }
        },
        CmdView::Other { .. } => o,
    }
}

/// The events one message produces, in order: `Connected` and the confirmed
/// nick on 001, the new nick on a confirmed NICK change, and always, last,
/// the raw message itself.
pub open spec fn msg_events(o: ConnView, m: MsgView) -> Seq<EvView> {
    let base = match m.cmd {
        CmdView::Reply { num, .. } => if num == 1 {
            seq![EvView::Connected, EvView::NickChange(cur_nick(o))]
        } else {
            Seq::<EvView>::empty()
        },
        CmdView::Nick { nick } => match m.pfx {
            Some(PfxView::User { nick: old_nick, .. }) => if old_nick == cur_nick(o) {
                seq![EvView::NickChange(nick)]
            } else {
                Seq::<EvView>::empty()
            },
            _ => Seq::<EvView>::empty(),
        },
        _ => Seq::<EvView>::empty(),
    };
    base + seq![EvView::Msg(m)]
}

impl Connection {
    /// Dispatches one parsed inbound message: runs its side effects (see
    /// `msg_step`) and appends its events (see `msg_events`), the raw
    /// message last.
    #[verifier::rlimit(30)]
    pub fn handle_msg(&mut self, msg: Msg, evs: &mut Vec<ConnEv>)
        requires
            old(self).wf(),
            st_is_live(old(self)@.status),
        ensures
            final(self).wf(),
            final(self)@ =~~= msg_step(old(self)@, msg.deep_view()),
            final(evs).deep_view() =~~= old(evs).deep_view() + msg_events(
                old(self)@,
                msg.deep_view(),
            ),
    {
        let ghost o = old(self)@;
        let ghost mv = msg.deep_view();
        let ghost old_evs = evs.deep_view();
        match &msg.cmd {
            Cmd::Cap { subcommand, params, .. } => {
                if is_ack(subcommand) {
                    if contains_sasl(params) {
                        self.push_out(OutMsg::Authenticate { param: make_plain() });
                    }
                } else if is_nak(subcommand) {
                    self.end_capability_negotiation();
                } else if is_ls(subcommand) {
                    let has_sasl = contains_sasl(params);
                    match &mut self.status {
                        ConnStatus::Disconnected { .. } => {},
                        ConnStatus::PingPong { stream, .. } => {
                            introduce(
                                stream,
                                self.pass.as_ref(),
                                &self.hostname,
                                &self.realname,
                                &self.nicks[0],
                            );
                            if has_sasl {
                                let mut caps: Vec<Vec<u8>> = Vec::new();
                                caps.push(make_sasl());
                                proof {
                                    assert(caps.deep_view() =~= seq![sasl_bytes()]);
                                }
                                stream.push_msg(OutMsg::CapReq { caps });
                            }
                        },
                        ConnStatus::WaitPong { stream, .. } => {
                            introduce(
                                stream,
                                self.pass.as_ref(),
                                &self.hostname,
                                &self.realname,
                                &self.nicks[0],
                            );
                            if has_sasl {
                                let mut caps: Vec<Vec<u8>> = Vec::new();
                                caps.push(make_sasl());
                                proof {
                                    assert(caps.deep_view() =~= seq![sasl_bytes()]);
                                }
                                stream.push_msg(OutMsg::CapReq { caps });
                            }
                        },
                    }
                }
            },
            Cmd::Authenticate { param } => {
                if is_plus(param) {
                    self.plain_sasl_authenticate();
                }
            },
            Cmd::Ping { server } => {
                self.push_out(OutMsg::Pong { server: clone_bytes(server) });
            },
            Cmd::Join { .. } => {
                match &msg.pfx {
                    Some(Pfx::User { nick, user }) => {
                        let is_me = bytes_eq(nick.as_slice(), self.get_nick().as_slice());
                        if is_me {
                            let mask = make_join_mask(nick, user);
                            self.usermask = Some(mask);
                        }
                    },
                    _ => {},
                }
            },
            Cmd::Nick { nick } => {
                match &msg.pfx {
                    Some(Pfx::User { nick: old_nick, .. }) => {
                        let is_me = bytes_eq(old_nick.as_slice(), self.get_nick().as_slice());
                        if is_me {
                            self.set_nick(nick);
                            let newn = clone_bytes(self.get_nick());
                            push_ev(evs, ConnEv::NickChange(newn));
                            self.nickserv_ident();
                        }
                    },
                    _ => {},
                }
            },
            Cmd::Reply { num, params } => {
                let n = *num;
                if n == 903 || n == 904 {
                    self.end_capability_negotiation();
                } else if n == 396 {
                    if params.len() == 3 {
                        let mask = make_hidden_mask(self.get_nick(), &self.hostname, &params[1]);
                        self.usermask = Some(mask);
                    }
                } else if n == 302 {
                    if params.len() >= 2 {
                        let p = &params[1];
                        match crate::wire::find_byte(p.as_slice(), 61) {
                            None => {},
                            Some(e) => {
                                proof {
                                    crate::wire::lemma_find_byte_bounds(p@, 61, 0);
                                }
                                let plen = p.len();
                                let j: usize = if e + 1 < plen && (p[e + 1] == 43 || p[e + 1]
                                    == 45) {
                                    e + 2
                                } else {
                                    e + 1
                                };
                                let mut suf: Vec<u8> = Vec::new();
                                let mut k: usize = j;
                                while k < p.len()
                                    invariant
                                        j <= k <= p@.len(),
                                        suf@ =~= p@.subrange(j as int, k as int),
                                    decreases p@.len() - k,
                                {
                                    suf.push(p[k]);
                                    k = k + 1;
                                }
                                proof {
                                    assert(suf@ =~= p@.skip(j as int));
                                }
                                let t = trim_bytes(suf.as_slice());
                                self.usermask = Some(t);
                            },
                        }
                    }
                } else if n == 1 {
                    push_ev(evs, ConnEv::Connected);
                    let newn = clone_bytes(self.get_nick());
                    push_ev(evs, ConnEv::NickChange(newn));
                    self.nickserv_ident();
                    self.nick_accepted = true;
                } else if n == 2 {
                    match parse_servername(params) {
                        Some(sn) => {
                            self.servername = Some(sn);
                        },
                        None => {},
                    }
                } else if n == 433 {
                    if !self.nick_accepted {
                        self.next_nick();
                    }
                } else if n == 376 {
                    let chans = clone_bytes_list(&self.auto_join);
                    let away = clone_opt_bytes(&self.away_status);
                    match &mut self.status {
                        ConnStatus::Disconnected { .. } => {},
                        ConnStatus::PingPong { stream, .. } => {
                            if chans.len() > 0 {
                                stream.push_msg(OutMsg::Join { chans });
                            }
                            match away {
                                Some(r) => stream.push_msg(OutMsg::Away { msg: Some(r) }),
                                None => {},
                            }
                        },
                        ConnStatus::WaitPong { stream, .. } => {
                            if chans.len() > 0 {
                                stream.push_msg(OutMsg::Join { chans });
                            }
                            match away {
                                Some(r) => stream.push_msg(OutMsg::Away { msg: Some(r) }),
                                None => {},
                            }
                        },
                    }
                } else if n == 332 {
                    if params.len() == 2 || params.len() == 3 {
                        let chan = clone_bytes(&params[params.len() - 2]);
                        if !contains_bytes(&self.auto_join, chan.as_slice()) {
                            let ghost old_aj = self.auto_join.deep_view();
                            let ghost cv = chan@;
                            proof {
                                assert(chan.deep_view() =~= cv);
                            }
                            self.auto_join.push(chan);
                            proof {
                                assert(self.auto_join.deep_view() =~= old_aj.push(cv));
                                assert forall|a: int, b: int|
                                    0 <= a < b < self.auto_join.deep_view().len() implies self
                                    .auto_join.deep_view()[a] != self.auto_join.deep_view()[b] by {
                                    if b == self.auto_join.deep_view().len() - 1 {
                                        assert(old_aj[a] != cv);
                                    }
                                }
                            }
                        }
                    }
                }
            },
            Cmd::Other { .. } => {},
        }
        push_ev(evs, ConnEv::Msg(msg));
        proof {
            assert(self@ =~~= msg_step(o, mv));
            assert(evs.deep_view() =~~= old_evs + msg_events(o, mv));
        }
    }
}


/// Bytes the usermask claims of the 512-byte line: its own length when
/// known, and the worst case (9-byte username, '@', 63-byte host) otherwise.
pub open spec fn mask_cost(o: ConnView) -> int {
    match o.usermask {
        Some(m) => m.len() as int,
        None => 73,
    }
}

/// The per-line byte budget for a PRIVMSG: the 512-byte line limit less the
/// protocol framing (":, !, @" and " PRIVMSG  :" with CRLF), the current
/// nick, the caller's extra length, and the usermask cost.
pub open spec fn msg_budget(o: ConnView, extra: int) -> int {
    496 - cur_nick(o).len() - extra - mask_cost(o)
}

impl Connection {
    /// An iterator over pieces of `msg` sized to the current line budget
    /// (see `msg_budget`): each piece fits the budget and the pieces
    /// concatenate back to `msg`. The budget must be positive.
    pub fn split_privmsg(&self, extra_len: usize, msg: &[u8]) -> (it: utils::SplitIterator)
        requires
            self.wf(),
            msg_budget(self@, extra_len as int) > 0,
            utils::splittable(msg@, msg_budget(self@, extra_len as int)),
        ensures
            it.wf(),
            it.max_spec() == msg_budget(self@, extra_len as int),
            it.pending() == Some(msg@),
    {
        let nick_len = self.nicks[self.current_nick_idx].len();
        let cost: usize = match &self.usermask {
            Some(m) => m.len(),
            None => 73,
        };
        let max: usize = 496 - nick_len - extra_len - cost;
        utils::split_iterator(msg, max)
    }
}

/// While no stream is present the outbound operations change nothing and
/// emit nothing: appending to a disconnected state is the identity, and its
/// queue is empty.
pub proof fn lemma_disconnected_emits_nothing(st: StatusView, m: OutView, ms: Seq<OutView>)
    requires
        !st_is_live(st),
    ensures
        st_push1(st, m) == st,
        st_push_all(st, ms) == st,
        st_queue(st) == Seq::<OutView>::empty(),
{
}

/// Inbound traffic ends in `PingPong` with zero ticks: receiving bytes on a
/// live link resets the state, and dispatching the parsed messages keeps
/// it, since dispatch only appends to the queue.
pub proof fn lemma_read_ready_ping_pong(o: ConnView, m: MsgView)
    requires
        st_is_live(o.status),
    ensures
        reset_status(o.status) is PingPong && st_ticks(reset_status(o.status)) == 0,
        (o.status is PingPong && st_ticks(o.status) == 0) ==> (msg_step(o, m).status is PingPong
            && st_ticks(msg_step(o, m).status) == 0),
{
}

/// The accepted-nick flag rises exactly on RPL_WELCOME and on nothing else
/// a message does.
pub proof fn lemma_nick_accepted_only_welcome(o: ConnView, m: MsgView)
    ensures
        msg_step(o, m).nick_accepted == (if m.cmd matches CmdView::Reply { num: 1u16, .. } {
            true
        } else {
            o.nick_accepted
        }),
{
}

/// The accepted-nick flag falls on every disconnect: the PONG timeout and
/// `enter_disconnect_state` clear it, and a tick never raises it.
pub proof fn lemma_tick_clears_nick_accepted(o: ConnView)
    ensures
        tick_step(o).nick_accepted ==> o.nick_accepted,
        (o.status matches StatusView::WaitPong { ticks, .. } && sat_inc_spec(ticks) == PONG_TICKS)
            ==> !tick_step(o).nick_accepted,
{
}

/// A second RPL_TOPIC (or any repeated message) does not grow the auto-join
/// list further: dispatching the same message twice leaves the same
/// auto-join list as dispatching it once.
pub proof fn lemma_topic_idempotent(o: ConnView, m: MsgView)
    ensures
        msg_step(msg_step(o, m), m).auto_join == msg_step(o, m).auto_join,
{
    let o1 = msg_step(o, m);
    match m.cmd {
        CmdView::Reply { num, params } => {
            if num == 332 && (params.len() == 2 || params.len() == 3) {
                let chan = params[params.len() - 2];
                if !o.auto_join.contains(chan) {
                    assert(o1.auto_join == o.auto_join.push(chan));
                    assert(o1.auto_join[o.auto_join.len() as int] == chan);
                    assert(o1.auto_join.contains(chan));
                }
            }
        },
        _ => {},
    }
}

} // verus!
