//! Wire-level data for the connection core: parsed inbound messages, the
//! queue of outbound commands that a live connection accumulates for the
//! caller to serialize, and the line framing of the inbound byte buffer.

use vstd::prelude::*;

verus! {

/// Originator prefix of an inbound message.
#[derive(Debug, PartialEq, Eq)]
pub enum Pfx {
    Server(Vec<u8>),
    User { nick: Vec<u8>, user: Vec<u8> },
}

/// Spec-level mirror of `Pfx`.
#[verifier::ext_equal]
pub enum PfxView {
    Server(Seq<u8>),
    User { nick: Seq<u8>, user: Seq<u8> },
}

impl DeepView for Pfx {
    type V = PfxView;

    open spec fn deep_view(&self) -> PfxView {
        match self {
            Pfx::Server(s) => PfxView::Server(s@),
            Pfx::User { nick, user } => PfxView::User { nick: nick@, user: user@ },
        }
    }
}

/// Command of an inbound message, parsed by the caller's codec. Commands the
/// core does not react to arrive as `Other` and are only passed through.
#[derive(Debug, PartialEq, Eq)]
pub enum Cmd {
    Ping { server: Vec<u8> },
    Join { chan: Vec<u8> },
    Nick { nick: Vec<u8> },
    Cap { client: Vec<u8>, subcommand: Vec<u8>, params: Vec<Vec<u8>> },
    Authenticate { param: Vec<u8> },
    Reply { num: u16, params: Vec<Vec<u8>> },
    Other { cmd: Vec<u8>, params: Vec<Vec<u8>> },
}

/// Spec-level mirror of `Cmd`.
#[verifier::ext_equal]
pub enum CmdView {
    Ping { server: Seq<u8> },
    Join { chan: Seq<u8> },
    Nick { nick: Seq<u8> },
    Cap { client: Seq<u8>, subcommand: Seq<u8>, params: Seq<Seq<u8>> },
    Authenticate { param: Seq<u8> },
    Reply { num: u16, params: Seq<Seq<u8>> },
    Other { cmd: Seq<u8>, params: Seq<Seq<u8>> },
}

impl DeepView for Cmd {
    type V = CmdView;

    open spec fn deep_view(&self) -> CmdView {
        match self {
            Cmd::Ping { server } => CmdView::Ping { server: server@ },
            Cmd::Join { chan } => CmdView::Join { chan: chan@ },
            Cmd::Nick { nick } => CmdView::Nick { nick: nick@ },
            Cmd::Cap { client, subcommand, params } => CmdView::Cap {
                client: client@,
                subcommand: subcommand@,
                params: params.deep_view(),
            },
            Cmd::Authenticate { param } => CmdView::Authenticate { param: param@ },
            Cmd::Reply { num, params } => CmdView::Reply {
                num: *num,
                params: params.deep_view(),
            },
            Cmd::Other { cmd, params } => CmdView::Other {
                cmd: cmd@,
                params: params.deep_view(),
            },
        }
    }
}

/// A parsed inbound message.
#[derive(Debug, PartialEq, Eq)]
pub struct Msg {
    pub pfx: Option<Pfx>,
    pub cmd: Cmd,
}

/// Spec-level mirror of `Msg`.
#[verifier::ext_equal]
pub struct MsgView {
    pub pfx: Option<PfxView>,
    pub cmd: CmdView,
}

impl DeepView for Msg {
    type V = MsgView;

    open spec fn deep_view(&self) -> MsgView {
        MsgView { pfx: self.pfx.deep_view(), cmd: self.cmd.deep_view() }
    }
}

/// An outbound command queued on a live connection. The caller's codec turns
/// each into one CRLF-terminated wire line (`Raw` is written verbatim plus
/// CRLF).
#[derive(Debug, PartialEq, Eq)]
#[allow(inconsistent_fields)]
pub enum OutMsg {
    Pass { pass: Vec<u8> },
    Nick { nick: Vec<u8> },
    User { hostname: Vec<u8>, realname: Vec<u8> },
    Ping { server: Vec<u8> },
    Pong { server: Vec<u8> },
    Privmsg { target: Vec<u8>, msg: Vec<u8> },
    CtcpAction { target: Vec<u8>, msg: Vec<u8> },
    Join { chans: Vec<Vec<u8>> },
    Part { chan: Vec<u8> },
    Away { msg: Option<Vec<u8>> },
    CapLs,
    CapReq { caps: Vec<Vec<u8>> },
    CapEnd,
    Authenticate { param: Vec<u8> },
    Raw { msg: Vec<u8> },
}

/// Spec-level mirror of `OutMsg`.
#[verifier::ext_equal]
#[allow(inconsistent_fields)]
pub enum OutView {
    Pass { pass: Seq<u8> },
    Nick { nick: Seq<u8> },
    User { hostname: Seq<u8>, realname: Seq<u8> },
    Ping { server: Seq<u8> },
    Pong { server: Seq<u8> },
    Privmsg { target: Seq<u8>, msg: Seq<u8> },
    CtcpAction { target: Seq<u8>, msg: Seq<u8> },
    Join { chans: Seq<Seq<u8>> },
    Part { chan: Seq<u8> },
    Away { msg: Option<Seq<u8>> },
    CapLs,
    CapReq { caps: Seq<Seq<u8>> },
    CapEnd,
    Authenticate { param: Seq<u8> },
    Raw { msg: Seq<u8> },
}

impl DeepView for OutMsg {
    type V = OutView;

    open spec fn deep_view(&self) -> OutView {
        match self {
            OutMsg::Pass { pass } => OutView::Pass { pass: pass@ },
            OutMsg::Nick { nick } => OutView::Nick { nick: nick@ },
            OutMsg::User { hostname, realname } => OutView::User {
                hostname: hostname@,
                realname: realname@,
            },
            OutMsg::Ping { server } => OutView::Ping { server: server@ },
            OutMsg::Pong { server } => OutView::Pong { server: server@ },
            OutMsg::Privmsg { target, msg } => OutView::Privmsg { target: target@, msg: msg@ },
            OutMsg::CtcpAction { target, msg } => OutView::CtcpAction {
                target: target@,
                msg: msg@,
            },
            OutMsg::Join { chans } => OutView::Join { chans: chans.deep_view() },
            OutMsg::Part { chan } => OutView::Part { chan: chan@ },
            OutMsg::Away { msg } => OutView::Away { msg: msg.deep_view() },
            OutMsg::CapLs => OutView::CapLs,
            OutMsg::CapReq { caps } => OutView::CapReq { caps: caps.deep_view() },
            OutMsg::CapEnd => OutView::CapEnd,
            OutMsg::Authenticate { param } => OutView::Authenticate { param: param@ },
            OutMsg::Raw { msg } => OutView::Raw { msg: msg@ },
        }
    }
}

/// The write queue of a live connection: outbound commands in the order they
/// were produced, waiting for the caller to drain and serialize.
pub struct SendQueue {
    msgs: Vec<OutMsg>,
}

impl View for SendQueue {
    type V = Seq<OutView>;

    closed spec fn view(&self) -> Seq<OutView> {
        self.msgs.deep_view()
    }
}

impl SendQueue {
    /// An empty queue.
    pub fn new() -> (q: SendQueue)
        ensures
            q@ =~= Seq::<OutView>::empty(),
    {
        let q = SendQueue { msgs: Vec::new() };
        proof {
            assert(q.msgs.deep_view() =~= Seq::<OutView>::empty());
        }
        q
    }

    /// Appends one command.
    pub fn push_msg(&mut self, m: OutMsg)
        ensures
            final(self)@ =~= old(self)@.push(m.deep_view()),
    {
        let ghost mv = m.deep_view();
        let ghost old_v = self.msgs.deep_view();
        self.msgs.push(m);
        proof {
            assert(self.msgs.deep_view() =~= old_v.push(mv));
        }
    }

    /// Hands all queued commands to the caller, leaving the queue empty.
    pub fn take_msgs(&mut self) -> (r: Vec<OutMsg>)
        ensures
            final(self)@ =~= Seq::<OutView>::empty(),
            r.deep_view() =~= old(self)@,
    {
        let mut out: Vec<OutMsg> = Vec::new();
        core::mem::swap(&mut self.msgs, &mut out);
        proof {
            assert(self.msgs.deep_view() =~= Seq::<OutView>::empty());
        }
        out
    }
}

/// A byte string's deep view is its view.
pub broadcast proof fn lemma_bytes_deep_view(v: &Vec<u8>)
    ensures
        #[trigger] v.deep_view() == v@,
{
    assert(v.deep_view() =~= v@);
}

/// A list of byte strings deep-views elementwise.
pub broadcast proof fn lemma_bytes_list_deep_view(v: &Vec<Vec<u8>>)
    ensures
        (#[trigger] v.deep_view()).len() == v@.len(),
        forall|i: int| 0 <= i < v@.len() ==> v.deep_view()[i] == v@[i]@,
{
    assert forall|i: int| 0 <= i < v@.len() implies v.deep_view()[i] == v@[i]@ by {
        assert(v@[i].deep_view() =~= v@[i]@);
    }
}

/// First index of byte `b` in `s`, if any.
pub open spec fn find_byte_at(s: Seq<u8>, b: u8, i: int) -> Option<int>
    decreases s.len() - i,
{
    if i < 0 || i >= s.len() {
        None
    } else if s[i] == b {
        Some(i)
    } else {
        find_byte_at(s, b, i + 1)
    }
}

/// First index of byte `b` in `s`.
pub open spec fn find_byte_spec(s: Seq<u8>, b: u8) -> Option<int> {
    find_byte_at(s, b, 0)
}

/// First index of byte `b` in `buf`.
pub fn find_byte(buf: &[u8], b: u8) -> (r: Option<usize>)
    ensures
        match r {
            Some(i) => find_byte_spec(buf@, b) == Some(i as int),
            None => find_byte_spec(buf@, b) is None,
        },
{
    let mut i: usize = 0;
    loop
        invariant
            0 <= i <= buf@.len(),
            find_byte_spec(buf@, b) == find_byte_at(buf@, b, i as int),
        decreases buf@.len() - i,
    {
        if i == buf.len() {
            return None;
        }
        if buf[i] == b {
            return Some(i);
        }
        i = i + 1;
    }
}

/// A found byte lies in bounds and is the byte sought.
pub proof fn lemma_find_byte_bounds(s: Seq<u8>, b: u8, i: int)
    ensures
        find_byte_at(s, b, i) matches Some(r) ==> i <= r < s.len() && s[r] == b,
    decreases s.len() - i,
{
    if !(i < 0 || i >= s.len()) && s[i] != b {
        lemma_find_byte_bounds(s, b, i + 1);
    }
}

/// First position of a CRLF pair at or after `i`.
pub open spec fn find_crlf_at(s: Seq<u8>, i: int) -> Option<int>
    decreases s.len() - i,
{
    if i < 0 || i + 1 >= s.len() {
        None
    } else if s[i] == 13 && s[i + 1] == 10 {
        Some(i)
    } else {
        find_crlf_at(s, i + 1)
    }
}

/// First position of a CRLF pair in `s`.
pub open spec fn find_crlf(s: Seq<u8>) -> Option<int> {
    find_crlf_at(s, 0)
}

/// Removes and returns the first complete CRLF-terminated line of `buf`
/// (without its CRLF), leaving the remainder; `None` when no complete line
/// has arrived yet.
pub fn read_line(buf: &mut Vec<u8>) -> (r: Option<Vec<u8>>)
    ensures
        match find_crlf(old(buf)@) {
            None => r is None && final(buf)@ == old(buf)@,
            Some(i) => {
                &&& r matches Some(line) && line@ == old(buf)@.take(i)
                &&& final(buf)@ == old(buf)@.skip(i + 2)
            },
        },
{
    let ghost bv = buf@;
    let mut i: usize = 0;
    loop
        invariant_except_break
            *buf == *old(buf),
            bv == buf@,
            i <= bv.len(),
            find_crlf(bv) == find_crlf_at(bv, i as int),
        ensures
            *buf == *old(buf),
            bv == buf@,
            find_crlf(bv) == Some(i as int),
            i + 2 <= bv.len(),
        decreases bv.len() - i,
    {
        if i >= buf.len() || i + 1 >= buf.len() {
            proof {
                assert(find_crlf_at(bv, i as int) is None);
            }
            return None;
        }
        if buf[i] == 13 && buf[i + 1] == 10 {
            break ;
        }
        i = i + 1;
    }
    proof {
        vstd::std_specs::vec::axiom_spec_len(buf);
        assert(i + 2 <= usize::MAX);
    }
    let mut tail = buf.split_off(i + 2);
    core::mem::swap(buf, &mut tail);
    tail.truncate(i);
    proof {
        assert(tail@ =~= bv.take(i as int));
        assert(buf@ =~= bv.skip(i as int + 2));
    }
    Some(tail)
}

} // verus!
