//! Tests for the connection core: servername parsing, the registration and
//! SASL flow, nick collision recovery, the tick cycle, the inbound
//! dispatcher's session updates, and the outbound API.

use tiny_conn::conn::{parse_servername, ConnEv, Connection, SASLAuth, ServerConfig, RECONNECT_TICKS};
use tiny_conn::wire::{Cmd, Msg, OutMsg, Pfx};

fn b(s: &str) -> Vec<u8> {
    s.as_bytes().to_vec()
}

fn bl(items: &[&str]) -> Vec<Vec<u8>> {
    items.iter().map(|s| s.as_bytes().to_vec()).collect()
}

fn config(nicks: &[&str]) -> ServerConfig {
    ServerConfig {
        addr: b("irc.example.org"),
        port: 6667,
        tls: false,
        hostname: b("myhost"),
        realname: b("My Real Name"),
        pass: None,
        nicks: bl(nicks),
        join: bl(&[]),
        nickserv_ident: None,
        sasl_auth: None,
    }
}

fn reply(num: u16, params: &[&str]) -> Msg {
    Msg { pfx: None, cmd: Cmd::Reply { num, params: bl(params) } }
}

#[test]
fn test_parse_servername_1() {
    let args = vec![
        b("tiny_test"),
        b("Your host is adams.freenode.net[94.125.182.252/8001], \
           running version ircd-seven-1.1.4"),
    ];
    assert_eq!(parse_servername(&args), Some(b("adams.freenode.net")));
}

#[test]
fn test_parse_servername_2() {
    let args = vec![
        b("tiny_test"),
        b("Your host is belew.mozilla.org, running version InspIRCd-2.0"),
    ];
    assert_eq!(parse_servername(&args), Some(b("belew.mozilla.org")));
}

#[test]
fn parse_servername_unparseable() {
    assert_eq!(parse_servername(&vec![]), None);
    assert_eq!(parse_servername(&vec![b("x"), b("short")]), None);
    assert_eq!(parse_servername(&vec![b("x"), b("Your host is nodelimiter")]), None);
}

#[test]
fn new_queues_plain_introduction() {
    let mut cfg = config(&["n1", "n2"]);
    cfg.pass = Some(b("secret"));
    let mut conn = Connection::new(cfg);
    let out = conn.take_outgoing();
    assert_eq!(
        out,
        vec![
            OutMsg::Pass { pass: b("secret") },
            OutMsg::Nick { nick: b("n1") },
            OutMsg::User { hostname: b("myhost"), realname: b("My Real Name") },
        ]
    );
    assert_eq!(conn.get_nick(), &b("n1"));
    assert!(!conn.is_nick_accepted());
    assert!(conn.status().is_ping_pong());
}

#[test]
fn servername_learned_from_002() {
    let mut conn = Connection::new(config(&["tiny_test"]));
    let mut evs: Vec<ConnEv> = Vec::new();
    conn.handle_msg(
        reply(
            2,
            &[
                "tiny_test",
                "Your host is adams.freenode.net[94.125.182.252/8001], \
                 running version ircd-seven-1.1.4",
            ],
        ),
        &mut evs,
    );
    assert_eq!(conn.get_servername(), &Some(b("adams.freenode.net")));
}

#[test]
fn sasl_negotiation_flow() {
    let mut cfg = config(&["me"]);
    cfg.sasl_auth = Some(SASLAuth { username: b("user"), password: b("pass") });
    let mut conn = Connection::new(cfg);
    // With SASL configured the introduction is deferred behind CAP LS.
    assert_eq!(conn.take_outgoing(), vec![OutMsg::CapLs]);

    let mut evs: Vec<ConnEv> = Vec::new();
    let ls = Msg {
        pfx: None,
        cmd: Cmd::Cap { client: b("*"), subcommand: b("LS"), params: bl(&["sasl"]) },
    };
    conn.handle_msg(ls, &mut evs);
    assert_eq!(
        conn.take_outgoing(),
        vec![
            OutMsg::Nick { nick: b("me") },
            OutMsg::User { hostname: b("myhost"), realname: b("My Real Name") },
            OutMsg::CapReq { caps: bl(&["sasl"]) },
        ]
    );

    let ack = Msg {
        pfx: None,
        cmd: Cmd::Cap { client: b("*"), subcommand: b("ACK"), params: bl(&["sasl"]) },
    };
    conn.handle_msg(ack, &mut evs);
    assert_eq!(conn.take_outgoing(), vec![OutMsg::Authenticate { param: b("PLAIN") }]);

    let plus = Msg { pfx: None, cmd: Cmd::Authenticate { param: b("+") } };
    conn.handle_msg(plus, &mut evs);
    let expected = base64::encode("user\u{0}user\u{0}pass").into_bytes();
    assert_eq!(conn.take_outgoing(), vec![OutMsg::Authenticate { param: expected }]);

    conn.handle_msg(reply(903, &["me", "SASL authentication successful"]), &mut evs);
    assert_eq!(conn.take_outgoing(), vec![OutMsg::CapEnd]);
}

#[test]
fn cap_nak_ends_negotiation() {
    let mut cfg = config(&["me"]);
    cfg.sasl_auth = Some(SASLAuth { username: b("user"), password: b("pass") });
    let mut conn = Connection::new(cfg);
    conn.take_outgoing();
    let mut evs: Vec<ConnEv> = Vec::new();
    let nak = Msg {
        pfx: None,
        cmd: Cmd::Cap { client: b("*"), subcommand: b("NAK"), params: bl(&["sasl"]) },
    };
    conn.handle_msg(nak, &mut evs);
    assert_eq!(conn.take_outgoing(), vec![OutMsg::CapEnd]);
}

#[test]
fn nick_collision_escalation() {
    let mut conn = Connection::new(config(&["a", "b"]));
    conn.take_outgoing();
    let mut evs: Vec<ConnEv> = Vec::new();

    // First 433: the next preference is adopted without a send.
    conn.handle_msg(reply(433, &["*", "a", "Nickname is already in use"]), &mut evs);
    assert_eq!(conn.get_nick(), &b("b"));
    assert_eq!(conn.take_outgoing(), vec![]);

    // Second 433: the list is exhausted, "b_" is appended and requested.
    conn.handle_msg(reply(433, &["*", "b", "Nickname is already in use"]), &mut evs);
    assert_eq!(conn.get_nick(), &b("b_"));
    assert_eq!(conn.take_outgoing(), vec![OutMsg::Nick { nick: b("b_") }]);

    // Third 433: "b__".
    conn.handle_msg(reply(433, &["*", "b_", "Nickname is already in use"]), &mut evs);
    assert_eq!(conn.get_nick(), &b("b__"));
    assert_eq!(conn.take_outgoing(), vec![OutMsg::Nick { nick: b("b__") }]);
}

#[test]
fn welcome_accepts_nick_and_identifies() {
    let mut cfg = config(&["a"]);
    cfg.nickserv_ident = Some(b("hunter2"));
    let mut conn = Connection::new(cfg);
    conn.take_outgoing();
    let mut evs: Vec<ConnEv> = Vec::new();
    let welcome = reply(1, &["a", "Welcome to the network"]);
    conn.handle_msg(welcome, &mut evs);
    assert!(conn.is_nick_accepted());
    assert_eq!(
        evs,
        vec![
            ConnEv::Connected,
            ConnEv::NickChange(b("a")),
            ConnEv::Msg(reply(1, &["a", "Welcome to the network"])),
        ]
    );
    assert_eq!(
        conn.take_outgoing(),
        vec![OutMsg::Privmsg { target: b("NickServ"), msg: b("identify hunter2") }]
    );
}

#[test]
fn ping_answered_with_pong() {
    let mut conn = Connection::new(config(&["a"]));
    conn.take_outgoing();
    let mut evs: Vec<ConnEv> = Vec::new();
    let ping = Msg { pfx: None, cmd: Cmd::Ping { server: b("irc.example.org") } };
    conn.handle_msg(ping, &mut evs);
    assert_eq!(conn.take_outgoing(), vec![OutMsg::Pong { server: b("irc.example.org") }]);
}

#[test]
fn usermask_from_own_join() {
    let mut conn = Connection::new(config(&["a"]));
    conn.take_outgoing();
    let mut evs: Vec<ConnEv> = Vec::new();
    let join = Msg {
        pfx: Some(Pfx::User { nick: b("a"), user: b("~user") }),
        cmd: Cmd::Join { chan: b("#tiny") },
    };
    conn.handle_msg(join, &mut evs);
    assert_eq!(conn.get_usermask(), &Some(b("a!~user")));
}

#[test]
fn usermask_from_hidden_host() {
    let mut conn = Connection::new(config(&["osa1"]));
    conn.take_outgoing();
    let mut evs: Vec<ConnEv> = Vec::new();
    conn.handle_msg(
        reply(396, &["osa1", "haskell/developer/osa1", "is now your hidden host"]),
        &mut evs,
    );
    assert_eq!(conn.get_usermask(), &Some(b("osa1!~myhost@haskell/developer/osa1")));
}

#[test]
fn usermask_from_userhost_reply() {
    let mut conn = Connection::new(config(&["osa1"]));
    conn.take_outgoing();
    let mut evs: Vec<ConnEv> = Vec::new();
    conn.handle_msg(reply(302, &["osa1", "osa1=+omer@moz-s8a.9ac.93.91.IP "]), &mut evs);
    assert_eq!(conn.get_usermask(), &Some(b("omer@moz-s8a.9ac.93.91.IP")));
}

#[test]
fn end_of_motd_joins_and_reapplies_away() {
    let mut cfg = config(&["a"]);
    cfg.join = bl(&["#one", "#two"]);
    let mut conn = Connection::new(cfg);
    conn.take_outgoing();
    let mut evs: Vec<ConnEv> = Vec::new();
    conn.away(Some(&b("afk")));
    conn.take_outgoing();
    conn.handle_msg(reply(376, &["a", "End of /MOTD command"]), &mut evs);
    assert_eq!(
        conn.take_outgoing(),
        vec![
            OutMsg::Join { chans: bl(&["#one", "#two"]) },
            OutMsg::Away { msg: Some(b("afk")) },
        ]
    );
}

#[test]
fn topic_grows_auto_join_once() {
    let mut conn = Connection::new(config(&["a"]));
    conn.take_outgoing();
    let mut evs: Vec<ConnEv> = Vec::new();
    conn.handle_msg(reply(332, &["#chan", "the topic"]), &mut evs);
    assert_eq!(conn.get_auto_join(), &bl(&["#chan"]));
    // A second 332 for the same channel does not duplicate it.
    conn.handle_msg(reply(332, &["#chan", "the topic"]), &mut evs);
    assert_eq!(conn.get_auto_join(), &bl(&["#chan"]));
    // The three-parameter form takes the second-to-last parameter.
    conn.handle_msg(reply(332, &["a", "#more", "another topic"]), &mut evs);
    assert_eq!(conn.get_auto_join(), &bl(&["#chan", "#more"]));
}

#[test]
fn part_removes_channel_from_auto_join() {
    let mut cfg = config(&["a"]);
    cfg.join = bl(&["#one", "#two"]);
    let mut conn = Connection::new(cfg);
    conn.take_outgoing();
    conn.part(&b("#one"));
    assert_eq!(conn.get_auto_join(), &bl(&["#two"]));
    assert_eq!(conn.take_outgoing(), vec![OutMsg::Part { chan: b("#one") }]);
}

#[test]
fn duplicate_join_config_deduplicated() {
    let mut cfg = config(&["a"]);
    cfg.join = bl(&["#one", "#two", "#one"]);
    let conn = Connection::new(cfg);
    assert_eq!(conn.get_auto_join(), &bl(&["#one", "#two"]));
}

#[test]
fn disconnected_outbound_is_noop() {
    let mut cfg = config(&["a"]);
    cfg.join = bl(&["#one"]);
    let mut conn = Connection::new(cfg);
    conn.take_outgoing();
    conn.enter_disconnect_state();
    assert!(conn.status().is_disconnected());
    conn.privmsg(&b("#one"), &b("hello"));
    conn.ctcp_action(&b("#one"), &b("waves"));
    conn.join(&bl(&["#three"]));
    conn.part(&b("#one"));
    conn.away(Some(&b("afk")));
    conn.raw_msg(&b("MOTD"));
    conn.send_nick(&b("other"));
    assert_eq!(conn.take_outgoing(), vec![]);
    assert_eq!(conn.get_auto_join(), &bl(&["#one"]));
    assert_eq!(conn.get_away_status(), &None);
    assert_eq!(conn.get_nick(), &b("a"));
}

#[test]
fn tick_cycle_ping_timeout_reconnect() {
    let mut conn = Connection::new(config(&["a", "b"]));
    conn.take_outgoing();
    let mut evs: Vec<ConnEv> = Vec::new();
    conn.handle_msg(
        reply(2, &["a", "Your host is irc.example, running version x"]),
        &mut evs,
    );
    assert_eq!(conn.get_servername(), &Some(b("irc.example")));
    // Pretend a collision moved us off the first nick, to see the reset.
    conn.handle_msg(reply(433, &["*", "a", "in use"]), &mut evs);
    assert_eq!(conn.get_nick(), &b("b"));
    evs.clear();

    for i in 0..60 {
        assert!(conn.status().is_ping_pong());
        assert_eq!(conn.status().ticks(), i);
        conn.tick(&mut evs);
    }
    assert_eq!(conn.take_outgoing(), vec![OutMsg::Ping { server: b("irc.example") }]);
    assert!(conn.status().is_wait_pong());
    assert_eq!(conn.status().ticks(), 0);
    assert_eq!(evs, vec![]);

    for _ in 0..60 {
        conn.tick(&mut evs);
    }
    assert_eq!(evs, vec![ConnEv::Disconnected]);
    assert!(conn.status().is_disconnected());
    assert_eq!(conn.status().ticks(), 0);
    evs.clear();

    for _ in 0..RECONNECT_TICKS {
        conn.tick(&mut evs);
    }
    assert_eq!(evs, vec![ConnEv::WantReconnect]);
    assert_eq!(conn.get_nick(), &b("a"));
}

#[test]
fn inbound_bytes_reset_wait_pong() {
    let mut conn = Connection::new(config(&["a"]));
    conn.take_outgoing();
    let mut evs: Vec<ConnEv> = Vec::new();
    conn.handle_msg(reply(2, &["a", "Your host is irc.example, v"]), &mut evs);
    for _ in 0..60 {
        conn.tick(&mut evs);
    }
    assert!(conn.status().is_wait_pong());
    conn.bytes_received(b"PING :irc.example\r\n");
    assert!(conn.status().is_ping_pong());
    assert_eq!(conn.status().ticks(), 0);
    let line = conn.next_line();
    assert_eq!(line, Some(b("PING :irc.example")));
    assert_eq!(conn.next_line(), None);
}

#[test]
fn nick_change_confirmed_by_server() {
    let mut cfg = config(&["a"]);
    cfg.nickserv_ident = Some(b("pw"));
    let mut conn = Connection::new(cfg);
    conn.take_outgoing();
    let mut evs: Vec<ConnEv> = Vec::new();
    let change = Msg {
        pfx: Some(Pfx::User { nick: b("a"), user: b("~u") }),
        cmd: Cmd::Nick { nick: b("newme") },
    };
    conn.handle_msg(change, &mut evs);
    assert_eq!(conn.get_nick(), &b("newme"));
    assert_eq!(evs[0], ConnEv::NickChange(b("newme")));
    assert_eq!(
        conn.take_outgoing(),
        vec![OutMsg::Privmsg { target: b("NickServ"), msg: b("identify pw") }]
    );
}

#[test]
fn nick_change_for_other_user_ignored() {
    let mut conn = Connection::new(config(&["a"]));
    conn.take_outgoing();
    let mut evs: Vec<ConnEv> = Vec::new();
    let change = Msg {
        pfx: Some(Pfx::User { nick: b("someone"), user: b("~u") }),
        cmd: Cmd::Nick { nick: b("other") },
    };
    conn.handle_msg(change, &mut evs);
    assert_eq!(conn.get_nick(), &b("a"));
    assert_eq!(evs.len(), 1);
}

#[test]
fn reconnect_requeues_introduction() {
    let mut conn = Connection::new(config(&["a", "b"]));
    conn.take_outgoing();
    let mut evs: Vec<ConnEv> = Vec::new();
    conn.handle_msg(reply(433, &["*", "a", "in use"]), &mut evs);
    conn.handle_msg(reply(1, &["b", "welcome"]), &mut evs);
    assert!(conn.is_nick_accepted());
    conn.take_outgoing();
    conn.reconnect(Some((b("irc.other.net"), 7000)));
    assert!(!conn.is_nick_accepted());
    assert_eq!(conn.get_serv_name(), &b("irc.other.net"));
    assert_eq!(conn.get_nick(), &b("a"));
    assert_eq!(
        conn.take_outgoing(),
        vec![
            OutMsg::Nick { nick: b("a") },
            OutMsg::User { hostname: b("myhost"), realname: b("My Real Name") },
        ]
    );
}

#[test]
fn split_privmsg_uses_session_budget() {
    let mut conn = Connection::new(config(&["n"]));
    conn.take_outgoing();
    let mut evs: Vec<ConnEv> = Vec::new();
    let join = Msg {
        pfx: Some(Pfx::User { nick: b("n"), user: b("u") }),
        cmd: Cmd::Join { chan: b("#c") },
    };
    conn.handle_msg(join, &mut evs);
    assert_eq!(conn.get_usermask(), &Some(b("n!u")));
    // budget = 496 - |nick| - extra - |usermask| = 496 - 1 - 487 - 3 = 5
    let mut it = conn.split_privmsg(487, "yada yada yada".as_bytes());
    let mut parts: Vec<Vec<u8>> = Vec::new();
    while let Some(p) = it.next() {
        parts.push(p);
    }
    assert_eq!(parts, bl(&["yada ", "yada ", "yada"]));
}

#[test]
fn malformed_replies_are_skipped() {
    let mut conn = Connection::new(config(&["a"]));
    conn.take_outgoing();
    let mut evs: Vec<ConnEv> = Vec::new();
    // 396 with the wrong parameter count teaches nothing.
    conn.handle_msg(reply(396, &["a", "some/host"]), &mut evs);
    assert_eq!(conn.get_usermask(), &None);
    // 302 without '=' teaches nothing.
    conn.handle_msg(reply(302, &["a", "garbage without equals"]), &mut evs);
    assert_eq!(conn.get_usermask(), &None);
    // 332 with an unexpected parameter count grows nothing.
    conn.handle_msg(reply(332, &["#only"]), &mut evs);
    conn.handle_msg(reply(332, &["a", "b", "c", "d"]), &mut evs);
    let empty: Vec<Vec<u8>> = vec![];
    assert_eq!(conn.get_auto_join(), &empty);
    // An unparseable 002 leaves the servername unknown.
    conn.handle_msg(reply(2, &["a", "short"]), &mut evs);
    assert_eq!(conn.get_servername(), &None);
    // Each message still passes through as an event.
    assert_eq!(evs.len(), 5);
    assert!(matches!(evs[0], ConnEv::Msg(_)));
}

#[test]
fn away_cleared_with_none() {
    let mut conn = Connection::new(config(&["a"]));
    conn.take_outgoing();
    conn.away(Some(&b("lunch")));
    assert_eq!(conn.get_away_status(), &Some(b("lunch")));
    conn.away(None);
    assert_eq!(conn.get_away_status(), &None);
    assert_eq!(
        conn.take_outgoing(),
        vec![OutMsg::Away { msg: Some(b("lunch")) }, OutMsg::Away { msg: None }]
    );
}

#[test]
fn raw_and_ctcp_queued_verbatim() {
    let mut conn = Connection::new(config(&["a"]));
    conn.take_outgoing();
    conn.raw_msg(&b("MOTD"));
    conn.ctcp_action(&b("#c"), &b("waves"));
    assert_eq!(
        conn.take_outgoing(),
        vec![
            OutMsg::Raw { msg: b("MOTD") },
            OutMsg::CtcpAction { target: b("#c"), msg: b("waves") },
        ]
    );
}

#[test]
fn split_privmsg_default_mask_cost() {
    let mut conn = Connection::new(config(&["n"]));
    conn.take_outgoing();
    // Without a usermask the worst case (9 + 64 bytes) is budgeted:
    // budget = 496 - 1 - 417 - 73 = 5.
    let mut it = conn.split_privmsg(417, "yada yada yada".as_bytes());
    let mut parts: Vec<Vec<u8>> = Vec::new();
    while let Some(p) = it.next() {
        parts.push(p);
    }
    assert_eq!(parts, bl(&["yada ", "yada ", "yada"]));
}
