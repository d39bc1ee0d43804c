use guards::game::Team;
use guards::server::{refuse, ClientConnection, Delivery, Server, ServerEvent, ServerReply};

fn lines(deliveries: &[Delivery]) -> Vec<(u32, &str)> {
    deliveries.iter().map(|d| (d.to, d.line.as_str())).collect()
}

fn roster(server: &Server) -> Vec<(u32, Option<Team>)> {
    server.clients.iter().map(|c| (c.id, c.team)).collect()
}

fn message(server: &mut Server, id: u32, line: &str) -> ServerReply {
    server.handle_event(ServerEvent::ClientMessage(id, String::from(line)))
}

/// A server with three clients: 0 has joined Purple, 1 White, 2 nothing.
fn three_clients() -> Server {
    let mut server = Server::new();
    assert_eq!(server.connect(), Some(0));
    assert_eq!(server.connect(), Some(1));
    assert_eq!(server.connect(), Some(2));
    assert!(server.set_client_team(0, Team::Purple));
    assert!(server.set_client_team(1, Team::White));
    server
}

#[test]
fn new_server_has_no_clients() {
    let server = Server::new();
    assert!(server.clients.is_empty());
    assert_eq!(server.id_seq, 0);
}

#[test]
fn clients_get_increasing_identities() {
    let mut server = Server::new();
    for expected in 0..5 {
        let reply = server.handle_event(ServerEvent::ClientConnected);
        assert_eq!(reply.assigned, Some(expected));
        assert!(reply.deliveries.is_empty());
    }
    assert_eq!(
        roster(&server),
        vec![(0, None), (1, None), (2, None), (3, None), (4, None)]
    );
    assert_eq!(server.id_seq, 5);
}

#[test]
fn identities_are_not_given_twice() {
    let mut server = Server::new();
    assert_eq!(server.connect(), Some(0));
    assert_eq!(server.connect(), Some(1));
    server.disconnect(0);
    server.disconnect(1);
    assert_eq!(server.connect(), Some(2));
    assert_eq!(roster(&server), vec![(2, None)]);
}

#[test]
fn identities_run_out_without_wrapping() {
    let mut server = Server { clients: Vec::new(), id_seq: u32::MAX - 1 };
    assert_eq!(server.connect(), Some(u32::MAX - 1));
    assert_eq!(server.connect(), None);
    assert_eq!(server.connect(), None);
    assert_eq!(roster(&server), vec![(u32::MAX - 1, None)]);
    assert_eq!(server.id_seq, u32::MAX);
    let reply = server.handle_event(ServerEvent::ClientConnected);
    assert_eq!(reply.assigned, None);
}

#[test]
fn disconnect_removes_the_client_only() {
    let mut server = three_clients();
    let reply = server.handle_event(ServerEvent::ClientDisconnected(1));
    assert_eq!(reply.assigned, None);
    assert!(reply.deliveries.is_empty());
    assert_eq!(roster(&server), vec![(0, Some(Team::Purple)), (2, None)]);
    server.disconnect(7);
    assert_eq!(roster(&server), vec![(0, Some(Team::Purple)), (2, None)]);
    assert_eq!(server.find(1), None);
    assert_eq!(server.find(2), Some(1));
}

#[test]
fn nothing_is_sent_to_a_client_that_is_gone() {
    let mut server = three_clients();
    server.disconnect(1);
    let reply = message(&mut server, 0, "move purple (1,2) (3,4)");
    assert_eq!(
        lines(&reply.deliveries),
        vec![(0, "move purple (1,2) (3,4)\n"), (2, "move purple (1,2) (3,4)\n")]
    );
    let reply = message(&mut server, 1, "join white");
    assert!(reply.deliveries.is_empty());
    assert_eq!(roster(&server), vec![(0, Some(Team::Purple)), (2, None)]);
}

#[test]
fn set_client_team_overwrites() {
    let mut server = three_clients();
    assert!(server.set_client_team(0, Team::White));
    assert!(!server.set_client_team(9, Team::White));
    assert_eq!(
        roster(&server),
        vec![(0, Some(Team::White)), (1, Some(Team::White)), (2, None)]
    );
    assert_eq!(server.clients[0], ClientConnection { team: Some(Team::White), id: 0 });
}

#[test]
fn join_is_recorded_and_announced_to_all() {
    let mut server = three_clients();
    let reply = message(&mut server, 2, "join white");
    assert_eq!(
        lines(&reply.deliveries),
        vec![(0, "join white\n"), (1, "join white\n"), (2, "join white\n")]
    );
    assert_eq!(
        roster(&server),
        vec![(0, Some(Team::Purple)), (1, Some(Team::White)), (2, Some(Team::White))]
    );
}

#[test]
fn joining_again_overwrites_and_announces_again() {
    let mut server = three_clients();
    let reply = message(&mut server, 0, "join WHITE\n");
    assert_eq!(
        lines(&reply.deliveries),
        vec![(0, "join white\n"), (1, "join white\n"), (2, "join white\n")]
    );
    assert_eq!(server.clients[0].team, Some(Team::White));
}

#[test]
fn join_of_an_unknown_team_is_refused_to_the_sender() {
    let mut server = three_clients();
    let before = roster(&server);
    for line in ["join blue", "join neutral", "join "] {
        let reply = message(&mut server, 2, line);
        assert_eq!(
            lines(&reply.deliveries),
            vec![(2, "error INVALIDTEAM Unrecognised team\n")],
            "{line:?}"
        );
    }
    assert_eq!(roster(&server), before);
}

#[test]
fn join_without_a_team_is_refused() {
    let mut server = three_clients();
    let reply = message(&mut server, 2, "join");
    assert_eq!(
        lines(&reply.deliveries),
        vec![(2, "error MISSINGARG JOIN requires an argument <team>\n")]
    );
    assert_eq!(server.clients[2].team, None);
}

#[test]
fn move_of_the_joined_team_is_relayed_to_all() {
    let mut server = three_clients();
    let before = roster(&server);
    let reply = message(&mut server, 1, "move white (2,6) (2,8)");
    assert_eq!(
        lines(&reply.deliveries),
        vec![
            (0, "move white (2,6) (2,8)\n"),
            (1, "move white (2,6) (2,8)\n"),
            (2, "move white (2,6) (2,8)\n"),
        ]
    );
    assert_eq!(roster(&server), before);
}

#[test]
fn the_server_does_not_judge_the_move() {
    // The squares are far off any board; the server relays all the same.
    let mut server = three_clients();
    let reply = message(&mut server, 0, "move PURPLE (900,900) (17,4000000000) junk");
    assert_eq!(
        lines(&reply.deliveries),
        vec![
            (0, "move purple (900,900) (17,4000000000)\n"),
            (1, "move purple (900,900) (17,4000000000)\n"),
            (2, "move purple (900,900) (17,4000000000)\n"),
        ]
    );
}

#[test]
fn move_for_another_team_is_refused_to_the_sender() {
    let mut server = three_clients();
    let before = roster(&server);
    let reply = message(&mut server, 0, "move white (2,6) (2,8)");
    assert_eq!(
        lines(&reply.deliveries),
        vec![(0, "error INVALIDMOVE You are not on team White\n")]
    );
    let reply = message(&mut server, 1, "move purple (2,2) (2,1)");
    assert_eq!(
        lines(&reply.deliveries),
        vec![(1, "error INVALIDMOVE You are not on team Purple\n")]
    );
    assert_eq!(roster(&server), before);
}

#[test]
fn move_without_a_team_is_refused_to_the_sender() {
    let mut server = three_clients();
    let reply = message(&mut server, 2, "move white (2,6) (2,8)");
    assert_eq!(
        lines(&reply.deliveries),
        vec![(2, "error INVALIDMOVE You have not joined a team\n")]
    );
}

#[test]
fn unreadable_move_is_refused() {
    let mut server = three_clients();
    for line in ["move white 2,6 (2,8)", "move blue (2,6) (2,8)", "move white (2,6) (2,x)"] {
        let reply = message(&mut server, 1, line);
        assert_eq!(
            lines(&reply.deliveries),
            vec![(1, "error INVALIDMOVE Invalid move\n")],
            "{line:?}"
        );
    }
}

#[test]
fn move_with_too_few_arguments_is_refused() {
    let mut server = three_clients();
    for line in ["move", "move white", "move white (2,6)"] {
        let reply = message(&mut server, 1, line);
        assert_eq!(
            lines(&reply.deliveries),
            vec![(1, "error MISSINGARG MOVE requires two arguments <from> <to>\n")],
            "{line:?}"
        );
    }
}

#[test]
fn unknown_command_is_named_in_the_answer() {
    let mut server = three_clients();
    let reply = message(&mut server, 0, "dance wildly");
    assert_eq!(lines(&reply.deliveries), vec![(0, "error UNKNOWN unknown command dance\n")]);
    let reply = message(&mut server, 0, "");
    assert_eq!(lines(&reply.deliveries), vec![(0, "error UNKNOWN unknown command \n")]);
    let reply = message(&mut server, 0, "error INVALIDMOVE nonsense");
    assert_eq!(lines(&reply.deliveries), vec![(0, "error UNKNOWN unknown command error\n")]);
    let reply = message(&mut server, 0, "error");
    assert_eq!(lines(&reply.deliveries), vec![(0, "error UNKNOWN unknown command error\n")]);
    let reply = message(&mut server, 0, "JOIN purple");
    assert_eq!(lines(&reply.deliveries), vec![(0, "error UNKNOWN unknown command JOIN\n")]);
}

#[test]
fn lines_from_unknown_identities_are_ignored() {
    let mut server = three_clients();
    let before = roster(&server);
    for line in ["join purple", "move purple (1,1) (1,2)", "nonsense"] {
        let reply = message(&mut server, 42, line);
        assert!(reply.deliveries.is_empty());
        assert_eq!(reply.assigned, None);
    }
    assert_eq!(roster(&server), before);
}

#[test]
fn send_to_one_or_to_all() {
    let server = three_clients();
    let join = guards::net::ProtocolMessage::TeamJoin(Team::Purple);
    assert_eq!(lines(&server.send(Some(1), &join)), vec![(1, "join purple\n")]);
    assert_eq!(lines(&server.send(Some(5), &join)), vec![]);
    assert_eq!(
        lines(&server.send(None, &join)),
        vec![(0, "join purple\n"), (1, "join purple\n"), (2, "join purple\n")]
    );
    assert_eq!(lines(&Server::new().send(None, &join)), vec![]);
}

#[test]
fn refusals_by_command() {
    assert_eq!(refuse("join").encode(), "error MISSINGARG JOIN requires an argument <team>\n");
    assert_eq!(refuse("join x").encode(), "error INVALIDTEAM Unrecognised team\n");
    assert_eq!(
        refuse("move a").encode(),
        "error MISSINGARG MOVE requires two arguments <from> <to>\n"
    );
    assert_eq!(refuse("move a b c").encode(), "error INVALIDMOVE Invalid move\n");
    assert_eq!(refuse("fly away\n").encode(), "error UNKNOWN unknown command fly\n");
}

#[test]
fn a_session_from_connect_to_disconnect() {
    let mut server = Server::new();
    let a = server.handle_event(ServerEvent::ClientConnected).assigned.unwrap();
    let b = server.handle_event(ServerEvent::ClientConnected).assigned.unwrap();
    assert_eq!((a, b), (0, 1));
    assert_eq!(
        lines(&message(&mut server, a, "join white").deliveries),
        vec![(0, "join white\n"), (1, "join white\n")]
    );
    assert_eq!(
        lines(&message(&mut server, b, "join purple").deliveries),
        vec![(0, "join purple\n"), (1, "join purple\n")]
    );
    assert_eq!(
        lines(&message(&mut server, a, "move white (2,6) (2,8)").deliveries),
        vec![(0, "move white (2,6) (2,8)\n"), (1, "move white (2,6) (2,8)\n")]
    );
    assert_eq!(
        lines(&message(&mut server, a, "move purple (2,2) (2,1)").deliveries),
        vec![(0, "error INVALIDMOVE You are not on team Purple\n")]
    );
    server.handle_event(ServerEvent::ClientDisconnected(a));
    assert_eq!(
        lines(&message(&mut server, b, "move purple (2,2) (2,1)").deliveries),
        vec![(1, "move purple (2,2) (2,1)\n")]
    );
    server.handle_event(ServerEvent::ClientDisconnected(b));
    assert!(server.clients.is_empty());
}
