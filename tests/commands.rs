use console_bridge::commands::{Maps, Player, Players, Team};

#[test]
fn players_reply_is_parsed_until_no() {
    let reply = "[A] [red]bob|AAAAAAAAAAAAAAAAAAAAAA==|127.0.0.1\n\
                 [] alice|BBBBBBBBBBBBBBBBBBBBBB==|10.0.0.2\n\
                 \n\
                 garbage line\n\
                 No more players\n\
                 [A] eve|CCCCCCCCCCCCCCCCCCCCCC==|10.0.0.3\n";
    let p = Players::parse(reply);
    assert_eq!(
        p.all,
        vec![
            Player {
                admin: true,
                name: "bob".into(),
                uuid: "AAAAAAAAAAAAAAAAAAAAAA==".into(),
                ip: "127.0.0.1".into(),
            },
            Player {
                admin: false,
                name: "alice".into(),
                uuid: "BBBBBBBBBBBBBBBBBBBBBB==".into(),
                ip: "10.0.0.2".into(),
            },
        ]
    );
    assert_eq!(p.find("alice"), Some(1));
    assert_eq!(p.get_all()[0].name, "bob");
    assert_eq!(p.find("eve"), None);
}

#[test]
fn players_lines_need_three_parts_and_a_space() {
    assert!(Players::parse("[A] a|b").all.is_empty());
    assert!(Players::parse("[A] a|b|c|d").all.is_empty());
    assert!(Players::parse("nospace|b|c").all.is_empty());
    assert!(Players::parse("No players online.").all.is_empty());
    assert!(Players::parse("").all.is_empty());
}

#[test]
fn team_leaderboard_commands() {
    assert_eq!(Team::Survivor.code(), "surv");
    assert_eq!(Team::Infected.leaderboard_command(), "lb inf");
    assert_eq!(Team::Survivor.leaderboard_command(), "lb surv");
}

#[test]
fn maps_reply_is_parsed() {
    let m = Maps::parse("Maps:\n1:[accent]Ancient Caldera\nno colon here\n2:Frozen\n");
    assert_eq!(m.all, vec!["".to_string(), "Ancient Caldera".to_string(), "Frozen".to_string()]);
    assert_eq!(m.find("Frozen"), Some(2));
    assert_eq!(m.get_all().len(), 3);
    assert_eq!(m.find("Desert"), None);
    assert!(Maps::parse("").all.is_empty());
}
