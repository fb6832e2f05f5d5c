use irc::messages::{Command, Message, ParseCommandError};
use irc::replys::{classify, ErrorReply, Reply, ReplyKind};
use irc::state::State;
use irc::users::{User, UserFlags};

#[test]
fn command_fmt_with_prefix() {
    let result = Message {
        prefix: Some("tester".to_string()),
        command: Command::Notice("tester".to_string(), ":This is a test".to_string()),
    };
    assert_eq!(result.serialize(), ":tester NOTICE tester :This is a test");
}

#[test]
fn command_fmt_no_params() {
    let result = Message { prefix: None, command: Command::Quit };
    assert_eq!(result.serialize(), "QUIT");
}

#[test]
fn numeric_fmt() {
    let result = Message {
        prefix: None,
        command: Command::Reply(Err(ErrorReply::Raw(
            401,
            vec!["tester".to_string(), ":No such nick".to_string()],
        ))),
    };
    assert_eq!(result.serialize(), "401 tester :No such nick")
}

#[test]
fn mode_fmt() {
    let result = Message {
        prefix: None,
        command: Command::Mode(
            "tester".to_string(),
            true,
            UserFlags { invisible: true, server_notices: false, wallops: true, operator: false },
        ),
    };
    assert_eq!(result.serialize(), "MODE tester +iw");
}

#[test]
fn command_parse() {
    let result = Message::parse("PRIVMSG #test :This is a test").unwrap();
    assert_eq!(
        result,
        Message {
            prefix: None,
            command: Command::PrivMsg("#test".to_string(), ":This is a test".to_string()),
        }
    )
}

#[test]
fn command_parse_with_prefix() {
    let result = Message::parse(":tester NOTICE tester :This is a test").unwrap();
    assert_eq!(
        result,
        Message {
            prefix: Some("tester".to_string()),
            command: Command::Notice("tester".to_string(), ":This is a test".to_string()),
        }
    )
}

#[test]
fn command_parse_no_params() {
    let result = Message::parse("QUIT").unwrap();
    assert_eq!(result, Message { prefix: None, command: Command::Quit })
}

#[test]
fn numeric_parse() {
    let result = Message::parse("401 tester :No such nick").unwrap();
    assert_eq!(
        result,
        Message {
            prefix: None,
            command: Command::Reply(Err(ErrorReply::Raw(
                401,
                vec!["tester".to_string(), ":No such nick".to_string()],
            ))),
        }
    )
}

#[test]
fn mode_parse() {
    let result = Message::parse("MODE tester +iw").unwrap();
    assert_eq!(
        result,
        Message {
            prefix: None,
            command: Command::Mode(
                "tester".to_string(),
                true,
                UserFlags {
                    invisible: true,
                    server_notices: false,
                    wallops: true,
                    operator: false
                },
            ),
        }
    )
}

#[test]
fn classification_boundary() {
    assert_eq!(classify(399), ReplyKind::Success);
    assert_eq!(classify(400), ReplyKind::Error);
    assert_eq!(classify(699), ReplyKind::Error);
    assert_eq!(classify(700), ReplyKind::Success);
}

#[test]
fn flag_canonicalization() {
    let (set, flags) = UserFlags::decode("+", "ow").unwrap();
    assert!(set);
    assert_eq!(flags.encode(), "wo");
}

#[test]
fn flag_round_trip() {
    let f = UserFlags { invisible: true, server_notices: true, wallops: false, operator: true };
    let (set, decoded) = UserFlags::decode("-", &f.encode()).unwrap();
    assert!(!set);
    assert_eq!(decoded, f);
    assert_eq!(UserFlags::default().encode(), "");
}

#[test]
fn empty_input() {
    assert_eq!(Message::parse(""), Err(ParseCommandError::Empty));
    assert_eq!(Message::parse("   "), Err(ParseCommandError::Empty));
}

#[test]
fn unknown_command_preserved() {
    let result = Message::parse("FOO a b").unwrap();
    assert_eq!(
        result,
        Message {
            prefix: None,
            command: Command::Raw("FOO".to_string(), vec!["a".to_string(), "b".to_string()]),
        }
    );
    assert_eq!(result.serialize(), "FOO a b");
}

#[test]
fn prefix_handling() {
    let with_prefix = Message::parse(":tester NOTICE tester :This is a test").unwrap();
    let without_prefix = Message::parse("NOTICE tester :This is a test").unwrap();
    assert_eq!(with_prefix.prefix, Some("tester".to_string()));
    assert_eq!(with_prefix.command, without_prefix.command);
    assert_eq!(without_prefix.prefix, None);
}

#[test]
fn parse_serialize_round_trip() {
    let lines = [
        "PRIVMSG #test :This is a test",
        ":tester NOTICE tester :This is a test",
        "401 tester :No such nick",
        "375 :- message of the day -",
        "MODE tester +iw",
        "MODE tester -o",
        "QUIT",
        "PART #one #two #three",
        "FOO a b :c d",
        "PASS secret",
        "NICK sam",
        "USER sam host server :Sam Smith",
        "JOIN #chan",
    ];
    for line in lines {
        let first = Message::parse(line).unwrap();
        let emitted = first.serialize();
        let second = Message::parse(&emitted).unwrap();
        assert_eq!(first, second);
        assert_eq!(emitted, line);
    }
}

#[test]
fn irregular_whitespace_round_trip() {
    let first = Message::parse("  PRIVMSG   #test    :This  is a test").unwrap();
    let emitted = first.serialize();
    assert_eq!(emitted, "PRIVMSG #test :This is a test");
    let second = Message::parse(&emitted).unwrap();
    assert_eq!(first, second);
}

#[test]
fn fallback_fixed_point() {
    let commands = [
        Command::Pass("secret".to_string()),
        Command::Quit,
        Command::Mode(
            "tester".to_string(),
            false,
            UserFlags { invisible: false, server_notices: true, wallops: false, operator: true },
        ),
        Command::Reply(Ok(Reply::Raw(1, vec![":welcome".to_string()]))),
        Command::Raw("FOO".to_string(), vec!["a".to_string()]),
    ];
    for c in commands {
        let once = c.raw();
        let twice = once.raw();
        assert_eq!(once, twice);
    }
}

#[test]
fn insufficient_params() {
    assert_eq!(Message::parse("USER a b"), Err(ParseCommandError::InsufficientParams));
    assert_eq!(Message::parse("PASS"), Err(ParseCommandError::InsufficientParams));
    assert_eq!(Message::parse("NICK"), Err(ParseCommandError::InsufficientParams));
    assert_eq!(Message::parse("NOTICE tester"), Err(ParseCommandError::InsufficientParams));
    assert_eq!(Message::parse("PRIVMSG #test"), Err(ParseCommandError::InsufficientParams));
    assert_eq!(Message::parse("JOIN"), Err(ParseCommandError::InsufficientParams));
    assert_eq!(Message::parse("MODE tester"), Err(ParseCommandError::InsufficientParams));
}

#[test]
fn invalid_flag_and_sign() {
    assert_eq!(Message::parse("MODE tester +x"), Err(ParseCommandError::InvalidFlag('x')));
    assert_eq!(Message::parse("MODE tester iw"), Err(ParseCommandError::InvalidSign));
    let bare = Message::parse("MODE tester +").unwrap();
    assert_eq!(
        bare,
        Message {
            prefix: None,
            command: Command::Mode("tester".to_string(), true, UserFlags::default()),
        }
    );
}

#[test]
fn part_keeps_channel_order() {
    let result = Message::parse("PART #one #two").unwrap();
    assert_eq!(
        result,
        Message {
            prefix: None,
            command: Command::Part(vec!["#one".to_string(), "#two".to_string()]),
        }
    );
    assert_eq!(result.serialize(), "PART #one #two");
}

#[test]
fn success_reply_parse() {
    let result = Message::parse("001 tester :Welcome").unwrap();
    assert_eq!(
        result,
        Message {
            prefix: None,
            command: Command::Reply(Ok(Reply::Raw(
                1,
                vec!["tester".to_string(), ":Welcome".to_string()],
            ))),
        }
    );
}

#[test]
fn user_registration_messages() {
    let user = User {
        nickname: "sam".to_string(),
        username: "samu".to_string(),
        hostname: "host".to_string(),
        servername: "server".to_string(),
        realname: ":Sam Smith".to_string(),
        flags: UserFlags::default(),
    };
    assert_eq!(user.nick_command().serialize(), "NICK sam");
    assert_eq!(user.user_command().serialize(), "USER samu host server :Sam Smith");
}

#[test]
fn state_log_appends_in_order() {
    let mut state = State::new();
    assert_eq!(state.len(), 0);
    state.push(Message::parse("NICK sam").unwrap());
    state.push(Message::parse("QUIT").unwrap());
    assert_eq!(state.len(), 2);
    assert_eq!(state.get(0).serialize(), "NICK sam");
    assert_eq!(state.get(1).serialize(), "QUIT");
}

#[test]
fn colon_name_after_prefix_round_trip() {
    let first = Message::parse(":a :b c").unwrap();
    assert_eq!(first.prefix, Some("a".to_string()));
    assert_eq!(first.command, Command::Raw(":b".to_string(), vec!["c".to_string()]));
    let emitted = first.serialize();
    assert_eq!(emitted, ":a :b c");
    assert_eq!(Message::parse(&emitted).unwrap(), first);
}

#[test]
fn numeric_name_edges() {
    let plus = Message::parse("+41 x").unwrap();
    assert_eq!(plus.command, Command::Reply(Ok(Reply::Raw(41, vec!["x".to_string()]))));
    let big = Message::parse("99999 x").unwrap();
    assert_eq!(big.command, Command::Raw("99999".to_string(), vec!["x".to_string()]));
}
