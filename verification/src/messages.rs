//! The message envelope and the command union of the wire protocol, with the
//! parser and the serializer and the laws that tie them together.

use vstd::prelude::*;

use crate::numbers::{dec_str, is_u16_token, u16_token_val};
use crate::replys::{spec_classify, ErrorReply, Reply, ReplyKind, ReplyM};
use crate::tokens::{clone_strings, is_token, is_wsp, join_sp, join_tokens, no_wsp, split_ws, tokenize};
use crate::users::{spec_decode, spec_encode_flags, UserFlags};

verus! {

/// The error a line can fail with while being parsed. The offending line is
/// discarded by callers; no error here tears a connection down.
#[derive(Debug, PartialEq, Eq, Clone, Copy)]
pub enum ParseCommandError {
    /// The line held no token at all.
    Empty,
    /// A mode-change letter was not one of the recognized flag letters.
    InvalidFlag(char),
    /// The mode-change sign token did not begin with `+` or `-`.
    InvalidSign,
    /// A structured command was given fewer parameters than its arity.
    InsufficientParams,
}

/// Mathematical model of a command.
#[verifier::ext_equal]
pub ghost enum CmdM {
    Pass(Seq<char>),
    Nick(Seq<char>),
    User(Seq<char>, Seq<char>, Seq<char>, Seq<char>),
    Quit,
    Notice(Seq<char>, Seq<char>),
    PrivMsg(Seq<char>, Seq<char>),
    Join(Seq<char>),
    Reply(Result<ReplyM, ReplyM>),
    Part(Seq<Seq<char>>),
    Mode(Seq<char>, bool, UserFlags),
    Raw(Seq<char>, Seq<Seq<char>>),
}

/// Mathematical model of a message: an optional sender prefix and a command.
#[verifier::ext_equal]
pub ghost struct MsgM {
    pub prefix: Option<Seq<char>>,
    pub command: CmdM,
}

/// A command of the wire protocol: the recognized structured kinds, numeric
/// replies, and the open-ended raw fallback for everything else.
#[derive(Debug, PartialEq, Eq)]
pub enum Command {
    Pass(String),
    Nick(String),
    User(String, String, String, String),
    Quit,
    Notice(String, String),
    PrivMsg(String, String),
    Join(String),
    Reply(Result<Reply, ErrorReply>),
    Part(Vec<String>),
    Mode(String, bool, UserFlags),
    Raw(String, Vec<String>),
}

impl View for Command {
    type V = CmdM;

    open spec fn view(&self) -> CmdM {
        match self {
            Command::Pass(p) => CmdM::Pass(p@),
            Command::Nick(p) => CmdM::Nick(p@),
            Command::User(u, h, sv, r) => CmdM::User(u@, h@, sv@, r@),
            Command::Quit => CmdM::Quit,
            Command::Notice(t, x) => CmdM::Notice(t@, x@),
            Command::PrivMsg(t, x) => CmdM::PrivMsg(t@, x@),
            Command::Join(p) => CmdM::Join(p@),
            Command::Reply(r) => CmdM::Reply(
                match r {
                    Ok(x) => Ok(x@),
                    Err(e) => Err(e@),
                },
            ),
            Command::Part(cs) => CmdM::Part(cs.deep_view()),
            Command::Mode(t, set, f) => CmdM::Mode(t@, *set, *f),
            Command::Raw(n, ps) => CmdM::Raw(n@, ps.deep_view()),
        }
    }
}

impl Clone for Command {
    /// Keeps the variant and every field.
    fn clone(&self) -> (r: Self)
        ensures
            r@ == self@,
    {
        match self {
            Command::Pass(p) => Command::Pass(p.clone()),
            Command::Nick(p) => Command::Nick(p.clone()),
            Command::User(u, h, sv, rn) => Command::User(
                u.clone(),
                h.clone(),
                sv.clone(),
                rn.clone(),
            ),
            Command::Quit => Command::Quit,
            Command::Notice(t, x) => Command::Notice(t.clone(), x.clone()),
            Command::PrivMsg(t, x) => Command::PrivMsg(t.clone(), x.clone()),
            Command::Join(p) => Command::Join(p.clone()),
            Command::Reply(res) => Command::Reply(
                match res {
                    Ok(x) => Ok(x.clone()),
                    Err(e) => Err(e.clone()),
                },
            ),
            Command::Part(cs) => Command::Part(clone_strings(cs)),
            Command::Mode(t, set, f) => Command::Mode(t.clone(), *set, *f),
            Command::Raw(n, ps) => Command::Raw(n.clone(), clone_strings(ps)),
        }
    }
}

/// The message envelope: an optional sender prefix and the command it carries.
#[derive(Debug, PartialEq, Eq)]
pub struct Message {
    pub prefix: Option<String>,
    pub command: Command,
}

impl View for Message {
    type V = MsgM;

    open spec fn view(&self) -> MsgM {
        MsgM {
            prefix: match self.prefix {
                Some(p) => Some(p@),
                None => None,
            },
            command: self.command@,
        }
    }
}

impl Clone for Message {
    /// Keeps the prefix and the command.
    fn clone(&self) -> (r: Self)
        ensures
            r@ == self@,
    {
        Message {
            prefix: match &self.prefix {
                Some(p) => Some(p.clone()),
                None => None,
            },
            command: self.command.clone(),
        }
    }
}

impl DeepView for Message {
    type V = MsgM;

    open spec fn deep_view(&self) -> MsgM {
        self@
    }
}

/// Folds raw tokens into parameters: tokens before the first `:`-led token
/// are one parameter each; from that token on, everything joins back into a
/// single trailing parameter, the `:` kept.
pub open spec fn collect_params(ts: Seq<Seq<char>>) -> Seq<Seq<char>>
    decreases ts.len(),
{
    if ts.len() == 0 {
        Seq::empty()
    } else if ts[0].len() > 0 && ts[0][0] == ':' {
        seq![join_sp(ts)]
    } else {
        seq![ts[0]] + collect_params(ts.drop_first())
    }
}

/// The structured command a name and its parameters dispatch to. A name that
/// reads as a number becomes a reply, classified by the fixed error range; a
/// recognized keyword consumes its arity positionally; anything else is kept
/// verbatim in the raw fallback form.
pub open spec fn spec_dispatch(name: Seq<char>, params: Seq<Seq<char>>) -> Result<
    CmdM,
    ParseCommandError,
> {
    if is_u16_token(name) {
        let code = u16_token_val(name) as u16;
        if spec_classify(code) == ReplyKind::Error {
            Ok(CmdM::Reply(Err(ReplyM { code, params })))
        } else {
            Ok(CmdM::Reply(Ok(ReplyM { code, params })))
        }
    } else if name == "PASS"@ {
        if params.len() >= 1 {
            Ok(CmdM::Pass(params[0]))
        } else {
            Err(ParseCommandError::InsufficientParams)
        }
    } else if name == "NICK"@ {
        if params.len() >= 1 {
            Ok(CmdM::Nick(params[0]))
        } else {
            Err(ParseCommandError::InsufficientParams)
        }
    } else if name == "USER"@ {
        if params.len() >= 4 {
            Ok(CmdM::User(params[0], params[1], params[2], params[3]))
        } else {
            Err(ParseCommandError::InsufficientParams)
        }
    } else if name == "QUIT"@ {
        Ok(CmdM::Quit)
    } else if name == "NOTICE"@ {
        if params.len() >= 2 {
            Ok(CmdM::Notice(params[0], params[1]))
        } else {
            Err(ParseCommandError::InsufficientParams)
        }
    } else if name == "PRIVMSG"@ {
        if params.len() >= 2 {
            Ok(CmdM::PrivMsg(params[0], params[1]))
        } else {
            Err(ParseCommandError::InsufficientParams)
        }
    } else if name == "JOIN"@ {
        if params.len() >= 1 {
            Ok(CmdM::Join(params[0]))
        } else {
            Err(ParseCommandError::InsufficientParams)
        }
    } else if name == "PART"@ {
        Ok(CmdM::Part(params))
    } else if name == "MODE"@ {
        if params.len() >= 2 {
            match spec_decode(params[1], params[1].drop_first()) {
                Ok((set, f)) => Ok(CmdM::Mode(params[0], set, f)),
                Err(e) => Err(e),
            }
        } else {
            Err(ParseCommandError::InsufficientParams)
        }
    } else {
        Ok(CmdM::Raw(name, params))
    }
}

/// What a prefix-less token list parses to: the first token is the command
/// name, the rest fold into parameters.
pub open spec fn spec_parse_tokens(ts: Seq<Seq<char>>) -> Result<CmdM, ParseCommandError> {
    if ts.len() == 0 {
        Err(ParseCommandError::Empty)
    } else {
        spec_dispatch(ts[0], collect_params(ts.drop_first()))
    }
}

/// What one line parses to. A first token led by `:` is the sender prefix;
/// the rest of the line parses as a prefix-less command.
pub open spec fn spec_parse(s: Seq<char>) -> Result<MsgM, ParseCommandError> {
    let ts = split_ws(s);
    if ts.len() == 0 {
        Err(ParseCommandError::Empty)
    } else if ts[0][0] == ':' {
        match spec_parse_tokens(ts.drop_first()) {
            Ok(c) => Ok(MsgM { prefix: Some(ts[0].drop_first()), command: c }),
            Err(e) => Err(e),
        }
    } else {
        match spec_parse_tokens(ts) {
            Ok(c) => Ok(MsgM { prefix: None, command: c }),
            Err(e) => Err(e),
        }
    }
}

/// The wire name of the fallback form of a command.
pub open spec fn fallback_name(c: CmdM) -> Seq<char> {
    match c {
        CmdM::Pass(_) => "PASS"@,
        CmdM::Nick(_) => "NICK"@,
        CmdM::User(_, _, _, _) => "USER"@,
        CmdM::Quit => "QUIT"@,
        CmdM::Notice(_, _) => "NOTICE"@,
        CmdM::PrivMsg(_, _) => "PRIVMSG"@,
        CmdM::Join(_) => "JOIN"@,
        CmdM::Reply(r) => dec_str(
            (match r {
                Ok(x) => x,
                Err(x) => x,
            }).code as nat,
        ),
        CmdM::Part(_) => "PART"@,
        CmdM::Mode(_, _, _) => "MODE"@,
        CmdM::Raw(n, _) => n,
    }
}

/// The ordered parameter list of the fallback form of a command.
pub open spec fn fallback_params(c: CmdM) -> Seq<Seq<char>> {
    match c {
        CmdM::Pass(p) => seq![p],
        CmdM::Nick(p) => seq![p],
        CmdM::User(u, h, sv, r) => seq![u, h, sv, r],
        CmdM::Quit => Seq::empty(),
        CmdM::Notice(t, x) => seq![t, x],
        CmdM::PrivMsg(t, x) => seq![t, x],
        CmdM::Join(p) => seq![p],
        CmdM::Reply(r) => (match r {
            Ok(x) => x,
            Err(x) => x,
        }).params,
        CmdM::Part(cs) => cs,
        CmdM::Mode(t, set, f) => seq![
            t,
            seq![if set {
                '+'
            } else {
                '-'
            }] + spec_encode_flags(f),
        ],
        CmdM::Raw(_, ps) => ps,
    }
}

/// The fallback projection: every command degrades to a raw name with its
/// ordered parameters; the raw form itself is a fixed point of it.
pub open spec fn spec_raw(c: CmdM) -> CmdM {
    CmdM::Raw(fallback_name(c), fallback_params(c))
}

/// Wire text of a command: the fallback name, then the parameters joined by
/// single spaces, when there are any.
pub open spec fn spec_serialize_cmd(c: CmdM) -> Seq<char> {
    if fallback_params(c).len() == 0 {
        fallback_name(c)
    } else {
        fallback_name(c) + seq![' '] + join_sp(fallback_params(c))
    }
}

/// Wire text of a message: the command text, with `:prefix ` in front when a
/// prefix is present.
pub open spec fn spec_serialize(m: MsgM) -> Seq<char> {
    match m.prefix {
        Some(p) => seq![':'] + p + seq![' '] + spec_serialize_cmd(m.command),
        None => spec_serialize_cmd(m.command),
    }
}

/// The model a parse result denotes.
pub open spec fn result_view(r: Result<Message, ParseCommandError>) -> Result<
    MsgM,
    ParseCommandError,
> {
    match r {
        Ok(m) => Ok(m@),
        Err(e) => Err(e),
    }
}

/// The model a command result denotes.
pub open spec fn cmd_result_view(r: Result<Command, ParseCommandError>) -> Result<
    CmdM,
    ParseCommandError,
> {
    match r {
        Ok(c) => Ok(c@),
        Err(e) => Err(e),
    }
}

/// Folds the tokens from index `start` on into a parameter list, applying the
/// trailing-parameter rule.
fn collect_params_exec(tokens: &Vec<String>, start: usize) -> (params: Vec<String>)
    requires
        start <= tokens@.len(),
    ensures
        params.deep_view() == collect_params(tokens.deep_view().skip(start as int)),
{
    let ghost all = tokens.deep_view();
    let mut params: Vec<String> = Vec::new();
    let mut i = start;
    proof {
        assert(params.deep_view() + collect_params(all.skip(start as int)) =~= collect_params(
            all.skip(start as int),
        ));
    }
    while i < tokens.len()
        invariant
            start <= i <= tokens@.len(),
            all == tokens.deep_view(),
            params.deep_view() + collect_params(all.skip(i as int)) == collect_params(
                all.skip(start as int),
            ),
        decreases tokens@.len() - i,
    {
        let tok = &tokens[i];
        let tlen = tok.as_str().unicode_len();
        proof {
            assert(all[i as int] == tokens@[i as int]@);
            assert(all.skip(i as int)[0] == all[i as int]);
        }
        if tlen > 0 && tok.as_str().get_char(0) == ':' {
            let trailing = join_tokens(tokens, i);
            let ghost old_params = params.deep_view();
            params.push(trailing);
            proof {
                assert(collect_params(all.skip(i as int)) == seq![join_sp(all.skip(i as int))]);
                assert(params.deep_view() =~= old_params.push(join_sp(all.skip(i as int))));
                assert(old_params.push(join_sp(all.skip(i as int))) =~= old_params + seq![
                    join_sp(all.skip(i as int)),
                ]);
            }
            return params;
        } else {
            let ghost old_params = params.deep_view();
            params.push(tok.clone());
            proof {
                assert(all.skip(i as int).drop_first() =~= all.skip(i as int + 1));
                assert(collect_params(all.skip(i as int)) == seq![all[i as int]] + collect_params(
                    all.skip(i as int + 1),
                ));
                assert(params.deep_view() =~= old_params.push(all[i as int]));
                assert(old_params.push(all[i as int]) + collect_params(all.skip(i as int + 1))
                    =~= old_params + (seq![all[i as int]] + collect_params(all.skip(i as int + 1))));
            }
        }
        i = i + 1;
    }
    proof {
        assert(all.skip(tokens@.len() as int) =~= Seq::<Seq<char>>::empty());
        assert(collect_params(Seq::<Seq<char>>::empty()) =~= Seq::<Seq<char>>::empty());
        assert(params.deep_view() =~= params.deep_view() + Seq::<Seq<char>>::empty());
    }
    params
}

/// Builds the structured command a name and its parameters dispatch to.
fn dispatch(name: &String, params: Vec<String>) -> (r: Result<Command, ParseCommandError>)
    ensures
        cmd_result_view(r) == spec_dispatch(name@, params.deep_view()),
{
    let ghost ps = params.deep_view();
    proof {
        assert(forall|k: int| 0 <= k < ps.len() ==> ps[k] == #[trigger] params@[k]@);
    }
    match crate::numbers::parse_u16(name.as_str()) {
        Some(code) => {
            match crate::replys::classify(code) {
                ReplyKind::Error => Ok(Command::Reply(Err(ErrorReply::Raw(code, params)))),
                ReplyKind::Success => Ok(Command::Reply(Ok(Reply::Raw(code, params)))),
            }
        },
        None => {
            if *name == String::from_str("PASS") {
                if params.len() >= 1 {
                    Ok(Command::Pass(params[0].clone()))
                } else {
                    Err(ParseCommandError::InsufficientParams)
                }
            } else if *name == String::from_str("NICK") {
                if params.len() >= 1 {
                    Ok(Command::Nick(params[0].clone()))
                } else {
                    Err(ParseCommandError::InsufficientParams)
                }
            } else if *name == String::from_str("USER") {
                if params.len() >= 4 {
                    Ok(
                        Command::User(
                            params[0].clone(),
                            params[1].clone(),
                            params[2].clone(),
                            params[3].clone(),
                        ),
                    )
                } else {
                    Err(ParseCommandError::InsufficientParams)
                }
            } else if *name == String::from_str("QUIT") {
                Ok(Command::Quit)
            } else if *name == String::from_str("NOTICE") {
                if params.len() >= 2 {
                    Ok(Command::Notice(params[0].clone(), params[1].clone()))
                } else {
                    Err(ParseCommandError::InsufficientParams)
                }
            } else if *name == String::from_str("PRIVMSG") {
                if params.len() >= 2 {
                    Ok(Command::PrivMsg(params[0].clone(), params[1].clone()))
                } else {
                    Err(ParseCommandError::InsufficientParams)
                }
            } else if *name == String::from_str("JOIN") {
                if params.len() >= 1 {
                    Ok(Command::Join(params[0].clone()))
                } else {
                    Err(ParseCommandError::InsufficientParams)
                }
            } else if *name == String::from_str("PART") {
                Ok(Command::Part(params))
            } else if *name == String::from_str("MODE") {
                if params.len() >= 2 {
                    let tok = &params[1];
                    let tlen = tok.as_str().unicode_len();
                    if tlen == 0 {
                        proof {
                            assert(crate::users::spec_sign(ps[1]) == Err::<
                                bool,
                                ParseCommandError,
                            >(ParseCommandError::InvalidSign));
                        }
                        Err(ParseCommandError::InvalidSign)
                    } else {
                        let letters = tok.as_str().substring_char(1, tlen);
                        proof {
                            assert(letters@ =~= ps[1].drop_first());
                        }
                        match UserFlags::decode(tok.as_str(), letters) {
                            Ok((set, f)) => Ok(Command::Mode(params[0].clone(), set, f)),
                            Err(e) => Err(e),
                        }
                    }
                } else {
                    Err(ParseCommandError::InsufficientParams)
                }
            } else {
                Ok(Command::Raw(name.clone(), params))
            }
        },
    }
}

/// Parses the tokens from index `start` on as a prefix-less command.
fn parse_command_tokens(tokens: &Vec<String>, start: usize) -> (r: Result<
    Command,
    ParseCommandError,
>)
    requires
        start <= tokens@.len(),
    ensures
        cmd_result_view(r) == spec_parse_tokens(tokens.deep_view().skip(start as int)),
{
    let ghost ts = tokens.deep_view().skip(start as int);
    if start == tokens.len() {
        proof {
            assert(ts.len() == 0);
        }
        return Err(ParseCommandError::Empty);
    }
    let name = &tokens[start];
    let params = collect_params_exec(tokens, start + 1);
    proof {
        assert(ts[0] == tokens.deep_view()[start as int]);
        assert(tokens.deep_view()[start as int] == tokens@[start as int]@);
        assert(ts.drop_first() =~= tokens.deep_view().skip(start as int + 1));
    }
    dispatch(name, params)
}

impl Message {
    /// Parses one line, already stripped of its terminator, into a message.
    pub fn parse(s: &str) -> (r: Result<Message, ParseCommandError>)
        ensures
            result_view(r) == spec_parse(s@),
    {
        let tokens = tokenize(s);
        let ghost ts = split_ws(s@);
        if tokens.len() == 0 {
            proof {
                assert(ts.len() == 0);
            }
            return Err(ParseCommandError::Empty);
        }
        let first = &tokens[0];
        let flen = first.as_str().unicode_len();
        proof {
            assert(ts[0] == tokens.deep_view()[0]);
            assert(tokens.deep_view()[0] == tokens@[0]@);
        }
        if flen > 0 && first.as_str().get_char(0) == ':' {
            let prefix = String::from_str(first.as_str().substring_char(1, flen));
            proof {
                assert(prefix@ =~= ts[0].drop_first());
                assert(tokens.deep_view().skip(1) =~= ts.drop_first());
            }
            match parse_command_tokens(&tokens, 1) {
                Ok(c) => Ok(Message { prefix: Some(prefix), command: c }),
                Err(e) => Err(e),
            }
        } else {
            proof {
                if ts[0].len() == 0 {
                    crate::tokens::lemma_split_tokens_ok(s@);
                    assert(is_token(ts[0]));
                }
                assert(tokens.deep_view().skip(0) =~= ts);
            }
            match parse_command_tokens(&tokens, 0) {
                Ok(c) => Ok(Message { prefix: None, command: c }),
                Err(e) => Err(e),
            }
        }
    }

    /// Wire text of the message: the command text, with `:prefix ` prepended
    /// when a prefix is present.
    pub fn serialize(&self) -> (r: String)
        ensures
            r@ == spec_serialize(self@),
    {
        match &self.prefix {
            Some(p) => {
                let mut out = String::from_str(":");
                out.append(p.as_str());
                out.append(" ");
                let cmd = self.command.serialize();
                out.append(cmd.as_str());
                proof {
                    reveal_strlit(":");
                    reveal_strlit(" ");
                    assert(out@ =~= seq![':'] + p@ + seq![' '] + spec_serialize_cmd(
                        self.command@,
                    ));
                }
                out
            },
            None => self.command.serialize(),
        }
    }
}

impl Command {
    /// The wire name and the ordered parameters of the fallback form.
    fn raw_parts(&self) -> (r: (String, Vec<String>))
        ensures
            r.0@ == fallback_name(self@),
            r.1.deep_view() == fallback_params(self@),
    {
        match self {
            Command::Pass(pass) => {
                let r = (String::from_str("PASS"), vec![pass.clone()]);
                proof {
                    assert(r.1.deep_view() =~= fallback_params(self@));
                }
                r
            },
            Command::Nick(nickname) => {
                let r = (String::from_str("NICK"), vec![nickname.clone()]);
                proof {
                    assert(r.1.deep_view() =~= fallback_params(self@));
                }
                r
            },
            Command::User(username, hostname, servername, realname) => {
                let r = (
                    String::from_str("USER"),
                    vec![
                        username.clone(),
                        hostname.clone(),
                        servername.clone(),
                        realname.clone(),
                    ],
                );
                proof {
                    assert(r.1.deep_view() =~= fallback_params(self@));
                }
                r
            },
            Command::Quit => {
                let r = (String::from_str("QUIT"), Vec::<String>::new());
                proof {
                    assert(r.1.deep_view() =~= fallback_params(self@));
                }
                r
            },
            Command::Notice(nickname, notice) => {
                let r = (String::from_str("NOTICE"), vec![nickname.clone(), notice.clone()]);
                proof {
                    assert(r.1.deep_view() =~= fallback_params(self@));
                }
                r
            },
            Command::PrivMsg(receiver, message) => {
                let r = (String::from_str("PRIVMSG"), vec![receiver.clone(), message.clone()]);
                proof {
                    assert(r.1.deep_view() =~= fallback_params(self@));
                }
                r
            },
            Command::Join(channel) => {
                let r = (String::from_str("JOIN"), vec![channel.clone()]);
                proof {
                    assert(r.1.deep_view() =~= fallback_params(self@));
                }
                r
            },
            Command::Reply(reply) => {
                let raw = match reply {
                    Ok(r) => r.clone().raw_command(),
                    Err(e) => e.clone().raw_command(),
                };
                match raw {
                    Command::Raw(name, params) => {
                        let r = (name, params);
                        proof {
                            assert(r.1.deep_view() =~= fallback_params(self@));
                        }
                        r
                    },
                    _ => {
                        proof {
                            assert(false);
                        }
                        (String::new(), Vec::new())
                    },
                }
            },
            Command::Part(channels) => {
                let r = (String::from_str("PART"), clone_strings(channels));
                proof {
                    assert(r.1.deep_view() =~= fallback_params(self@));
                }
                r
            },
            Command::Mode(user, set, flags) => {
                let mut tok = String::from_str(if *set {
                    "+"
                } else {
                    "-"
                });
                tok.append(flags.encode().as_str());
                let r = (String::from_str("MODE"), vec![user.clone(), tok]);
                proof {
                    reveal_strlit("+");
                    reveal_strlit("-");
                    assert(r.1.deep_view()[1] =~= seq![
                        if *set {
                            '+'
                        } else {
                            '-'
                        },
                    ] + spec_encode_flags(*flags));
                    assert(r.1.deep_view() =~= fallback_params(self@));
                }
                r
            },
            Command::Raw(command, params) => {
                let r = (command.clone(), clone_strings(params));
                proof {
                    assert(r.1.deep_view() =~= fallback_params(self@));
                }
                r
            },
        }
    }

    /// The fallback form of this command: its wire name and its ordered
    /// parameters, as a raw command.
    pub fn raw(&self) -> (r: Command)
        ensures
            r@ == spec_raw(self@),
    {
        let (name, params) = self.raw_parts();
        Command::Raw(name, params)
    }

    /// Wire text of the command: its fallback name, then its parameters
    /// joined by single spaces, when there are any.
    pub fn serialize(&self) -> (r: String)
        ensures
            r@ == spec_serialize_cmd(self@),
    {
        let (name, params) = self.raw_parts();
        if params.len() == 0 {
            name
        } else {
            let mut out = name;
            out.append(" ");
            let joined = join_tokens(&params, 0);
            out.append(joined.as_str());
            proof {
                reveal_strlit(" ");
                assert(params.deep_view().skip(0) =~= params.deep_view());
                assert(out@ =~= spec_serialize_cmd(self@));
            }
            out
        }
    }
}

/// A parameter that is not the last: a plain token that does not open a
/// trailing parameter.
pub open spec fn inner_param_ok(t: Seq<char>) -> bool {
    is_token(t) && t[0] != ':'
}

/// The last parameter may instead be a trailing parameter: led by `:` and
/// surviving the re-join, which means only single spaces inside and none at
/// either end.
pub open spec fn last_param_ok(t: Seq<char>) -> bool {
    inner_param_ok(t) || (t.len() > 0 && t[0] == ':' && join_sp(split_ws(t)) == t)
}

/// A parameter list the wire grammar can carry.
pub open spec fn params_ok(ps: Seq<Seq<char>>) -> bool {
    (forall|k: int| 0 <= k < ps.len() - 1 ==> inner_param_ok(#[trigger] ps[k])) && (ps.len() > 0
        ==> last_param_ok(ps[ps.len() - 1]))
}

/// The keyword names the dispatcher recognizes.
pub open spec fn is_keyword(n: Seq<char>) -> bool {
    n == "PASS"@ || n == "NICK"@ || n == "USER"@ || n == "QUIT"@ || n == "NOTICE"@ || n
        == "PRIVMSG"@ || n == "JOIN"@ || n == "PART"@ || n == "MODE"@
}

/// A name the raw fallback can carry: a plain token that neither reads as a
/// numeric code nor matches a recognized keyword.
pub open spec fn raw_name_ok(n: Seq<char>) -> bool {
    is_token(n) && !is_u16_token(n) && !is_keyword(n)
}

/// The commands the wire grammar can produce: exactly the shapes parse can
/// ever yield for a command whose name is a proper token.
pub open spec fn wf_cmd(c: CmdM) -> bool {
    match c {
        CmdM::Pass(p) => last_param_ok(p),
        CmdM::Nick(p) => last_param_ok(p),
        CmdM::User(u, h, sv, r) => inner_param_ok(u) && inner_param_ok(h) && inner_param_ok(sv)
            && last_param_ok(r),
        CmdM::Quit => true,
        CmdM::Notice(t, x) => inner_param_ok(t) && last_param_ok(x),
        CmdM::PrivMsg(t, x) => inner_param_ok(t) && last_param_ok(x),
        CmdM::Join(p) => last_param_ok(p),
        CmdM::Reply(r) => match r {
            Ok(x) => spec_classify(x.code) == ReplyKind::Success && params_ok(x.params),
            Err(x) => spec_classify(x.code) == ReplyKind::Error && params_ok(x.params),
        },
        CmdM::Part(cs) => params_ok(cs),
        CmdM::Mode(t, _set, _f) => inner_param_ok(t),
        CmdM::Raw(n, ps) => raw_name_ok(n) && n[0] != ':' && params_ok(ps),
    }
}

/// The messages the wire grammar can produce.
pub open spec fn wf_msg(m: MsgM) -> bool {
    (match m.prefix {
        Some(p) => no_wsp(p),
        None => true,
    }) && wf_cmd(m.command)
}

/// The commands a line with a sender prefix can parse to: every well-formed
/// command, and additionally a raw command whose own name begins with `:`,
/// which parse passes through verbatim once the prefix is stripped.
pub open spec fn wf_cmd_prefixed(c: CmdM) -> bool {
    wf_cmd(c) || (match c {
        CmdM::Raw(n, ps) => raw_name_ok(n) && n[0] == ':' && params_ok(ps),
        _ => false,
    })
}

/// The keyword names are tokens, are not numeric, and are pairwise distinct.
proof fn lemma_keyword_facts()
    ensures
        is_token("PASS"@) && is_token("NICK"@) && is_token("USER"@) && is_token("QUIT"@)
            && is_token("NOTICE"@) && is_token("PRIVMSG"@) && is_token("JOIN"@) && is_token(
            "PART"@,
        ) && is_token("MODE"@),
        !is_u16_token("PASS"@) && !is_u16_token("NICK"@) && !is_u16_token("USER"@)
            && !is_u16_token("QUIT"@) && !is_u16_token("NOTICE"@) && !is_u16_token("PRIVMSG"@)
            && !is_u16_token("JOIN"@) && !is_u16_token("PART"@) && !is_u16_token("MODE"@),
        "PASS"@[0] != ':' && "NICK"@[0] != ':' && "USER"@[0] != ':' && "QUIT"@[0] != ':'
            && "NOTICE"@[0] != ':' && "PRIVMSG"@[0] != ':' && "JOIN"@[0] != ':' && "PART"@[0]
            != ':' && "MODE"@[0] != ':',
        "NICK"@ != "PASS"@,
        "USER"@ != "PASS"@ && "USER"@ != "NICK"@,
        "QUIT"@ != "PASS"@ && "QUIT"@ != "NICK"@ && "QUIT"@ != "USER"@,
        "NOTICE"@ != "PASS"@ && "NOTICE"@ != "NICK"@ && "NOTICE"@ != "USER"@ && "NOTICE"@
            != "QUIT"@,
        "PRIVMSG"@ != "PASS"@ && "PRIVMSG"@ != "NICK"@ && "PRIVMSG"@ != "USER"@ && "PRIVMSG"@
            != "QUIT"@ && "PRIVMSG"@ != "NOTICE"@,
        "JOIN"@ != "PASS"@ && "JOIN"@ != "NICK"@ && "JOIN"@ != "USER"@ && "JOIN"@ != "QUIT"@
            && "JOIN"@ != "NOTICE"@ && "JOIN"@ != "PRIVMSG"@,
        "PART"@ != "PASS"@ && "PART"@ != "NICK"@ && "PART"@ != "USER"@ && "PART"@ != "QUIT"@
            && "PART"@ != "NOTICE"@ && "PART"@ != "PRIVMSG"@ && "PART"@ != "JOIN"@,
        "MODE"@ != "PASS"@ && "MODE"@ != "NICK"@ && "MODE"@ != "USER"@ && "MODE"@ != "QUIT"@
            && "MODE"@ != "NOTICE"@ && "MODE"@ != "PRIVMSG"@ && "MODE"@ != "JOIN"@ && "MODE"@
            != "PART"@,
{
    reveal_strlit("PASS");
    reveal_strlit("NICK");
    reveal_strlit("USER");
    reveal_strlit("QUIT");
    reveal_strlit("NOTICE");
    reveal_strlit("PRIVMSG");
    reveal_strlit("JOIN");
    reveal_strlit("PART");
    reveal_strlit("MODE");
    assert(is_token("PASS"@)) by {
        assert(forall|k: int| 0 <= k < 4 ==> !is_wsp(#[trigger] "PASS"@[k]));
    }
    assert(is_token("NICK"@)) by {
        assert(forall|k: int| 0 <= k < 4 ==> !is_wsp(#[trigger] "NICK"@[k]));
    }
    assert(is_token("USER"@)) by {
        assert(forall|k: int| 0 <= k < 4 ==> !is_wsp(#[trigger] "USER"@[k]));
    }
    assert(is_token("QUIT"@)) by {
        assert(forall|k: int| 0 <= k < 4 ==> !is_wsp(#[trigger] "QUIT"@[k]));
    }
    assert(is_token("NOTICE"@)) by {
        assert(forall|k: int| 0 <= k < 6 ==> !is_wsp(#[trigger] "NOTICE"@[k]));
    }
    assert(is_token("PRIVMSG"@)) by {
        assert(forall|k: int| 0 <= k < 7 ==> !is_wsp(#[trigger] "PRIVMSG"@[k]));
    }
    assert(is_token("JOIN"@)) by {
        assert(forall|k: int| 0 <= k < 4 ==> !is_wsp(#[trigger] "JOIN"@[k]));
    }
    assert(is_token("PART"@)) by {
        assert(forall|k: int| 0 <= k < 4 ==> !is_wsp(#[trigger] "PART"@[k]));
    }
    assert(is_token("MODE"@)) by {
        assert(forall|k: int| 0 <= k < 4 ==> !is_wsp(#[trigger] "MODE"@[k]));
    }
    assert(!crate::numbers::is_digit("PASS"@[0]) && "PASS"@[0] != '+');
    assert(!crate::numbers::is_digit("NICK"@[0]) && "NICK"@[0] != '+');
    assert(!crate::numbers::is_digit("USER"@[0]) && "USER"@[0] != '+');
    assert(!crate::numbers::is_digit("QUIT"@[0]) && "QUIT"@[0] != '+');
    assert(!crate::numbers::is_digit("NOTICE"@[0]) && "NOTICE"@[0] != '+');
    assert(!crate::numbers::is_digit("PRIVMSG"@[0]) && "PRIVMSG"@[0] != '+');
    assert(!crate::numbers::is_digit("JOIN"@[0]) && "JOIN"@[0] != '+');
    assert(!crate::numbers::is_digit("PART"@[0]) && "PART"@[0] != '+');
    assert(!crate::numbers::is_digit("MODE"@[0]) && "MODE"@[0] != '+');
    assert("NICK"@ != "PASS"@) by {
        assert("NICK"@[0] != "PASS"@[0]);
    }
    assert("USER"@ != "PASS"@ && "USER"@ != "NICK"@) by {
        assert("USER"@[0] != "PASS"@[0] && "USER"@[0] != "NICK"@[0]);
    }
    assert("QUIT"@ != "PASS"@ && "QUIT"@ != "NICK"@ && "QUIT"@ != "USER"@) by {
        assert("QUIT"@[0] != "PASS"@[0] && "QUIT"@[0] != "NICK"@[0] && "QUIT"@[0]
            != "USER"@[0]);
    }
    assert("JOIN"@ != "PASS"@ && "JOIN"@ != "NICK"@ && "JOIN"@ != "USER"@ && "JOIN"@
        != "QUIT"@) by {
        assert("JOIN"@[0] != "PASS"@[0] && "JOIN"@[0] != "NICK"@[0] && "JOIN"@[0] != "USER"@[0]
            && "JOIN"@[0] != "QUIT"@[0]);
    }
    assert("PART"@ != "PASS"@) by {
        assert("PART"@[2] != "PASS"@[2]);
    }
    assert("PART"@ != "NICK"@ && "PART"@ != "USER"@ && "PART"@ != "QUIT"@ && "PART"@
        != "JOIN"@) by {
        assert("PART"@[0] != "NICK"@[0] && "PART"@[0] != "USER"@[0] && "PART"@[0] != "QUIT"@[0]
            && "PART"@[0] != "JOIN"@[0]);
    }
    assert("MODE"@ != "PASS"@ && "MODE"@ != "NICK"@ && "MODE"@ != "USER"@ && "MODE"@ != "QUIT"@
        && "MODE"@ != "JOIN"@ && "MODE"@ != "PART"@) by {
        assert("MODE"@[0] != "PASS"@[0] && "MODE"@[0] != "NICK"@[0] && "MODE"@[0] != "USER"@[0]
            && "MODE"@[0] != "QUIT"@[0] && "MODE"@[0] != "JOIN"@[0] && "MODE"@[0]
            != "PART"@[0]);
    }
}

/// Collecting simple non-trailing tokens keeps them one parameter each.
proof fn lemma_collect_simple(ps: Seq<Seq<char>>)
    requires
        forall|k: int| 0 <= k < ps.len() ==> (#[trigger] ps[k]).len() > 0 && ps[k][0] != ':',
    ensures
        collect_params(ps) == ps,
    decreases ps.len(),
{
    if ps.len() == 0 {
        assert(collect_params(ps) =~= ps);
    } else {
        lemma_collect_simple(ps.drop_first());
        assert(seq![ps[0]] + ps.drop_first() =~= ps);
    }
}

/// Collecting simple tokens and then a `:`-led tail keeps the tokens one
/// parameter each and joins the whole tail into one trailing parameter.
proof fn lemma_collect_with_trailing(front: Seq<Seq<char>>, tail: Seq<Seq<char>>)
    requires
        forall|k: int| 0 <= k < front.len() ==> (#[trigger] front[k]).len() > 0 && front[k][0]
            != ':',
        tail.len() > 0,
        tail[0].len() > 0,
        tail[0][0] == ':',
    ensures
        collect_params(front + tail) == front.push(join_sp(tail)),
    decreases front.len(),
{
    if front.len() == 0 {
        assert(front + tail =~= tail);
        assert(collect_params(tail) == seq![join_sp(tail)]);
        assert(front.push(join_sp(tail)) =~= seq![join_sp(tail)]);
    } else {
        let whole = front + tail;
        assert(whole[0] == front[0]);
        assert(whole.drop_first() =~= front.drop_first() + tail);
        lemma_collect_with_trailing(front.drop_first(), tail);
        assert(seq![front[0]] + front.drop_first().push(join_sp(tail)) =~= front.push(
            join_sp(tail),
        ));
    }
}

/// The first character of a join is the first character of the first token.
proof fn lemma_join_head(ts: Seq<Seq<char>>)
    requires
        ts.len() > 0,
        ts[0].len() > 0,
    ensures
        join_sp(ts).len() > 0,
        join_sp(ts)[0] == ts[0][0],
{
    if ts.len() == 1 {
    } else {
        assert((ts[0] + seq![' '] + join_sp(ts.drop_first()))[0] == ts[0][0]);
    }
}

/// Whatever the collector folds a token list into is a well-formed parameter
/// list of the grammar.
proof fn lemma_collect_params_ok(ts: Seq<Seq<char>>)
    requires
        forall|k: int| 0 <= k < ts.len() ==> is_token(#[trigger] ts[k]),
    ensures
        params_ok(collect_params(ts)),
        collect_params(ts).len() > 0 <==> ts.len() > 0,
    decreases ts.len(),
{
    if ts.len() == 0 {
    } else if ts[0].len() > 0 && ts[0][0] == ':' {
        let t = join_sp(ts);
        lemma_join_head(ts);
        crate::tokens::lemma_split_join(ts);
        assert(last_param_ok(t));
        assert(collect_params(ts) == seq![t]);
        assert(params_ok(seq![t]));
    } else {
        lemma_collect_params_ok(ts.drop_first());
        let rest = collect_params(ts.drop_first());
        let whole = seq![ts[0]] + rest;
        assert(inner_param_ok(ts[0]));
        assert forall|k: int| 0 <= k < whole.len() - 1 implies inner_param_ok(
            #[trigger] whole[k],
        ) by {
            if k == 0 {
                assert(whole[0] == ts[0]);
            } else {
                assert(whole[k] == rest[k - 1]);
            }
        }
        if whole.len() > 0 {
            if whole.len() == 1 {
                assert(whole[0] == ts[0]);
            } else {
                assert(whole[whole.len() - 1] == rest[rest.len() - 1]);
            }
        }
    }
}

/// Every letter of a canonical flag encoding is a flag letter, so the whole
/// mode token is a plain token.
proof fn lemma_encode_flags_chars(f: UserFlags)
    ensures
        forall|k: int|
            0 <= k < spec_encode_flags(f).len() ==> {
                let c = #[trigger] spec_encode_flags(f)[k];
                c == 'i' || c == 's' || c == 'w' || c == 'o'
            },
{
    assert forall|k: int| 0 <= k < spec_encode_flags(f).len() implies {
        let c = #[trigger] spec_encode_flags(f)[k];
        c == 'i' || c == 's' || c == 'w' || c == 'o'
    } by {
        let e = spec_encode_flags(f);
        assert(e[k] == 'i' || e[k] == 's' || e[k] == 'w' || e[k] == 'o');
    }
}

/// The fallback name of a well-formed command is a plain token that is not
/// `:`-led.
proof fn lemma_fallback_name_ok(c: CmdM)
    requires
        wf_cmd_prefixed(c),
    ensures
        is_token(fallback_name(c)),
        wf_cmd(c) ==> fallback_name(c)[0] != ':',
{
    lemma_keyword_facts();
    match c {
        CmdM::Reply(r) => {
            let code = (match r {
                Ok(x) => x,
                Err(x) => x,
            }).code;
            crate::numbers::lemma_dec_str_token(code as nat);
        },
        _ => {},
    }
}

/// The fallback parameters of a well-formed command form a well-formed
/// parameter list.
proof fn lemma_fallback_params_ok(c: CmdM)
    requires
        wf_cmd_prefixed(c),
    ensures
        params_ok(fallback_params(c)),
{
    match c {
        CmdM::Mode(t, set, f) => {
            let sgn = if set {
                '+'
            } else {
                '-'
            };
            let tok = seq![sgn] + spec_encode_flags(f);
            lemma_encode_flags_chars(f);
            assert(tok[0] == sgn);
            assert forall|k: int| 0 <= k < tok.len() implies !is_wsp(#[trigger] tok[k]) by {
                if k > 0 {
                    assert(tok[k] == spec_encode_flags(f)[k - 1]);
                }
            }
            assert(inner_param_ok(tok));
            let ps = fallback_params(c);
            assert(ps[0] == t && ps[1] == tok);
            assert(params_ok(ps)) by {
                assert(forall|k: int| 0 <= k < ps.len() - 1 ==> inner_param_ok(
                    #[trigger] ps[k],
                ));
            }
        },
        _ => {},
    }
}

/// Dispatching the fallback form of a well-formed command rebuilds exactly
/// that command.
proof fn lemma_dispatch_inverse(c: CmdM)
    requires
        wf_cmd_prefixed(c),
    ensures
        spec_dispatch(fallback_name(c), fallback_params(c)) == Ok::<CmdM, ParseCommandError>(c),
{
    lemma_keyword_facts();
    let n = fallback_name(c);
    let ps = fallback_params(c);
    match c {
        CmdM::Reply(r) => {
            let x = match r {
                Ok(x) => x,
                Err(x) => x,
            };
            crate::numbers::lemma_dec_str_token(x.code as nat);
            assert(u16_token_val(n) as u16 == x.code);
            assert(ReplyM { code: x.code, params: ps } =~= x);
        },
        CmdM::Mode(t, set, f) => {
            let sgn = if set {
                '+'
            } else {
                '-'
            };
            let tok = seq![sgn] + spec_encode_flags(f);
            assert(ps[1] == tok);
            assert(tok[0] == sgn);
            assert(tok.drop_first() =~= spec_encode_flags(f));
            assert(crate::users::spec_sign(tok) == Ok::<bool, ParseCommandError>(set));
            crate::users::lemma_flags_decode_encode(f);
            assert(spec_decode(tok, tok.drop_first()) == Ok::<
                (bool, UserFlags),
                ParseCommandError,
            >((set, f)));
        },
        _ => {},
    }
}

/// Serialized text of a well-formed command parses back to exactly that
/// command, and its first token never looks like a prefix.
proof fn lemma_cmd_round_trip(c: CmdM)
    requires
        wf_cmd_prefixed(c),
    ensures
        split_ws(spec_serialize_cmd(c)).len() > 0,
        split_ws(spec_serialize_cmd(c))[0].len() > 0,
        wf_cmd(c) ==> split_ws(spec_serialize_cmd(c))[0][0] != ':',
        spec_parse_tokens(split_ws(spec_serialize_cmd(c))) == Ok::<CmdM, ParseCommandError>(c),
{
    let n = fallback_name(c);
    let ps = fallback_params(c);
    lemma_fallback_name_ok(c);
    lemma_fallback_params_ok(c);
    lemma_dispatch_inverse(c);
    if ps.len() == 0 {
        crate::tokens::lemma_split_single(n);
        assert(seq![n][0] == n);
        assert(seq![n].drop_first() =~= Seq::<Seq<char>>::empty());
        assert(collect_params(Seq::<Seq<char>>::empty()) =~= ps);
    } else {
        let front = ps.drop_last();
        let t = ps.last();
        assert(ps =~= front.push(t));
        assert forall|k: int| 0 <= k < front.len() implies is_token(#[trigger] front[k]) by {
            assert(front[k] == ps[k]);
            assert(inner_param_ok(ps[k]));
        }
        assert(last_param_ok(t));
        assert(t.len() > 0 && !is_wsp(t[0])) by {
            if inner_param_ok(t) {
            } else {
                assert(t[0] == ':');
            }
        }
        crate::tokens::lemma_split_join_front(front, t);
        crate::tokens::lemma_split_token_sp(n, join_sp(ps));
        let ts = seq![n] + (front + split_ws(t));
        assert(split_ws(spec_serialize_cmd(c)) == ts);
        assert(ts[0] == n);
        assert(ts.drop_first() =~= front + split_ws(t));
        assert forall|k: int| 0 <= k < front.len() implies (#[trigger] front[k]).len() > 0
            && front[k][0] != ':' by {
            assert(front[k] == ps[k]);
            assert(inner_param_ok(ps[k]));
        }
        if inner_param_ok(t) {
            crate::tokens::lemma_split_single(t);
            assert(front + split_ws(t) =~= ps);
            lemma_collect_simple(ps);
        } else {
            crate::tokens::lemma_split_first_char(t);
            lemma_collect_with_trailing(front, split_ws(t));
            assert(join_sp(split_ws(t)) == t);
            assert(front.push(t) =~= ps);
        }
        assert(collect_params(ts.drop_first()) == ps);
    }
}

/// A message with a sender prefix round-trips whenever its command does,
/// whether or not the command's own name is `:`-led.
proof fn lemma_msg_round_trip_prefixed(p: Seq<char>, c: CmdM)
    requires
        no_wsp(p),
        wf_cmd_prefixed(c),
    ensures
        spec_parse(spec_serialize(MsgM { prefix: Some(p), command: c })) == Ok::<
            MsgM,
            ParseCommandError,
        >(MsgM { prefix: Some(p), command: c }),
{
    lemma_cmd_round_trip(c);
    let m = MsgM { prefix: Some(p), command: c };
    let ct = spec_serialize_cmd(c);
    let ptok = seq![':'] + p;
    assert(is_token(ptok)) by {
        assert(ptok[0] == ':');
        assert(forall|k: int| 0 <= k < p.len() ==> ptok[k + 1] == #[trigger] p[k]);
        assert(forall|k: int| 0 <= k < ptok.len() ==> !is_wsp(#[trigger] ptok[k]));
    }
    crate::tokens::lemma_split_token_sp(ptok, ct);
    let ts = seq![ptok] + split_ws(ct);
    assert(split_ws(spec_serialize(m)) == ts) by {
        assert(ptok + seq![' '] + ct =~= seq![':'] + p + seq![' '] + ct);
    }
    assert(ts[0] == ptok);
    assert(ts[0][0] == ':');
    assert(ts.drop_first() =~= split_ws(ct));
    assert(ptok.drop_first() =~= p);
}

/// Round trip: serializing any message the wire grammar can produce and
/// parsing the text back yields the same message.
pub proof fn lemma_round_trip(m: MsgM)
    requires
        wf_msg(m),
    ensures
        spec_parse(spec_serialize(m)) == Ok::<MsgM, ParseCommandError>(m),
{
    match m.prefix {
        Some(p) => {
            lemma_msg_round_trip_prefixed(p, m.command);
            assert(MsgM { prefix: Some(p), command: m.command } =~= m);
        },
        None => {
            lemma_cmd_round_trip(m.command);
            assert(Ok::<MsgM, ParseCommandError>(MsgM { prefix: None, command: m.command })
                =~= Ok::<MsgM, ParseCommandError>(m));
        },
    }
}

/// The fallback projection is a fixed point: projecting a fallback again
/// yields the same fallback.
pub proof fn lemma_fallback_fixed_point(c: CmdM)
    ensures
        spec_raw(spec_raw(c)) == spec_raw(c),
{
}

/// Whatever dispatch accepts is well formed, unless the name itself was
/// `:`-led text passed through into the raw fallback.
proof fn lemma_dispatch_wf(name: Seq<char>, params: Seq<Seq<char>>)
    requires
        is_token(name),
        params_ok(params),
    ensures
        spec_dispatch(name, params) matches Ok(c) ==> wf_cmd_prefixed(c),
        name[0] != ':' ==> (spec_dispatch(name, params) matches Ok(c) ==> wf_cmd(c)),
{
    if is_u16_token(name) {
    } else {
        assert forall|k: int| 0 <= k < params.len() implies last_param_ok(
            #[trigger] params[k],
        ) by {
            if k < params.len() - 1 {
                assert(inner_param_ok(params[k]));
            }
        }
    }
}

/// Everything parse yields is well formed: a message without a prefix is
/// always a grammar message, and behind a prefix the command is at worst the
/// raw pass-through of a `:`-led name.
pub proof fn lemma_parse_wf(s: Seq<char>)
    ensures
        spec_parse(s) matches Ok(m) ==> {
            &&& m.prefix is None ==> wf_msg(m)
            &&& m.prefix matches Some(p) ==> no_wsp(p) && wf_cmd_prefixed(m.command)
        },
{
    crate::tokens::lemma_split_tokens_ok(s);
    let ts = split_ws(s);
    if ts.len() == 0 {
    } else if ts[0][0] == ':' {
        let ts2 = ts.drop_first();
        if ts2.len() > 0 {
            assert forall|k: int| 0 <= k < ts2.len() implies is_token(#[trigger] ts2[k]) by {
                assert(ts2[k] == ts[k + 1]);
            }
            assert forall|k: int| 0 <= k < ts2.drop_first().len() implies is_token(
                #[trigger] ts2.drop_first()[k],
            ) by {
                assert(ts2.drop_first()[k] == ts2[k + 1]);
            }
            lemma_collect_params_ok(ts2.drop_first());
            lemma_dispatch_wf(ts2[0], collect_params(ts2.drop_first()));
            assert(no_wsp(ts[0].drop_first())) by {
                assert(forall|k: int|
                    0 <= k < ts[0].drop_first().len() ==> #[trigger] ts[0].drop_first()[k]
                        == ts[0][k + 1]);
            }
        }
    } else {
        assert forall|k: int| 0 <= k < ts.drop_first().len() implies is_token(
            #[trigger] ts.drop_first()[k],
        ) by {
            assert(ts.drop_first()[k] == ts[k + 1]);
        }
        lemma_collect_params_ok(ts.drop_first());
        lemma_dispatch_wf(ts[0], collect_params(ts.drop_first()));
    }
}

/// Serialize after parse is faithful: any line parse accepts serializes to
/// text that parses back to the very same message, whatever whitespace or
/// token shapes the original line used.
pub proof fn lemma_parse_serialize_parse(s: Seq<char>)
    ensures
        spec_parse(s) matches Ok(m) ==> spec_parse(spec_serialize(m)) == Ok::<
            MsgM,
            ParseCommandError,
        >(m),
{
    lemma_parse_wf(s);
    if spec_parse(s) is Ok {
        let m = spec_parse(s)->Ok_0;
        match m.prefix {
            Some(p) => {
                lemma_msg_round_trip_prefixed(p, m.command);
                assert(MsgM { prefix: Some(p), command: m.command } =~= m);
            },
            None => {
                lemma_round_trip(m);
            },
        }
    }
}

/// Attaching a prefix token changes only the prefix: the rest of the line
/// parses to the same command.
pub proof fn lemma_prefix(p: Seq<char>, rest: Seq<char>)
    requires
        no_wsp(p),
        split_ws(rest).len() > 0,
        split_ws(rest)[0][0] != ':',
    ensures
        spec_parse(seq![':'] + p + seq![' '] + rest) == (match spec_parse(rest) {
            Ok(m) => Ok::<MsgM, ParseCommandError>(MsgM { prefix: Some(p), command: m.command }),
            Err(e) => Err(e),
        }),
{
    let ptok = seq![':'] + p;
    assert(is_token(ptok)) by {
        assert(ptok[0] == ':');
        assert(forall|k: int| 0 <= k < p.len() ==> ptok[k + 1] == #[trigger] p[k]);
        assert(forall|k: int| 0 <= k < ptok.len() ==> !is_wsp(#[trigger] ptok[k]));
    }
    crate::tokens::lemma_split_token_sp(ptok, rest);
    let s = seq![':'] + p + seq![' '] + rest;
    assert(split_ws(s) == seq![ptok] + split_ws(rest)) by {
        assert(ptok + seq![' '] + rest =~= s);
    }
    let ts = seq![ptok] + split_ws(rest);
    assert(ts[0] == ptok && ts[0][0] == ':');
    assert(ts.drop_first() =~= split_ws(rest));
    assert(ptok.drop_first() =~= p);
}

} // verus!
