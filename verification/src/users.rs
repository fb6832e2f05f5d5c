//! Users and their mode flags, with the canonical single-letter flag codec.

use vstd::prelude::*;

use crate::messages::{CmdM, Command, Message, MsgM, ParseCommandError};

verus! {

/// A connected user: identity strings and the mode flags currently set.
#[derive(Debug, Clone)]
pub struct User {
    pub nickname: String,
    pub username: String,
    pub hostname: String,
    pub servername: String,
    pub realname: String,
    pub flags: UserFlags,
}

impl User {
    /// The nickname-registration message for this user.
    pub fn nick_command(&self) -> (r: Message)
        ensures
            r@ == (MsgM { prefix: None, command: CmdM::Nick(self.nickname@) }),
    {
        Message { prefix: None, command: Command::Nick(self.nickname.clone()) }
    }

    /// The user-registration message for this user.
    pub fn user_command(&self) -> (r: Message)
        ensures
            r@ == (MsgM {
                prefix: None,
                command: CmdM::User(
                    self.username@,
                    self.hostname@,
                    self.servername@,
                    self.realname@,
                ),
            }),
    {
        Message {
            prefix: None,
            command: Command::User(
                self.username.clone(),
                self.hostname.clone(),
                self.servername.clone(),
                self.realname.clone(),
            ),
        }
    }
}

/// The named boolean flags a mode-change command can set. The canonical text
/// form writes one letter per set flag, in the fixed order `i`, `s`, `w`, `o`.
#[derive(Debug, Clone, Copy, PartialEq, Eq, Structural)]
pub struct UserFlags {
    pub invisible: bool,
    pub server_notices: bool,
    pub wallops: bool,
    pub operator: bool,
}

/// The flag set with no flag raised.
pub open spec fn flags_none() -> UserFlags {
    UserFlags { invisible: false, server_notices: false, wallops: false, operator: false }
}

/// Canonical text form of a flag set: letters of set flags in the order `i`, `s`, `w`, `o`.
pub open spec fn spec_encode_flags(f: UserFlags) -> Seq<char> {
    (if f.invisible {
        seq!['i']
    } else {
        Seq::<char>::empty()
    }) + (if f.server_notices {
        seq!['s']
    } else {
        Seq::<char>::empty()
    }) + (if f.wallops {
        seq!['w']
    } else {
        Seq::<char>::empty()
    }) + (if f.operator {
        seq!['o']
    } else {
        Seq::<char>::empty()
    })
}

/// Reads flag letters left to right, raising the matching flag of `acc` for
/// each, and fails on the first letter that is not `i`, `s`, `w` or `o`.
pub open spec fn spec_decode_flags(s: Seq<char>, acc: UserFlags) -> Result<
    UserFlags,
    ParseCommandError,
>
    decreases s.len(),
{
    if s.len() == 0 {
        Ok(acc)
    } else if s[0] == 'i' {
        spec_decode_flags(
            s.drop_first(),
            UserFlags {
                invisible: true,
                server_notices: acc.server_notices,
                wallops: acc.wallops,
                operator: acc.operator,
            },
        )
    } else if s[0] == 's' {
        spec_decode_flags(
            s.drop_first(),
            UserFlags {
                invisible: acc.invisible,
                server_notices: true,
                wallops: acc.wallops,
                operator: acc.operator,
            },
        )
    } else if s[0] == 'w' {
        spec_decode_flags(
            s.drop_first(),
            UserFlags {
                invisible: acc.invisible,
                server_notices: acc.server_notices,
                wallops: true,
                operator: acc.operator,
            },
        )
    } else if s[0] == 'o' {
        spec_decode_flags(
            s.drop_first(),
            UserFlags {
                invisible: acc.invisible,
                server_notices: acc.server_notices,
                wallops: acc.wallops,
                operator: true,
            },
        )
    } else {
        Err(ParseCommandError::InvalidFlag(s[0]))
    }
}

/// The sign a mode-change token selects: `+` raises flags, `-` lowers them.
/// Only the first character of the token decides.
pub open spec fn spec_sign(s: Seq<char>) -> Result<bool, ParseCommandError> {
    if s.len() == 0 {
        Err(ParseCommandError::InvalidSign)
    } else if s[0] == '+' {
        Ok(true)
    } else if s[0] == '-' {
        Ok(false)
    } else {
        Err(ParseCommandError::InvalidSign)
    }
}

/// What decoding a sign token and a letter string yields.
pub open spec fn spec_decode(sign: Seq<char>, letters: Seq<char>) -> Result<
    (bool, UserFlags),
    ParseCommandError,
> {
    match spec_sign(sign) {
        Ok(b) => match spec_decode_flags(letters, flags_none()) {
            Ok(f) => Ok((b, f)),
            Err(e) => Err(e),
        },
        Err(e) => Err(e),
    }
}

impl UserFlags {
    /// Encodes the set flags as their letters in the fixed order `i`, `s`, `w`, `o`.
    pub fn encode(&self) -> (r: String)
        ensures
            r@ == spec_encode_flags(*self),
    {
        let mut s = String::new();
        if self.invisible {
            s.append("i");
        }
        if self.server_notices {
            s.append("s");
        }
        if self.wallops {
            s.append("w");
        }
        if self.operator {
            s.append("o");
        }
        proof {
            reveal_strlit("i");
            reveal_strlit("s");
            reveal_strlit("w");
            reveal_strlit("o");
            assert(s@ =~= spec_encode_flags(*self));
        }
        s
    }

    /// Decodes a sign token and a string of flag letters; any letter outside
    /// the recognized set fails, as does a sign that is not `+` or `-`.
    pub fn decode(sign: &str, letters: &str) -> (r: Result<(bool, UserFlags), ParseCommandError>)
        ensures
            r == spec_decode(sign@, letters@),
    {
        if sign.unicode_len() == 0 {
            return Err(ParseCommandError::InvalidSign);
        }
        let c = sign.get_char(0);
        let set: bool = if c == '+' {
            true
        } else if c == '-' {
            false
        } else {
            return Err(ParseCommandError::InvalidSign);
        };
        proof {
            assert(spec_sign(sign@) == Ok::<bool, ParseCommandError>(set));
        }
        let n = letters.unicode_len();
        let mut f = UserFlags {
            invisible: false,
            server_notices: false,
            wallops: false,
            operator: false,
        };
        let mut i: usize = 0;
        proof {
            assert(letters@.skip(0) =~= letters@);
        }
        while i < n
            invariant
                n == letters@.len(),
                0 <= i <= n,
                spec_sign(sign@) == Ok::<bool, ParseCommandError>(set),
                spec_decode_flags(letters@, flags_none()) == spec_decode_flags(
                    letters@.skip(i as int),
                    f,
                ),
            decreases n - i,
        {
            let c = letters.get_char(i);
            proof {
                assert(letters@.skip(i as int)[0] == c);
                assert(letters@.skip(i as int).drop_first() =~= letters@.skip(i as int + 1));
            }
            if c == 'i' {
                f = UserFlags {
                    invisible: true,
                    server_notices: f.server_notices,
                    wallops: f.wallops,
                    operator: f.operator,
                };
            } else if c == 's' {
                f = UserFlags {
                    invisible: f.invisible,
                    server_notices: true,
                    wallops: f.wallops,
                    operator: f.operator,
                };
            } else if c == 'w' {
                f = UserFlags {
                    invisible: f.invisible,
                    server_notices: f.server_notices,
                    wallops: true,
                    operator: f.operator,
                };
            } else if c == 'o' {
                f = UserFlags {
                    invisible: f.invisible,
                    server_notices: f.server_notices,
                    wallops: f.wallops,
                    operator: true,
                };
            } else {
                return Err(ParseCommandError::InvalidFlag(c));
            }
            i = i + 1;
        }
        proof {
            assert(letters@.skip(n as int) =~= Seq::<char>::empty());
        }
        Ok((set, f))
    }
}

impl Default for UserFlags {
    /// The flag set with no flag raised.
    fn default() -> (r: Self)
        ensures
            r == flags_none(),
    {
        UserFlags { invisible: false, server_notices: false, wallops: false, operator: false }
    }
}

/// Decoding splits over concatenated letter strings: the left part runs first
/// and the right part continues from whatever flags the left part reached.
proof fn lemma_decode_flags_append(a: Seq<char>, b: Seq<char>, acc: UserFlags)
    ensures
        spec_decode_flags(a + b, acc) == match spec_decode_flags(a, acc) {
            Ok(f) => spec_decode_flags(b, f),
            Err(e) => Err(e),
        },
    decreases a.len(),
{
    if a.len() == 0 {
        assert(a + b =~= b);
    } else {
        assert((a + b).drop_first() =~= a.drop_first() + b);
        assert((a + b)[0] == a[0]);
        if a[0] == 'i' {
            lemma_decode_flags_append(
                a.drop_first(),
                b,
                UserFlags {
                    invisible: true,
                    server_notices: acc.server_notices,
                    wallops: acc.wallops,
                    operator: acc.operator,
                },
            );
        } else if a[0] == 's' {
            lemma_decode_flags_append(
                a.drop_first(),
                b,
                UserFlags {
                    invisible: acc.invisible,
                    server_notices: true,
                    wallops: acc.wallops,
                    operator: acc.operator,
                },
            );
        } else if a[0] == 'w' {
            lemma_decode_flags_append(
                a.drop_first(),
                b,
                UserFlags {
                    invisible: acc.invisible,
                    server_notices: acc.server_notices,
                    wallops: true,
                    operator: acc.operator,
                },
            );
        } else if a[0] == 'o' {
            lemma_decode_flags_append(
                a.drop_first(),
                b,
                UserFlags {
                    invisible: acc.invisible,
                    server_notices: acc.server_notices,
                    wallops: acc.wallops,
                    operator: true,
                },
            );
        }
    }
}

/// Decoding the canonical encoding of a flag set yields that flag set back:
/// the letter codec is a bijection between flag sets and canonical strings.
pub proof fn lemma_flags_decode_encode(f: UserFlags)
    ensures
        spec_decode_flags(spec_encode_flags(f), flags_none()) == Ok::<
            UserFlags,
            ParseCommandError,
        >(f),
{
    let ci = if f.invisible {
        seq!['i']
    } else {
        Seq::<char>::empty()
    };
    let cs = if f.server_notices {
        seq!['s']
    } else {
        Seq::<char>::empty()
    };
    let cw = if f.wallops {
        seq!['w']
    } else {
        Seq::<char>::empty()
    };
    let co = if f.operator {
        seq!['o']
    } else {
        Seq::<char>::empty()
    };
    let f0 = flags_none();
    let f1 = UserFlags { invisible: f.invisible, ..f0 };
    let f2 = UserFlags { server_notices: f.server_notices, ..f1 };
    let f3 = UserFlags { wallops: f.wallops, ..f2 };
    lemma_decode_flags_append(ci, cs + cw + co, f0);
    lemma_decode_flags_append(cs, cw + co, f1);
    lemma_decode_flags_append(cw, co, f2);
    assert(spec_encode_flags(f) =~= ci + (cs + cw + co));
    assert(cs + cw + co =~= cs + (cw + co));
    assert(spec_decode_flags(ci, f0) == Ok::<UserFlags, ParseCommandError>(f1)) by {
        reveal_with_fuel(spec_decode_flags, 3);
        if f.invisible {
            assert(ci.drop_first() =~= Seq::<char>::empty());
        }
    }
    assert(spec_decode_flags(cs, f1) == Ok::<UserFlags, ParseCommandError>(f2)) by {
        reveal_with_fuel(spec_decode_flags, 3);
        if f.server_notices {
            assert(cs.drop_first() =~= Seq::<char>::empty());
        }
    }
    assert(spec_decode_flags(cw, f2) == Ok::<UserFlags, ParseCommandError>(f3)) by {
        reveal_with_fuel(spec_decode_flags, 3);
        if f.wallops {
            assert(cw.drop_first() =~= Seq::<char>::empty());
        }
    }
    assert(spec_decode_flags(co, f3) == Ok::<UserFlags, ParseCommandError>(f)) by {
        reveal_with_fuel(spec_decode_flags, 3);
        if f.operator {
            assert(co.drop_first() =~= Seq::<char>::empty());
        }
    }
}

} // verus!
