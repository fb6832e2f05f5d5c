//! Whitespace tokenization of a wire line and the single-space join used by
//! serialization, with the lemmas that tie the two operations together.

use vstd::prelude::*;

verus! {

/// The characters the tokenizer treats as whitespace.
pub open spec fn is_wsp(c: char) -> bool {
    c == ' ' || c == '\t' || c == '\r' || c == '\n'
}

/// The tokens of `s` from position `i` on, where `cur` holds the characters
/// of the token in progress.
pub open spec fn split_ws_at(s: Seq<char>, i: int, cur: Seq<char>) -> Seq<Seq<char>>
    decreases s.len() - i,
{
    if i < 0 || i >= s.len() {
        if cur.len() == 0 {
            Seq::empty()
        } else {
            seq![cur]
        }
    } else if is_wsp(s[i]) {
        if cur.len() == 0 {
            split_ws_at(s, i + 1, Seq::empty())
        } else {
            seq![cur] + split_ws_at(s, i + 1, Seq::empty())
        }
    } else {
        split_ws_at(s, i + 1, cur.push(s[i]))
    }
}

/// The whitespace-separated tokens of `s`, in order.
pub open spec fn split_ws(s: Seq<char>) -> Seq<Seq<char>> {
    split_ws_at(s, 0, Seq::empty())
}

/// The tokens joined back into one line, a single space between each pair.
pub open spec fn join_sp(ts: Seq<Seq<char>>) -> Seq<char>
    decreases ts.len(),
{
    if ts.len() == 0 {
        Seq::empty()
    } else if ts.len() == 1 {
        ts[0]
    } else {
        ts[0] + seq![' '] + join_sp(ts.drop_first())
    }
}

/// Whether no character of `t` is whitespace.
pub open spec fn no_wsp(t: Seq<char>) -> bool {
    forall|k: int| 0 <= k < t.len() ==> !is_wsp(#[trigger] t[k])
}

/// A token as the splitter produces them: nonempty and free of whitespace.
pub open spec fn is_token(t: Seq<char>) -> bool {
    t.len() > 0 && no_wsp(t)
}

/// Scanning across non-whitespace characters only grows the token in progress.
proof fn lemma_scan_token(s: Seq<char>, i: int, j: int, cur: Seq<char>)
    requires
        0 <= i <= j <= s.len(),
        forall|k: int| i <= k < j ==> !is_wsp(#[trigger] s[k]),
    ensures
        split_ws_at(s, i, cur) == split_ws_at(s, j, cur + s.subrange(i, j)),
    decreases j - i,
{
    if i == j {
        assert(cur + s.subrange(i, j) =~= cur);
    } else {
        lemma_scan_token(s, i + 1, j, cur.push(s[i]));
        assert(cur.push(s[i]) + s.subrange(i + 1, j) =~= cur + s.subrange(i, j));
    }
}

/// The splitter on a suffix of `s` behaves as the splitter on `s` does from
/// the corresponding shifted position.
proof fn lemma_split_shift(s: Seq<char>, d: int, i: int, cur: Seq<char>)
    requires
        0 <= d,
        0 <= i,
        d + i <= s.len(),
    ensures
        split_ws_at(s.skip(d), i, cur) == split_ws_at(s, d + i, cur),
    decreases s.len() - d - i,
{
    if d + i >= s.len() {
    } else {
        assert(s.skip(d)[i] == s[d + i]);
        if is_wsp(s[d + i]) {
            lemma_split_shift(s, d, i + 1, Seq::empty());
        } else {
            lemma_split_shift(s, d, i + 1, cur.push(s[d + i]));
        }
    }
}

/// A lone token splits into itself.
pub proof fn lemma_split_single(t: Seq<char>)
    requires
        is_token(t),
    ensures
        split_ws(t) == seq![t],
{
    lemma_scan_token(t, 0, t.len() as int, Seq::empty());
    assert(Seq::<char>::empty() + t.subrange(0, t.len() as int) =~= t);
}

/// Splitting a token, a space and a remainder yields the token and then the
/// remainder's own tokens.
pub proof fn lemma_split_token_sp(t: Seq<char>, r: Seq<char>)
    requires
        is_token(t),
    ensures
        split_ws(t + seq![' '] + r) == seq![t] + split_ws(r),
{
    let s = t + seq![' '] + r;
    assert(forall|k: int| 0 <= k < t.len() ==> s[k] == t[k]);
    lemma_scan_token(s, 0, t.len() as int, Seq::empty());
    assert(Seq::<char>::empty() + s.subrange(0, t.len() as int) =~= t);
    assert(s[t.len() as int] == ' ');
    lemma_split_shift(s, t.len() as int + 1, 0, Seq::empty());
    assert(s.skip(t.len() as int + 1) =~= r);
}

/// Splitting the join of simple tokens followed by one last piece that starts
/// without whitespace yields the tokens and then the last piece's own tokens.
pub proof fn lemma_split_join_front(front: Seq<Seq<char>>, t: Seq<char>)
    requires
        forall|k: int| 0 <= k < front.len() ==> is_token(#[trigger] front[k]),
        t.len() > 0,
        !is_wsp(t[0]),
    ensures
        split_ws(join_sp(front.push(t))) == front + split_ws(t),
    decreases front.len(),
{
    if front.len() == 0 {
        assert(join_sp(front.push(t)) == t);
        assert(front + split_ws(t) =~= split_ws(t));
    } else {
        let ps = front.push(t);
        assert(ps.len() >= 2);
        assert(ps.drop_first() =~= front.drop_first().push(t));
        lemma_split_token_sp(front[0], join_sp(front.drop_first().push(t)));
        lemma_split_join_front(front.drop_first(), t);
        assert(seq![front[0]] + (front.drop_first() + split_ws(t)) =~= front + split_ws(t));
    }
}

/// A list of simple tokens is recovered exactly by splitting its join.
pub proof fn lemma_split_join(ts: Seq<Seq<char>>)
    requires
        forall|k: int| 0 <= k < ts.len() ==> is_token(#[trigger] ts[k]),
    ensures
        split_ws(join_sp(ts)) == ts,
{
    if ts.len() == 0 {
        assert(split_ws(join_sp(ts)) =~= ts);
    } else {
        let front = ts.drop_last();
        let t = ts.last();
        assert(ts =~= front.push(t));
        lemma_split_join_front(front, t);
        lemma_split_single(t);
        assert(front + seq![t] =~= ts);
    }
}

/// The first token of a string that opens with a non-whitespace character
/// begins with that same character.
pub proof fn lemma_split_first_char(t: Seq<char>)
    requires
        t.len() > 0,
        !is_wsp(t[0]),
    ensures
        split_ws(t).len() > 0,
        split_ws(t)[0].len() > 0,
        split_ws(t)[0][0] == t[0],
{
    assert(split_ws(t) == split_ws_at(t, 1, Seq::<char>::empty().push(t[0])));
    lemma_split_head(t, 1, Seq::<char>::empty().push(t[0]));
}

/// The first token the splitter yields starts with the token in progress.
proof fn lemma_split_head(s: Seq<char>, i: int, cur: Seq<char>)
    requires
        cur.len() > 0,
    ensures
        split_ws_at(s, i, cur).len() > 0,
        split_ws_at(s, i, cur)[0].len() > 0,
        split_ws_at(s, i, cur)[0][0] == cur[0],
    decreases s.len() - i,
{
    if i < 0 || i >= s.len() {
    } else if is_wsp(s[i]) {
    } else {
        lemma_split_head(s, i + 1, cur.push(s[i]));
    }
}

/// Every token the splitter yields is nonempty and free of whitespace.
pub proof fn lemma_split_tokens_ok(s: Seq<char>)
    ensures
        forall|k: int| 0 <= k < split_ws(s).len() ==> is_token(#[trigger] split_ws(s)[k]),
{
    lemma_split_at_tokens_ok(s, 0, Seq::empty());
}

proof fn lemma_split_at_tokens_ok(s: Seq<char>, i: int, cur: Seq<char>)
    requires
        no_wsp(cur),
    ensures
        forall|k: int|
            0 <= k < split_ws_at(s, i, cur).len() ==> is_token(
                #[trigger] split_ws_at(s, i, cur)[k],
            ),
    decreases s.len() - i,
{
    if i < 0 || i >= s.len() {
        if cur.len() > 0 {
            assert(split_ws_at(s, i, cur) == seq![cur]);
            assert(seq![cur][0] == cur);
            assert(is_token(cur));
        }
    } else if is_wsp(s[i]) {
        lemma_split_at_tokens_ok(s, i + 1, Seq::empty());
        if cur.len() == 0 {
            let whole = split_ws_at(s, i, cur);
            let rest = split_ws_at(s, i + 1, Seq::empty());
            assert(whole == rest);
            assert forall|k: int| 0 <= k < whole.len() implies is_token(#[trigger] whole[k]) by {
                assert(whole[k] == rest[k]);
            }
        }
        if cur.len() > 0 {
            let rest = split_ws_at(s, i + 1, Seq::empty());
            let whole = seq![cur] + rest;
            assert(split_ws_at(s, i, cur) == whole);
            assert forall|k: int| 0 <= k < whole.len() implies is_token(#[trigger] whole[k]) by {
                if k == 0 {
                    assert(whole[0] == cur);
                } else {
                    assert(whole[k] == rest[k - 1]);
                }
            }
        }
    } else {
        assert(no_wsp(cur.push(s[i]))) by {
            assert(forall|k: int|
                0 <= k < cur.len() + 1 ==> !is_wsp(#[trigger] cur.push(s[i])[k]));
        }
        lemma_split_at_tokens_ok(s, i + 1, cur.push(s[i]));
        let whole = split_ws_at(s, i, cur);
        let rest = split_ws_at(s, i + 1, cur.push(s[i]));
        assert(whole == rest);
        assert forall|k: int| 0 <= k < whole.len() implies is_token(#[trigger] whole[k]) by {
            assert(whole[k] == rest[k]);
        }
    }
}

/// Joining after appending one token adds a separating space unless the list
/// was empty.
pub proof fn lemma_join_push(ts: Seq<Seq<char>>, t: Seq<char>)
    ensures
        join_sp(ts.push(t)) == if ts.len() == 0 {
            t
        } else {
            join_sp(ts) + seq![' '] + t
        },
    decreases ts.len(),
{
    if ts.len() == 0 {
        assert(ts.push(t) =~= seq![t]);
        assert(join_sp(seq![t]) == seq![t][0]);
    } else if ts.len() == 1 {
        assert(ts.push(t).drop_first() =~= seq![t]);
        assert(join_sp(seq![t]) == seq![t][0]);
        assert(ts.push(t)[0] == ts[0]);
        assert(join_sp(ts) == ts[0]);
    } else {
        assert(ts.push(t).drop_first() =~= ts.drop_first().push(t));
        lemma_join_push(ts.drop_first(), t);
        assert(ts[0] + seq![' '] + (join_sp(ts.drop_first()) + seq![' '] + t) =~= (ts[0] + seq![' ']
            + join_sp(ts.drop_first())) + seq![' '] + t);
    }
}

/// Splits a line into its whitespace-separated tokens.
pub fn tokenize(s: &str) -> (tokens: Vec<String>)
    ensures
        tokens.deep_view() == split_ws(s@),
{
    let n = s.unicode_len();
    let mut tokens: Vec<String> = Vec::new();
    let mut i: usize = 0;
    let mut start: usize = 0;
    proof {
        assert(s@.subrange(0, 0) =~= Seq::<char>::empty());
        assert(tokens.deep_view() + split_ws(s@) =~= split_ws(s@));
    }
    while i < n
        invariant
            n == s@.len(),
            0 <= start <= i <= n,
            tokens.deep_view() + split_ws_at(s@, i as int, s@.subrange(start as int, i as int))
                == split_ws(s@),
            forall|k: int| start <= k < i ==> !is_wsp(#[trigger] s@[k]),
        decreases n - i,
    {
        let c = s.get_char(i);
        let ghost cur = s@.subrange(start as int, i as int);
        if c == ' ' || c == '\t' || c == '\r' || c == '\n' {
            if start < i {
                let tok = String::from_str(s.substring_char(start, i));
                let ghost old_tokens = tokens.deep_view();
                tokens.push(tok);
                proof {
                    assert(tokens.deep_view() =~= old_tokens.push(cur));
                    assert(split_ws_at(s@, i as int, cur) == seq![cur] + split_ws_at(
                        s@,
                        i as int + 1,
                        Seq::empty(),
                    ));
                    assert(old_tokens.push(cur) + split_ws_at(s@, i as int + 1, Seq::empty())
                        =~= old_tokens + (seq![cur] + split_ws_at(s@, i as int + 1, Seq::empty())));
                    assert(s@.subrange(i as int + 1, i as int + 1) =~= Seq::<char>::empty());
                }
            } else {
                proof {
                    assert(cur =~= Seq::<char>::empty());
                    assert(s@.subrange(i as int + 1, i as int + 1) =~= Seq::<char>::empty());
                }
            }
            i = i + 1;
            start = i;
        } else {
            proof {
                assert(cur.push(s@[i as int]) =~= s@.subrange(start as int, i as int + 1));
            }
            i = i + 1;
        }
    }
    if start < n {
        let tok = String::from_str(s.substring_char(start, n));
        let ghost old_tokens = tokens.deep_view();
        let ghost cur = s@.subrange(start as int, n as int);
        tokens.push(tok);
        proof {
            assert(tokens.deep_view() =~= old_tokens.push(cur));
            assert(old_tokens.push(cur) =~= old_tokens + seq![cur]);
        }
    } else {
        proof {
            assert(s@.subrange(start as int, n as int) =~= Seq::<char>::empty());
        }
    }
    tokens
}

/// Joins the tokens from index `from` on with single spaces.
pub fn join_tokens(tokens: &Vec<String>, from: usize) -> (r: String)
    requires
        from <= tokens@.len(),
    ensures
        r@ == join_sp(tokens.deep_view().skip(from as int)),
{
    let ghost all = tokens.deep_view();
    let mut r = String::new();
    let mut j = from;
    proof {
        assert(all.subrange(from as int, from as int) =~= Seq::<Seq<char>>::empty());
    }
    while j < tokens.len()
        invariant
            from <= j <= tokens@.len(),
            all == tokens.deep_view(),
            r@ == join_sp(all.subrange(from as int, j as int)),
        decreases tokens@.len() - j,
    {
        let ghost sofar = all.subrange(from as int, j as int);
        if j > from {
            r.append(" ");
        }
        r.append(tokens[j].as_str());
        proof {
            reveal_strlit(" ");
            assert(tokens@[j as int].deep_view() == tokens@[j as int]@);
            assert(all[j as int] == tokens@[j as int]@);
            lemma_join_push(sofar, all[j as int]);
            assert(sofar.push(all[j as int]) =~= all.subrange(from as int, j as int + 1));
            assert(sofar.len() == 0 <==> j == from);
            if j > from {
                assert(r@ =~= join_sp(sofar) + seq![' '] + all[j as int]);
            }
        }
        j = j + 1;
    }
    proof {
        assert(all.subrange(from as int, tokens@.len() as int) =~= all.skip(from as int));
    }
    r
}

/// Clones a vector of strings, keeping every element.
pub fn clone_strings(v: &Vec<String>) -> (r: Vec<String>)
    ensures
        r@ == v@,
{
    let mut r: Vec<String> = Vec::new();
    let mut i: usize = 0;
    proof {
        assert(r@ =~= v@.subrange(0, 0));
    }
    while i < v.len()
        invariant
            0 <= i <= v@.len(),
            r@ == v@.subrange(0, i as int),
        decreases v@.len() - i,
    {
        r.push(v[i].clone());
        proof {
            assert(r@ =~= v@.subrange(0, i as int + 1));
        }
        i = i + 1;
    }
    proof {
        assert(v@.subrange(0, v@.len() as int) =~= v@);
    }
    r
}

} // verus!
