//! The query model: raw input split on runs of whitespace into tokens, in
//! input order; tokens beginning with the shortcut indicator `!` name
//! triggers, all others are free text. Tokenization is proved idempotent:
//! joining the tokens with single spaces and re-tokenizing gives the same
//! tokens back.

use vstd::prelude::*;

verus! {

/// The characters treated as token separators: ASCII whitespace.
pub open spec fn is_space(c: char) -> bool {
    c == ' ' || c == '\t' || c == '\n' || c == '\r'
}

/// Exec twin of `is_space`.
fn is_space_char(c: char) -> (r: bool)
    ensures
        r == is_space(c),
{
    c == ' ' || c == '\t' || c == '\n' || c == '\r'
}

/// The views of a sequence of strings.
pub open spec fn views_of(ts: Seq<String>) -> Seq<Seq<char>> {
    Seq::new(ts.len(), |i: int| ts[i]@)
}

/// The whitespace-split tokens of `s`, with `cur` the partial token read so
/// far: empty tokens are dropped, order is preserved.
pub open spec fn tokenize_acc(s: Seq<char>, cur: Seq<char>) -> Seq<Seq<char>>
    decreases s.len(),
{
    if s.len() == 0 {
        if cur.len() > 0 {
            seq![cur]
        } else {
            Seq::empty()
        }
    } else if is_space(s[0]) {
        (if cur.len() > 0 {
            seq![cur]
        } else {
            Seq::empty()
        }) + tokenize_acc(s.drop_first(), Seq::empty())
    } else {
        tokenize_acc(s.drop_first(), cur.push(s[0]))
    }
}

/// The whitespace-split tokens of `s`, in input order, empty tokens dropped.
pub open spec fn tokenize(s: Seq<char>) -> Seq<Seq<char>> {
    tokenize_acc(s, Seq::empty())
}

/// The tokens joined by single spaces, in order.
pub open spec fn join_tokens(ts: Seq<Seq<char>>) -> Seq<char>
    decreases ts.len(),
{
    if ts.len() == 0 {
        Seq::empty()
    } else if ts.len() == 1 {
        ts[0]
    } else {
        ts[0] + seq![' '] + join_tokens(ts.drop_first())
    }
}

/// A well-formed token: non-empty and free of whitespace.
pub open spec fn token_wf(t: Seq<char>) -> bool {
    t.len() > 0 && forall|i: int| 0 <= i < t.len() ==> !is_space(#[trigger] t[i])
}

/// Every token is well-formed.
pub open spec fn tokens_wf(ts: Seq<Seq<char>>) -> bool {
    forall|k: int| 0 <= k < ts.len() ==> token_wf(#[trigger] ts[k])
}

/// A token starting with the shortcut indicator.
pub open spec fn is_shortcut_token(t: Seq<char>) -> bool {
    t.len() > 0 && t[0] == '!'
}

/// The trigger texts of the shortcut tokens, in order, indicator stripped.
pub open spec fn shortcut_triggers(ts: Seq<Seq<char>>) -> Seq<Seq<char>>
    decreases ts.len(),
{
    if ts.len() == 0 {
        Seq::empty()
    } else {
        let prev = shortcut_triggers(ts.drop_last());
        if is_shortcut_token(ts.last()) {
            prev.push(ts.last().skip(1))
        } else {
            prev
        }
    }
}

/// The free-text tokens, in order.
pub open spec fn free_tokens(ts: Seq<Seq<char>>) -> Seq<Seq<char>>
    decreases ts.len(),
{
    if ts.len() == 0 {
        Seq::empty()
    } else {
        let prev = free_tokens(ts.drop_last());
        if is_shortcut_token(ts.last()) {
            prev
        } else {
            prev.push(ts.last())
        }
    }
}

/// The destination search text: the free-text tokens joined by single
/// spaces, in input order.
pub open spec fn free_text(ts: Seq<Seq<char>>) -> Seq<char> {
    join_tokens(free_tokens(ts))
}

/// The final token is a shortcut token: the signal that the user is still
/// typing a trigger and live suggestions should be produced.
pub open spec fn last_token_open(ts: Seq<Seq<char>>) -> bool {
    ts.len() > 0 && is_shortcut_token(ts.last())
}

/// Whether the token starts with the shortcut indicator.
pub fn token_is_shortcut(t: &str) -> (r: bool)
    ensures
        r == is_shortcut_token(t@),
{
    t.unicode_len() > 0 && t.get_char(0) == '!'
}

/// Split a raw query on runs of whitespace into its tokens, in input order,
/// dropping empty tokens.
pub fn tokenize_str(s: &str) -> (tokens: Vec<String>)
    ensures
        views_of(tokens@) == tokenize(s@),
{
    let len = s.unicode_len();
    let mut tokens: Vec<String> = Vec::new();
    let mut cur = String::new();
    let mut i: usize = 0;
    proof {
        assert(s@.skip(0) =~= s@);
        assert(views_of(tokens@) =~= Seq::<Seq<char>>::empty());
        assert(Seq::<Seq<char>>::empty() + tokenize_acc(s@, cur@) =~= tokenize_acc(s@, cur@));
    }
    while i < len
        invariant
            len == s@.len(),
            i <= len,
            tokenize(s@) == views_of(tokens@) + tokenize_acc(s@.skip(i as int), cur@),
        decreases len - i,
    {
        let ghost rest = s@.skip(i as int);
        proof {
            assert(rest[0] == s@[i as int]);
            assert(rest.drop_first() =~= s@.skip(i + 1));
        }
        let c = s.get_char(i);
        if is_space_char(c) {
            if cur.unicode_len() > 0 {
                let ghost old_tokens = tokens@;
                let ghost old_cur = cur@;
                tokens.push(cur);
                cur = String::new();
                proof {
                    assert(tokenize_acc(rest, old_cur) == seq![old_cur] + tokenize_acc(
                        rest.drop_first(),
                        Seq::<char>::empty(),
                    ));
                    assert(views_of(tokens@) =~= views_of(old_tokens).push(old_cur));
                    assert(views_of(old_tokens) + (seq![old_cur] + tokenize_acc(
                        rest.drop_first(),
                        cur@,
                    )) =~= views_of(tokens@) + tokenize_acc(rest.drop_first(), cur@));
                }
            } else {
                proof {
                    assert(cur@ =~= Seq::<char>::empty());
                    assert(tokenize_acc(rest, cur@) == Seq::<Seq<char>>::empty() + tokenize_acc(
                        rest.drop_first(),
                        Seq::<char>::empty(),
                    ));
                    assert(Seq::<Seq<char>>::empty() + tokenize_acc(rest.drop_first(), cur@)
                        =~= tokenize_acc(rest.drop_first(), cur@));
                }
            }
        } else {
            let piece = s.substring_char(i, i + 1);
            proof {
                assert(piece@ =~= seq![s@[i as int]]);
            }
            let ghost old_cur = cur@;
            cur.append(piece);
            proof {
                assert(cur@ =~= old_cur.push(s@[i as int]));
            }
        }
        i += 1;
    }
    proof {
        assert(s@.skip(len as int) =~= Seq::<char>::empty());
    }
    if cur.unicode_len() > 0 {
        let ghost old_tokens = tokens@;
        let ghost old_cur = cur@;
        tokens.push(cur);
        proof {
            assert(views_of(tokens@) =~= views_of(old_tokens).push(old_cur));
            assert(views_of(old_tokens) + seq![old_cur] =~= views_of(tokens@));
        }
    } else {
        proof {
            assert(views_of(tokens@) + Seq::<Seq<char>>::empty() =~= views_of(tokens@));
        }
    }
    tokens
}

/// Joining a further token appends a separating space and the token.
proof fn lemma_join_push(ts: Seq<Seq<char>>, t: Seq<char>)
    ensures
        join_tokens(ts.push(t)) == if ts.len() == 0 {
            t
        } else {
            join_tokens(ts) + seq![' '] + t
        },
    decreases ts.len(),
{
    let p = ts.push(t);
    if ts.len() == 0 {
        assert(p.len() == 1);
        assert(p[0] == t);
    } else if ts.len() == 1 {
        assert(p.drop_first() =~= seq![t]);
        assert(join_tokens(seq![t]) == t);
        assert(join_tokens(p) == ts[0] + seq![' '] + t);
    } else {
        assert(p.drop_first() =~= ts.drop_first().push(t));
        lemma_join_push(ts.drop_first(), t);
        assert(ts[0] + seq![' '] + (join_tokens(ts.drop_first()) + seq![' '] + t) =~= (ts[0]
            + seq![' '] + join_tokens(ts.drop_first())) + seq![' '] + t);
    }
}

/// Join the tokens with single spaces, in order.
pub fn join_spaced(tokens: &Vec<String>) -> (r: String)
    ensures
        r@ == join_tokens(views_of(tokens@)),
{
    let mut r = String::new();
    let mut k: usize = 0;
    proof {
        reveal_strlit(" ");
        assert(" "@ =~= seq![' ']);
        assert(views_of(tokens@.take(0)) =~= Seq::<Seq<char>>::empty());
    }
    while k < tokens.len()
        invariant
            k <= tokens@.len(),
            " "@ == seq![' '],
            r@ == join_tokens(views_of(tokens@.take(k as int))),
        decreases tokens@.len() - k,
    {
        proof {
            assert(views_of(tokens@.take(k + 1)) =~= views_of(tokens@.take(k as int)).push(
                tokens@[k as int]@,
            ));
            lemma_join_push(views_of(tokens@.take(k as int)), tokens@[k as int]@);
        }
        if k > 0 {
            r.append(" ");
        }
        r.append(tokens[k].as_str());
        proof {
            if k > 0 {
                assert(r@ =~= join_tokens(views_of(tokens@.take(k + 1))));
            } else {
                assert(views_of(tokens@.take(0)).len() == 0);
                assert(r@ =~= join_tokens(views_of(tokens@.take(1))));
            }
        }
        k += 1;
    }
    proof {
        assert(tokens@.take(tokens@.len() as int) =~= tokens@);
        assert(views_of(tokens@.take(tokens@.len() as int)) =~= views_of(tokens@));
    }
    r
}

/// Reading a whitespace-free sequence extends the current partial token.
proof fn lemma_tokenize_acc_nonspace(s: Seq<char>, s2: Seq<char>, cur: Seq<char>)
    requires
        forall|i: int| 0 <= i < s.len() ==> !is_space(#[trigger] s[i]),
    ensures
        tokenize_acc(s + s2, cur) == tokenize_acc(s2, cur + s),
    decreases s.len(),
{
    if s.len() == 0 {
        assert(s + s2 =~= s2);
        assert(cur + s =~= cur);
    } else {
        let t = s + s2;
        assert(t[0] == s[0]);
        assert(t.drop_first() =~= s.drop_first() + s2);
        lemma_tokenize_acc_nonspace(s.drop_first(), s2, cur.push(s[0]));
        assert(cur.push(s[0]) + s.drop_first() =~= cur + s);
    }
}

/// Tokenizing the single-space join of well-formed tokens gives the tokens
/// back.
proof fn lemma_tokenize_join(ts: Seq<Seq<char>>)
    requires
        tokens_wf(ts),
    ensures
        tokenize(join_tokens(ts)) == ts,
    decreases ts.len(),
{
    let empty = Seq::<char>::empty();
    if ts.len() == 0 {
        assert(tokenize(join_tokens(ts)) =~= ts);
    } else if ts.len() == 1 {
        assert(token_wf(ts[0]));
        lemma_tokenize_acc_nonspace(ts[0], empty, empty);
        assert(ts[0] + empty =~= ts[0]);
        assert(empty + ts[0] =~= ts[0]);
        assert(tokenize(join_tokens(ts)) =~= ts);
    } else {
        let rest = ts.drop_first();
        let jr = join_tokens(rest);
        let tail = seq![' '] + jr;
        assert(token_wf(ts[0]));
        assert(join_tokens(ts) =~= ts[0] + tail);
        lemma_tokenize_acc_nonspace(ts[0], tail, empty);
        assert(empty + ts[0] =~= ts[0]);
        assert(tokenize_acc(join_tokens(ts), empty) == tokenize_acc(tail, ts[0]));
        assert(tail[0] == ' ');
        assert(tail.drop_first() =~= jr);
        assert(tokenize_acc(tail, ts[0]) == seq![ts[0]] + tokenize_acc(jr, empty));
        assert(tokens_wf(rest)) by {
            assert(forall|k: int| 0 <= k < rest.len() ==> rest[k] == ts[k + 1]);
        }
        lemma_tokenize_join(rest);
        assert(seq![ts[0]] + rest =~= ts);
    }
}

/// Every token produced by tokenization is non-empty and whitespace-free.
proof fn lemma_tokenize_acc_wf(s: Seq<char>, cur: Seq<char>)
    requires
        forall|i: int| 0 <= i < cur.len() ==> !is_space(#[trigger] cur[i]),
    ensures
        tokens_wf(tokenize_acc(s, cur)),
    decreases s.len(),
{
    let empty = Seq::<char>::empty();
    if s.len() == 0 {
    } else if is_space(s[0]) {
        lemma_tokenize_acc_wf(s.drop_first(), empty);
        let head = if cur.len() > 0 {
            seq![cur]
        } else {
            Seq::<Seq<char>>::empty()
        };
        let rest = tokenize_acc(s.drop_first(), empty);
        assert forall|k: int| 0 <= k < (head + rest).len() implies token_wf(
            #[trigger] (head + rest)[k],
        ) by {
            if k < head.len() {
                assert((head + rest)[k] == cur);
            } else {
                assert((head + rest)[k] == rest[k - head.len()]);
            }
        }
    } else {
        lemma_tokenize_acc_wf(s.drop_first(), cur.push(s[0]));
    }
}

/// The tokens of any input are well-formed: non-empty and whitespace-free.
pub proof fn lemma_tokenize_wf(s: Seq<char>)
    ensures
        tokens_wf(tokenize(s)),
{
    lemma_tokenize_acc_wf(s, Seq::empty());
}

/// Tokenization is idempotent modulo whitespace normalization: joining the
/// tokens of any raw input with single spaces and tokenizing again yields
/// the same tokens.
pub proof fn lemma_tokenize_round_trip(s: Seq<char>)
    ensures
        tokenize(join_tokens(tokenize(s))) == tokenize(s),
{
    lemma_tokenize_wf(s);
    lemma_tokenize_join(tokenize(s));
}

} // verus!
