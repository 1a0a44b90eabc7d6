//! Parsing of one IRC line into its raw prefix/command/parameter shape,
//! classification of the commands the bouncer reacts to, and the inverse
//! serialization.
//!
//! A line is tokenized on single spaces. A first token beginning with `:`
//! is the source prefix; the command is the next non-empty token. A later
//! token beginning with `:` starts the trailing parameter, which swallows
//! the rest of the line, internal spaces included. Empty tokens in the
//! middle are skipped, except inside the trailing parameter, where each
//! stands for a literal space.

use vstd::prelude::*;
use vstd::slice::{slice_subrange, slice_to_vec};

verus! {

pub const SP: u8 = 0x20;
pub const COLON: u8 = 0x3a;

/// The mathematical shape of a raw message.
pub ghost struct RawSpec {
    pub prefix: Option<Seq<u8>>,
    pub command: Seq<u8>,
    pub params: Seq<Seq<u8>>,
}

/// Split on single spaces; adjacent separators yield empty tokens, and the
/// result always holds at least one token.
pub open spec fn split_sp(s: Seq<u8>) -> Seq<Seq<u8>>
    decreases s.len(),
{
    if s.len() == 0 {
        seq![Seq::<u8>::empty()]
    } else if s[0] == SP {
        seq![Seq::<u8>::empty()] + split_sp(s.drop_first())
    } else {
        let rest = split_sp(s.drop_first());
        seq![seq![s[0]] + rest[0]] + rest.drop_first()
    }
}

/// Tokens rejoined with single spaces; inverse of `split_sp`.
pub open spec fn join_sp(ts: Seq<Seq<u8>>) -> Seq<u8>
    decreases ts.len(),
{
    if ts.len() <= 1 {
        if ts.len() == 0 {
            Seq::empty()
        } else {
            ts[0]
        }
    } else {
        ts[0] + seq![SP] + join_sp(ts.drop_first())
    }
}

pub open spec fn no_sp(t: Seq<u8>) -> bool {
    forall|i: int| 0 <= i < t.len() ==> t[i] != SP
}

pub proof fn lemma_split_len(s: Seq<u8>)
    ensures
        split_sp(s).len() >= 1,
    decreases s.len(),
{
    if s.len() == 0 {
    } else {
        lemma_split_len(s.drop_first());
    }
}

pub proof fn lemma_split_no_sp(s: Seq<u8>)
    ensures
        forall|i: int| 0 <= i < split_sp(s).len() ==> no_sp(#[trigger] split_sp(s)[i]),
    decreases s.len(),
{
    if s.len() == 0 {
        assert(no_sp(split_sp(s)[0]));
    } else if s[0] == SP {
        lemma_split_no_sp(s.drop_first());
        let rest = split_sp(s.drop_first());
        assert forall|i: int| 0 <= i < split_sp(s).len() implies no_sp(#[trigger] split_sp(s)[i]) by {
            if i == 0 {
                assert(no_sp(Seq::<u8>::empty()));
            } else {
                assert(split_sp(s)[i] == rest[i - 1]);
                assert(no_sp(rest[i - 1]));
            }
        }
    } else {
        lemma_split_no_sp(s.drop_first());
        lemma_split_len(s.drop_first());
        let rest = split_sp(s.drop_first());
        assert forall|i: int| 0 <= i < split_sp(s).len() implies no_sp(#[trigger] split_sp(s)[i]) by {
            if i == 0 {
                assert(no_sp(rest[0]));
                assert(split_sp(s)[0] == seq![s[0]] + rest[0]);
                let t = seq![s[0]] + rest[0];
                assert forall|j: int| 0 <= j < t.len() implies t[j] != SP by {
                    if j == 0 {
                        assert(t[0] == s[0]);
                    } else {
                        assert(t[j] == rest[0][j - 1]);
                    }
                }
            } else {
                assert(split_sp(s)[i] == rest[i]);
                assert(no_sp(rest[i]));
            }
        }
    }
}

/// Joining undoes splitting.
pub proof fn lemma_join_split(s: Seq<u8>)
    ensures
        join_sp(split_sp(s)) == s,
    decreases s.len(),
{
    if s.len() == 0 {
        assert(join_sp(split_sp(s)) =~~= s);
    } else if s[0] == SP {
        lemma_join_split(s.drop_first());
        lemma_split_len(s.drop_first());
        let rest = split_sp(s.drop_first());
        assert(split_sp(s).drop_first() =~~= rest);
        assert(split_sp(s)[0] =~~= Seq::<u8>::empty());
        assert(join_sp(split_sp(s)) =~~= Seq::<u8>::empty() + seq![SP] + join_sp(rest));
        assert(join_sp(split_sp(s)) =~~= s);
    } else {
        lemma_join_split(s.drop_first());
        lemma_split_len(s.drop_first());
        let rest = split_sp(s.drop_first());
        if rest.len() == 1 {
            assert(split_sp(s) =~~= seq![seq![s[0]] + rest[0]]);
            assert(join_sp(split_sp(s)) =~~= seq![s[0]] + rest[0]);
            assert(join_sp(rest) == rest[0]);
            assert(join_sp(split_sp(s)) =~~= s);
        } else {
            assert(split_sp(s)[0] == seq![s[0]] + rest[0]);
            assert(split_sp(s).len() == rest.len());
            assert(split_sp(s).drop_first() =~~= rest.drop_first());
            assert(join_sp(split_sp(s)) =~~= (seq![s[0]] + rest[0]) + seq![SP] + join_sp(
                rest.drop_first(),
            ));
            assert(join_sp(rest) == rest[0] + seq![SP] + join_sp(rest.drop_first()));
            assert(join_sp(split_sp(s)) =~~= seq![s[0]] + join_sp(rest));
            assert(join_sp(split_sp(s)) =~~= s);
        }
    }
}

/// A token with no space splits into itself alone.
pub proof fn lemma_split_single(t: Seq<u8>)
    requires
        no_sp(t),
    ensures
        split_sp(t) == seq![t],
    decreases t.len(),
{
    if t.len() == 0 {
        assert(split_sp(t) =~~= seq![t]);
    } else {
        assert(no_sp(t.drop_first()));
        lemma_split_single(t.drop_first());
        assert(split_sp(t) =~~= seq![seq![t[0]] + t.drop_first()]);
        assert(seq![t[0]] + t.drop_first() =~~= t);
        assert(split_sp(t) =~~= seq![t]);
    }
}

/// Splitting distributes over an explicit separator.
pub proof fn lemma_split_concat(a: Seq<u8>, b: Seq<u8>)
    ensures
        split_sp(a + seq![SP] + b) == split_sp(a) + split_sp(b),
    decreases a.len(),
{
    let s = a + seq![SP] + b;
    if a.len() == 0 {
        assert(s =~~= seq![SP] + b);
        assert(s[0] == SP);
        assert(s.drop_first() =~~= b);
        assert(split_sp(s) =~~= seq![Seq::<u8>::empty()] + split_sp(b));
        assert(split_sp(a) =~~= seq![Seq::<u8>::empty()]);
        assert(split_sp(s) =~~= split_sp(a) + split_sp(b));
    } else if a[0] == SP {
        lemma_split_concat(a.drop_first(), b);
        assert(s[0] == SP);
        assert(s.drop_first() =~~= a.drop_first() + seq![SP] + b);
        assert(split_sp(s) =~~= seq![Seq::<u8>::empty()] + (split_sp(a.drop_first()) + split_sp(b)));
        assert(split_sp(a) =~~= seq![Seq::<u8>::empty()] + split_sp(a.drop_first()));
        assert(split_sp(s) =~~= split_sp(a) + split_sp(b));
    } else {
        lemma_split_concat(a.drop_first(), b);
        lemma_split_len(a.drop_first());
        lemma_split_len(a.drop_first() + seq![SP] + b);
        assert(s[0] == a[0]);
        assert(s.drop_first() =~~= a.drop_first() + seq![SP] + b);
        let rest = split_sp(a.drop_first() + seq![SP] + b);
        let resta = split_sp(a.drop_first());
        assert(rest =~~= resta + split_sp(b));
        assert(rest[0] == resta[0]);
        assert(split_sp(s) =~~= seq![seq![a[0]] + rest[0]] + rest.drop_first());
        assert(split_sp(a) =~~= seq![seq![a[0]] + resta[0]] + resta.drop_first());
        assert(rest.drop_first() =~~= resta.drop_first() + split_sp(b));
        assert(split_sp(s) =~~= split_sp(a) + split_sp(b));
    }
}

/// The tokenizer state while walking the tokens of a line.
pub ghost struct ParseState {
    pub prefix: Option<Seq<u8>>,
    pub command: Option<Seq<u8>>,
    pub params: Seq<Seq<u8>>,
    pub trailing: bool,
}

pub open spec fn init_state() -> ParseState {
    ParseState { prefix: None, command: None, params: Seq::empty(), trailing: false }
}

/// Append one space, and then a token, to the trailing parameter.
pub open spec fn extend_last(ps: Seq<Seq<u8>>, t: Seq<u8>) -> Seq<Seq<u8>>
    recommends
        ps.len() > 0,
{
    ps.update(ps.len() - 1, ps.last() + seq![SP] + t)
}

/// How one token at the given position changes the state.
pub open spec fn step(st: ParseState, index: int, tok: Seq<u8>) -> ParseState {
    if tok.len() == 0 {
        if st.trailing {
            ParseState { params: extend_last(st.params, Seq::empty()), ..st }
        } else {
            st
        }
    } else if tok[0] == COLON && index == 0 {
        ParseState { prefix: Some(tok.drop_first()), ..st }
    } else if tok[0] == COLON && !st.trailing {
        ParseState { trailing: true, params: st.params.push(tok.drop_first()), ..st }
    } else if index == 0 || (index == 1 && st.prefix is Some) {
        ParseState { command: Some(tok), ..st }
    } else if st.trailing {
        ParseState { params: extend_last(st.params, tok), ..st }
    } else {
        ParseState { params: st.params.push(tok), ..st }
    }
}

pub open spec fn fold_tokens(st: ParseState, toks: Seq<Seq<u8>>, index: int) -> ParseState
    decreases toks.len(),
{
    if toks.len() == 0 {
        st
    } else {
        fold_tokens(step(st, index, toks[0]), toks.drop_first(), index + 1)
    }
}

/// What parsing a whole line yields.
pub open spec fn spec_parse_raw(s: Seq<u8>) -> Option<RawSpec> {
    let st = fold_tokens(init_state(), split_sp(s), 0);
    match st.command {
        Some(c) => Some(RawSpec { prefix: st.prefix, command: c, params: st.params }),
        None => None,
    }
}

pub proof fn lemma_fold_append(st: ParseState, a: Seq<Seq<u8>>, b: Seq<Seq<u8>>, index: int)
    ensures
        fold_tokens(st, a + b, index) == fold_tokens(
            fold_tokens(st, a, index),
            b,
            index + a.len(),
        ),
    decreases a.len(),
{
    if a.len() == 0 {
        assert(a + b =~~= b);
    } else {
        assert((a + b)[0] == a[0]);
        assert((a + b).drop_first() =~~= a.drop_first() + b);
        lemma_fold_append(step(st, index, a[0]), a.drop_first(), b, index + 1);
    }
}

pub proof fn lemma_fold_push(st: ParseState, a: Seq<Seq<u8>>, t: Seq<u8>, index: int)
    ensures
        fold_tokens(st, a.push(t), index) == step(fold_tokens(st, a, index), index + a.len(), t),
{
    assert(a.push(t) =~~= a + seq![t]);
    lemma_fold_append(st, a, seq![t], index);
    let st2 = fold_tokens(st, a, index);
    let j = index + a.len();
    assert(seq![t].drop_first() =~~= Seq::<Seq<u8>>::empty());
    assert(fold_tokens(st2, seq![t], j) == fold_tokens(step(st2, j, t), seq![t].drop_first(), j + 1));
    assert(fold_tokens(step(st2, j, t), Seq::<Seq<u8>>::empty(), j + 1) == step(st2, j, t));
}

/// A parameter that may stand anywhere but last: non-empty, no space, and
/// no leading colon.
pub open spec fn mid_param(p: Seq<u8>) -> bool {
    p.len() > 0 && no_sp(p) && p[0] != COLON
}

/// The shape every parsed message has: the command is a well-formed token,
/// the prefix holds no space, and every parameter but the last could stand
/// in the middle of a line. The last parameter is unconstrained; it is
/// serialized as the trailing parameter.
pub open spec fn wf_raw(m: RawSpec) -> bool {
    &&& m.command.len() > 0
    &&& no_sp(m.command)
    &&& m.command[0] != COLON
    &&& (m.prefix matches Some(p) ==> no_sp(p))
    &&& forall|i: int| 0 <= i < m.params.len() - 1 ==> mid_param(#[trigger] m.params[i])
}

/// Serialization of the parameter list: middles as ` <param>`, the last as
/// the trailing ` :<param>`.
pub open spec fn ser_params(ps: Seq<Seq<u8>>) -> Seq<u8>
    decreases ps.len(),
{
    if ps.len() == 0 {
        Seq::empty()
    } else if ps.len() == 1 {
        seq![SP, COLON] + ps[0]
    } else {
        (seq![SP] + ps[0]) + ser_params(ps.drop_first())
    }
}

/// Serialization of a raw message back to line bytes.
pub open spec fn ser_raw(m: RawSpec) -> Seq<u8> {
    (match m.prefix {
        Some(p) => seq![COLON] + p + seq![SP],
        None => Seq::empty(),
    }) + m.command + ser_params(m.params)
}

/// The spaces and tokens a trailing parameter accumulates.
pub open spec fn trail_join(ps: Seq<Seq<u8>>) -> Seq<u8>
    decreases ps.len(),
{
    if ps.len() == 0 {
        Seq::empty()
    } else {
        seq![SP] + ps[0] + trail_join(ps.drop_first())
    }
}

proof fn lemma_join_as_trail(r: Seq<Seq<u8>>)
    requires
        r.len() >= 1,
    ensures
        join_sp(r) == r[0] + trail_join(r.drop_first()),
    decreases r.len(),
{
    if r.len() == 1 {
        assert(join_sp(r) =~~= r[0] + trail_join(r.drop_first()));
    } else {
        lemma_join_as_trail(r.drop_first());
        let d = r.drop_first();
        assert(d.drop_first() =~~= r.drop_first().drop_first());
        assert(join_sp(r) == r[0] + seq![SP] + join_sp(d));
        assert(trail_join(r.drop_first()) =~~= seq![SP] + d[0] + trail_join(d.drop_first()));
        assert(join_sp(r) =~~= r[0] + trail_join(r.drop_first()));
    }
}

/// Folding tokens while already inside the trailing parameter appends a
/// space and each token to the last parameter, and changes nothing else.
proof fn lemma_fold_trail(st: ParseState, ps: Seq<Seq<u8>>, idx: int)
    requires
        st.trailing,
        st.params.len() > 0,
        idx >= 2,
    ensures
        fold_tokens(st, ps, idx) == (ParseState {
            params: st.params.update(st.params.len() - 1, st.params.last() + trail_join(ps)),
            ..st
        }),
    decreases ps.len(),
{
    if ps.len() == 0 {
        assert(st.params.update(st.params.len() - 1, st.params.last() + trail_join(ps)) =~~= st.params);
    } else {
        let p = ps[0];
        let st1 = step(st, idx, p);
        assert(st1 == (ParseState { params: extend_last(st.params, p), ..st })) by {
            if p.len() == 0 {
                assert(extend_last(st.params, p) =~~= extend_last(st.params, Seq::empty()));
            }
        }
        lemma_fold_trail(st1, ps.drop_first(), idx + 1);
        let lhs = st1.params.update(
            st1.params.len() - 1,
            st1.params.last() + trail_join(ps.drop_first()),
        );
        let rhs = st.params.update(st.params.len() - 1, st.params.last() + trail_join(ps));
        assert(st1.params.last() == st.params.last() + seq![SP] + p);
        assert(trail_join(ps) == seq![SP] + p + trail_join(ps.drop_first()));
        assert(lhs =~~= rhs);
    }
}

/// Folding middle-shaped tokens before any trailing parameter just appends
/// them to the parameter list.
proof fn lemma_fold_mids(st: ParseState, ps: Seq<Seq<u8>>, idx: int)
    requires
        !st.trailing,
        idx >= 2 || (idx >= 1 && st.prefix is None),
        forall|i: int| 0 <= i < ps.len() ==> mid_param(#[trigger] ps[i]),
    ensures
        fold_tokens(st, ps, idx) == (ParseState { params: st.params + ps, ..st }),
    decreases ps.len(),
{
    if ps.len() == 0 {
        assert(st.params + ps =~~= st.params);
    } else {
        let p = ps[0];
        assert(mid_param(p));
        let st1 = step(st, idx, p);
        assert(st1 == (ParseState { params: st.params.push(p), ..st }));
        lemma_fold_mids(st1, ps.drop_first(), idx + 1);
        assert(st.params.push(p) + ps.drop_first() =~~= st.params + ps);
    }
}

/// Splitting a line that begins with a colon glues the colon onto the
/// first token of the rest.
proof fn lemma_split_colon(t: Seq<u8>)
    ensures
        split_sp(seq![COLON] + t) == seq![seq![COLON] + split_sp(t)[0]] + split_sp(t).drop_first(),
{
    let s = seq![COLON] + t;
    assert(s[0] == COLON);
    assert(s.drop_first() =~~= t);
    assert(split_sp(s) =~~= seq![seq![COLON] + split_sp(t)[0]] + split_sp(t).drop_first());
}

/// The token stream of a serialized non-empty parameter list, prefixed
/// with a head token.
proof fn lemma_ser_params_tokens(c: Seq<u8>, ps: Seq<Seq<u8>>)
    requires
        no_sp(c),
        ps.len() >= 1,
        forall|i: int| 0 <= i < ps.len() - 1 ==> mid_param(#[trigger] ps[i]),
    ensures
        split_sp(c + ser_params(ps)) == seq![c] + ps.take(ps.len() - 1) + split_sp(
            seq![COLON] + ps.last(),
        ),
    decreases ps.len(),
{
    if ps.len() == 1 {
        assert(c + ser_params(ps) =~~= c + seq![SP] + (seq![COLON] + ps[0]));
        lemma_split_concat(c, seq![COLON] + ps[0]);
        lemma_split_single(c);
        assert(split_sp(c + ser_params(ps)) =~~= seq![c] + ps.take(0) + split_sp(
            seq![COLON] + ps.last(),
        ));
    } else {
        assert(mid_param(ps[0]));
        lemma_ser_params_tokens(ps[0], ps.drop_first());
        assert(c + ser_params(ps) =~~= c + seq![SP] + (ps[0] + ser_params(ps.drop_first())));
        lemma_split_concat(c, ps[0] + ser_params(ps.drop_first()));
        lemma_split_single(c);
        let d = ps.drop_first();
        assert(d.last() == ps.last());
        assert(split_sp(c + ser_params(ps)) =~~= seq![c] + (seq![ps[0]] + d.take(d.len() - 1)
            + split_sp(seq![COLON] + ps.last())));
        assert(seq![ps[0]] + d.take(d.len() - 1) =~~= ps.take(ps.len() - 1));
        assert(split_sp(c + ser_params(ps)) =~~= seq![c] + ps.take(ps.len() - 1) + split_sp(
            seq![COLON] + ps.last(),
        ));
    }
}

/// The invariant the tokenizer state keeps while folding tokens.
pub open spec fn state_wf(st: ParseState) -> bool {
    &&& (st.command matches Some(c) ==> c.len() > 0 && no_sp(c) && c[0] != COLON)
    &&& (st.prefix matches Some(p) ==> no_sp(p))
    &&& (st.trailing ==> st.params.len() > 0 && (forall|i: int|
        0 <= i < st.params.len() - 1 ==> mid_param(#[trigger] st.params[i])))
    &&& (!st.trailing ==> (forall|i: int|
        0 <= i < st.params.len() ==> mid_param(#[trigger] st.params[i])))
}

proof fn lemma_fold_wf(st: ParseState, toks: Seq<Seq<u8>>, idx: int)
    requires
        state_wf(st),
        forall|i: int| 0 <= i < toks.len() ==> no_sp(#[trigger] toks[i]),
        idx >= 0,
        idx <= 1 ==> !st.trailing,
    ensures
        state_wf(fold_tokens(st, toks, idx)),
    decreases toks.len(),
{
    if toks.len() == 0 {
    } else {
        let tok = toks[0];
        assert(no_sp(tok));
        let st1 = step(st, idx, tok);
        assert(state_wf(st1)) by {
            if tok.len() == 0 {
            } else if tok[0] == COLON && idx == 0 {
                assert(no_sp(tok.drop_first()));
            } else if tok[0] == COLON && !st.trailing {
                assert(forall|i: int|
                    0 <= i < st1.params.len() - 1 ==> mid_param(#[trigger] st1.params[i]));
            } else if idx == 0 || (idx == 1 && st.prefix is Some) {
                assert(!st.trailing);
                assert(tok[0] != COLON);
            } else if st.trailing {
            } else {
                assert(tok[0] != COLON);
                assert(mid_param(tok));
            }
        }
        assert(idx + 1 <= 1 ==> !st1.trailing);
        assert(forall|i: int|
            0 <= i < toks.drop_first().len() ==> no_sp(#[trigger] toks.drop_first()[i]));
        lemma_fold_wf(st1, toks.drop_first(), idx + 1);
    }
}

/// Every successfully parsed message is well-formed.
pub proof fn lemma_parse_wf(s: Seq<u8>)
    ensures
        spec_parse_raw(s) matches Some(m) ==> wf_raw(m),
{
    lemma_split_no_sp(s);
    lemma_fold_wf(init_state(), split_sp(s), 0);
}

/// Serializing a well-formed message and parsing the line again yields the
/// message back.
pub proof fn lemma_ser_parse(m: RawSpec)
    requires
        wf_raw(m),
    ensures
        spec_parse_raw(ser_raw(m)) == Some(m),
{
    let c = m.command;
    let n = m.params.len() as int;
    let body = c + ser_params(m.params);

    // The token stream of the command-and-parameters part of the line.
    let trail_toks: Seq<Seq<u8>> = if n == 0 {
        Seq::empty()
    } else {
        split_sp(seq![COLON] + m.params.last())
    };
    let mids: Seq<Seq<u8>> = if n == 0 {
        Seq::empty()
    } else {
        m.params.take(n - 1)
    };
    let body_toks = seq![c] + mids + trail_toks;
    if n == 0 {
        lemma_split_single(c);
        assert(body =~~= c);
        assert(split_sp(body) =~~= body_toks);
    } else {
        lemma_ser_params_tokens(c, m.params);
        assert(split_sp(body) =~~= body_toks);
    }

    // The whole line adds the prefix token, when there is one.
    let line = ser_raw(m);
    let base: int = if m.prefix is Some {
        1
    } else {
        0
    };
    let stp = ParseState {
        prefix: m.prefix,
        command: None,
        params: Seq::empty(),
        trailing: false,
    };
    if let Some(p) = m.prefix {
        let ptok = seq![COLON] + p;
        assert(ptok[0] == COLON);
        assert(no_sp(ptok)) by {
            assert(forall|i: int| 0 < i < ptok.len() ==> ptok[i] == p[i - 1]);
        }
        assert(line =~~= ptok + seq![SP] + body);
        lemma_split_concat(ptok, body);
        lemma_split_single(ptok);
        assert(split_sp(line) =~~= seq![ptok] + body_toks);
        let st0 = step(init_state(), 0, ptok);
        assert(ptok.drop_first() =~~= p);
        assert(st0 == stp);
        lemma_fold_append(init_state(), seq![ptok], body_toks, 0);
        assert(fold_tokens(init_state(), seq![ptok], 0) == st0) by {
            lemma_fold_push(init_state(), Seq::empty(), ptok, 0);
            assert(Seq::<Seq<u8>>::empty().push(ptok) =~~= seq![ptok]);
        }
        assert(fold_tokens(init_state(), split_sp(line), 0) == fold_tokens(stp, body_toks, base));
    } else {
        assert(line =~~= body);
        assert(stp == init_state());
        assert(fold_tokens(init_state(), split_sp(line), 0) == fold_tokens(stp, body_toks, base));
    }

    // The command token.
    let st1 = step(stp, base, c);
    assert(c[0] != COLON);
    assert(st1 == (ParseState { command: Some(c), ..stp })) by {
        if base == 1 {
            assert(stp.prefix is Some);
        }
    }
    lemma_fold_append(stp, seq![c], mids + trail_toks, base);
    assert(fold_tokens(stp, seq![c], base) == st1) by {
        lemma_fold_push(stp, Seq::empty(), c, base);
        assert(Seq::<Seq<u8>>::empty().push(c) =~~= seq![c]);
    }
    assert(seq![c] + (mids + trail_toks) =~~= body_toks);

    if n == 0 {
        assert(mids + trail_toks =~~= Seq::<Seq<u8>>::empty());
        assert(fold_tokens(stp, body_toks, base) == st1);
        assert(m.params =~~= Seq::<Seq<u8>>::empty());
        assert(spec_parse_raw(line) == Some(m));
    } else {
        // The middle parameters.
        lemma_fold_append(st1, mids, trail_toks, base + 1);
        assert(forall|i: int| 0 <= i < mids.len() ==> mid_param(#[trigger] mids[i])) by {
            assert(forall|i: int| 0 <= i < mids.len() ==> mids[i] == m.params[i]);
        }
        lemma_fold_mids(st1, mids, base + 1);
        let st2 = ParseState { params: mids, ..st1 };
        assert(fold_tokens(st1, mids, base + 1) == st2) by {
            assert(Seq::<Seq<u8>>::empty() + mids =~~= mids);
        }

        // The trailing parameter: its first token opens it, the rest of the
        // split pieces re-join, space for space, into the same bytes.
        let last = m.params.last();
        let r = split_sp(last);
        lemma_split_len(last);
        lemma_split_colon(last);
        assert(trail_toks =~~= seq![seq![COLON] + r[0]] + r.drop_first());
        let k = base + 1 + mids.len() as int;
        assert(k >= 1);
        let ttok = seq![COLON] + r[0];
        let st3 = step(st2, k, ttok);
        assert(ttok.drop_first() =~~= r[0]);
        assert(st3 == (ParseState { trailing: true, params: mids.push(r[0]), ..st2 }));
        lemma_fold_append(st2, seq![ttok], r.drop_first(), k);
        assert(fold_tokens(st2, seq![ttok], k) == st3) by {
            lemma_fold_push(st2, Seq::empty(), ttok, k);
            assert(Seq::<Seq<u8>>::empty().push(ttok) =~~= seq![ttok]);
        }
        lemma_fold_trail(st3, r.drop_first(), k + 1);
        let st4 = fold_tokens(st3, r.drop_first(), k + 1);
        lemma_join_as_trail(r);
        lemma_join_split(last);
        assert(r[0] + trail_join(r.drop_first()) == last);
        assert(st4.params =~~= mids.push(r[0]).update(mids.len() as int, last));
        assert(st4.params =~~= m.params) by {
            assert(forall|i: int| 0 <= i < n - 1 ==> mids.push(r[0]).update(
                mids.len() as int,
                last,
            )[i] == m.params[i]);
        }
        assert(st4.command == Some(c));
        assert(st4.prefix == m.prefix);
        assert(fold_tokens(stp, body_toks, base) == st4);
        assert(spec_parse_raw(line) == Some(m));
    }
}

/// Parsing any line, serializing the result, and parsing again returns the
/// same raw message: the parsed domain round-trips.
pub proof fn lemma_parse_round_trip(s: Seq<u8>)
    ensures
        spec_parse_raw(s) matches Some(m) ==> spec_parse_raw(ser_raw(m)) == Some(m),
{
    lemma_parse_wf(s);
    if let Some(m) = spec_parse_raw(s) {
        lemma_ser_parse(m);
    }
}

/// A parsed line: optional source prefix, command, and parameters, the
/// last of which may be a trailing parameter.
pub struct RawMessage {
    pub prefix: Option<Vec<u8>>,
    pub command: Vec<u8>,
    pub parameters: Vec<Vec<u8>>,
}

impl View for RawMessage {
    type V = RawSpec;

    open spec fn view(&self) -> RawSpec {
        RawSpec {
            prefix: match self.prefix {
                Some(p) => Some(p@),
                None => None,
            },
            command: self.command@,
            params: self.parameters.deep_view(),
        }
    }
}

/// Append a byte slice to a byte vector.
fn append_bytes(dst: &mut Vec<u8>, src: &[u8])
    ensures
        final(dst)@ == old(dst)@ + src@,
{
    let n = src.len();
    let mut i: usize = 0;
    while i < n
        invariant
            n == src@.len(),
            i <= n,
            dst@ == old(dst)@ + src@.take(i as int),
        decreases n - i,
    {
        dst.push(src[i]);
        proof {
            assert(dst@ =~~= old(dst)@ + src@.take(i + 1 as int));
        }
        i = i + 1;
    }
    proof {
        assert(dst@ =~~= old(dst)@ + src@);
    }
}

/// Prepend a head still under construction to the tokens of the rest.
spec fn prepend_first(c: Seq<u8>, ts: Seq<Seq<u8>>) -> Seq<Seq<u8>>
    recommends
        ts.len() > 0,
{
    seq![c + ts[0]] + ts.drop_first()
}

/// Cut a line into its space-separated tokens.
fn split_tokens(message: &[u8]) -> (toks: Vec<Vec<u8>>)
    ensures
        toks.deep_view() == split_sp(message@),
{
    let n = message.len();
    let mut toks: Vec<Vec<u8>> = Vec::new();
    let mut cur: Vec<u8> = Vec::new();
    let mut i: usize = 0;
    proof {
        lemma_split_len(message@);
        assert(message@.skip(0) =~~= message@);
        assert(toks.deep_view() + prepend_first(cur@, split_sp(message@.skip(0))) =~~= split_sp(
            message@,
        ));
    }
    while i < n
        invariant
            n == message@.len(),
            i <= n,
            toks.deep_view() + prepend_first(cur@, split_sp(message@.skip(i as int))) == split_sp(
                message@,
            ),
        decreases n - i,
    {
        let ghost pre_toks = toks.deep_view();
        let ghost pre_cur = cur@;
        let ghost tail = message@.skip(i as int);
        proof {
            lemma_split_len(message@.skip(i + 1 as int));
            assert(tail[0] == message@[i as int]);
            assert(tail.drop_first() =~~= message@.skip(i + 1 as int));
        }
        if message[i] == SP {
            toks.push(cur);
            cur = Vec::new();
            proof {
                let next = split_sp(message@.skip(i + 1 as int));
                assert(split_sp(tail) =~~= seq![Seq::<u8>::empty()] + next);
                assert(prepend_first(pre_cur, split_sp(tail)) =~~= seq![pre_cur] + next);
                assert(toks.deep_view() =~~= pre_toks.push(pre_cur));
                assert(toks.deep_view() + prepend_first(cur@, next) =~~= pre_toks + (
                seq![pre_cur] + next));
                assert(pre_toks + (seq![pre_cur] + next) =~~= pre_toks + prepend_first(
                    pre_cur,
                    split_sp(tail),
                ));
            }
        } else {
            cur.push(message[i]);
            proof {
                let next = split_sp(message@.skip(i + 1 as int));
                assert(split_sp(tail) =~~= seq![seq![tail[0]] + next[0]] + next.drop_first());
                assert(prepend_first(pre_cur, split_sp(tail)) =~~= prepend_first(cur@, next));
            }
        }
        i = i + 1;
    }
    proof {
        assert(message@.skip(n as int) =~~= Seq::<u8>::empty());
        assert(prepend_first(cur@, split_sp(message@.skip(n as int))) =~~= seq![cur@]);
    }
    let ghost pre_toks = toks.deep_view();
    toks.push(cur);
    proof {
        assert(toks.deep_view() =~~= split_sp(message@));
    }
    toks
}

/// Parse one line into its raw shape; `None` when no command is found.
pub fn parse_message_raw(message: &[u8]) -> (r: Option<RawMessage>)
    ensures
        match r {
            Some(msg) => spec_parse_raw(message@) == Some(msg@),
            None => spec_parse_raw(message@) is None,
        },
{
    let toks = split_tokens(message);
    let ghost all = toks.deep_view();
    let mut prefix: Option<Vec<u8>> = None;
    let mut command: Option<Vec<u8>> = None;
    let mut parameters: Vec<Vec<u8>> = Vec::new();
    let mut trailing: bool = false;
    let count = toks.len();
    let mut i: usize = 0;
    proof {
        assert(all.take(0) =~~= Seq::<Seq<u8>>::empty());
        assert(parameters.deep_view() =~~= Seq::<Seq<u8>>::empty());
        assert(fold_tokens(init_state(), all.take(0), 0) == init_state());
    }
    while i < count
        invariant
            count == all.len(),
            i <= count,
            all == toks.deep_view(),
            fold_tokens(init_state(), all.take(i as int), 0) == (ParseState {
                prefix: match prefix {
                    Some(p) => Some(p@),
                    None => None,
                },
                command: match command {
                    Some(c) => Some(c@),
                    None => None,
                },
                params: parameters.deep_view(),
                trailing: trailing,
            }),
            trailing ==> parameters.len() > 0,
        decreases count - i,
    {
        let ghost pre = fold_tokens(init_state(), all.take(i as int), 0);
        proof {
            lemma_fold_push(init_state(), all.take(i as int), all[i as int], 0);
            assert(all.take(i as int).push(all[i as int]) =~~= all.take(i + 1 as int));
        }
        let tok = &toks[i];
        let ghost stepped = step(pre, i as int, all[i as int]);
        proof {
            assert(all[i as int] == tok@);
        }
        if tok.len() == 0 {
            if trailing {
                proof {
                    assert(parameters.deep_view().last() == pre.params.last());
                }
                let mut last = parameters.pop().unwrap();
                last.push(SP);
                let ghost lv = last@;
                parameters.push(last);
                proof {
                    assert(lv =~~= pre.params.last() + seq![SP] + Seq::<u8>::empty());
                    assert(parameters.deep_view() =~~= extend_last(pre.params, Seq::empty()));
                    assert(stepped.params == parameters.deep_view());
                }
            } else {
                proof {
                    assert(stepped == pre);
                }
            }
        } else if tok[0] == COLON && i == 0 {
            prefix = Some(slice_to_vec(slice_subrange(tok.as_slice(), 1, tok.len())));
            proof {
                assert(tok@.subrange(1, tok@.len() as int) =~~= tok@.drop_first());
                assert(stepped.prefix == (match prefix {
                    Some(p) => Some(p@),
                    None => None,
                }));
            }
        } else if tok[0] == COLON && !trailing {
            trailing = true;
            parameters.push(slice_to_vec(slice_subrange(tok.as_slice(), 1, tok.len())));
            proof {
                assert(tok@.subrange(1, tok@.len() as int) =~~= tok@.drop_first());
                assert(parameters.deep_view() =~~= pre.params.push(tok@.drop_first()));
                assert(stepped.params == parameters.deep_view());
            }
        } else if i == 0 || (i == 1 && prefix.is_some()) {
            command = Some(slice_to_vec(tok.as_slice()));
            proof {
                assert(stepped.command == (match command {
                    Some(c) => Some(c@),
                    None => None,
                }));
            }
        } else if trailing {
            proof {
                assert(parameters.deep_view().last() == pre.params.last());
            }
            let mut last = parameters.pop().unwrap();
            last.push(SP);
            append_bytes(&mut last, tok.as_slice());
            let ghost lv = last@;
            parameters.push(last);
            proof {
                assert(lv =~~= pre.params.last() + seq![SP] + tok@);
                assert(parameters.deep_view() =~~= extend_last(pre.params, tok@));
                assert(stepped.params == parameters.deep_view());
            }
        } else {
            parameters.push(slice_to_vec(tok.as_slice()));
            proof {
                assert(parameters.deep_view() =~~= pre.params.push(tok@));
                assert(stepped.params == parameters.deep_view());
            }
        }
        proof {
            assert(fold_tokens(init_state(), all.take(i + 1 as int), 0) == stepped);
            assert(stepped == (ParseState {
                prefix: match prefix {
                    Some(p) => Some(p@),
                    None => None,
                },
                command: match command {
                    Some(c) => Some(c@),
                    None => None,
                },
                params: parameters.deep_view(),
                trailing: trailing,
            }));
        }
        i = i + 1;
    }
    proof {
        assert(all.take(count as int) =~~= all);
    }
    match command {
        Some(cmd) => Some(RawMessage { prefix, command: cmd, parameters }),
        None => None,
    }
}

/// The middle parameters alone, each after one space.
pub open spec fn ser_mids(ps: Seq<Seq<u8>>) -> Seq<u8>
    decreases ps.len(),
{
    if ps.len() == 0 {
        Seq::empty()
    } else {
        (seq![SP] + ps[0]) + ser_mids(ps.drop_first())
    }
}

proof fn lemma_ser_mids_snoc(ps: Seq<Seq<u8>>, x: Seq<u8>)
    ensures
        ser_mids(ps.push(x)) == ser_mids(ps) + seq![SP] + x,
    decreases ps.len(),
{
    if ps.len() == 0 {
        assert(ps.push(x).drop_first() =~~= Seq::<Seq<u8>>::empty());
        assert(ser_mids(Seq::<Seq<u8>>::empty()) == Seq::<u8>::empty());
        assert(ps.push(x)[0] == x);
        assert(ser_mids(ps.push(x)) =~~= ser_mids(ps) + seq![SP] + x);
    } else {
        assert(ps.push(x).drop_first() =~~= ps.drop_first().push(x));
        lemma_ser_mids_snoc(ps.drop_first(), x);
        assert(ser_mids(ps.push(x)) =~~= ser_mids(ps) + seq![SP] + x);
    }
}

proof fn lemma_ser_params_as_mids(ps: Seq<Seq<u8>>)
    requires
        ps.len() >= 1,
    ensures
        ser_params(ps) == ser_mids(ps.take(ps.len() - 1)) + (seq![SP, COLON] + ps.last()),
    decreases ps.len(),
{
    if ps.len() == 1 {
        assert(ps.take(0) =~~= Seq::<Seq<u8>>::empty());
        assert(ser_params(ps) =~~= ser_mids(ps.take(0)) + (seq![SP, COLON] + ps.last()));
    } else {
        lemma_ser_params_as_mids(ps.drop_first());
        let d = ps.drop_first();
        assert(d.take(d.len() - 1) =~~= ps.take(ps.len() - 1).drop_first());
        assert(d.last() == ps.last());
        assert(ser_params(ps) == (seq![SP] + ps[0]) + ser_params(d));
        assert(ser_mids(ps.take(ps.len() - 1)) == (seq![SP] + ps[0]) + ser_mids(
            ps.take(ps.len() - 1).drop_first(),
        )) by {
            assert(ps.take(ps.len() - 1)[0] == ps[0]);
        }
        assert(ser_params(ps) =~~= ser_mids(ps.take(ps.len() - 1)) + (seq![SP, COLON] + ps.last()));
    }
}

/// Serialize a raw message back into line bytes: `:prefix`, the command,
/// each middle parameter after a space, and the last parameter trailing
/// after ` :`.
pub fn raw_to_line(msg: &RawMessage) -> (r: Vec<u8>)
    ensures
        r@ == ser_raw(msg@),
{
    let mut out: Vec<u8> = Vec::new();
    if let Some(p) = &msg.prefix {
        out.push(COLON);
        append_bytes(&mut out, p.as_slice());
        out.push(SP);
    }
    append_bytes(&mut out, msg.command.as_slice());
    let ghost head = out@;
    proof {
        assert(head =~~= (match msg@.prefix {
            Some(p) => seq![COLON] + p + seq![SP],
            None => Seq::<u8>::empty(),
        }) + msg@.command);
    }
    let ghost ps = msg@.params;
    let n = msg.parameters.len();
    if n == 0 {
        proof {
            assert(out@ =~~= ser_raw(msg@));
        }
        return out;
    }
    let mut i: usize = 0;
    proof {
        assert(ps.take(0) =~~= Seq::<Seq<u8>>::empty());
    }
    while i < n - 1
        invariant
            n == msg.parameters.len(),
            n >= 1,
            ps == msg@.params,
            i <= n - 1,
            out@ == head + ser_mids(ps.take(i as int)),
        decreases n - i,
    {
        proof {
            assert(ps[i as int] == msg.parameters.deep_view()[i as int]);
        }
        out.push(SP);
        append_bytes(&mut out, msg.parameters[i].as_slice());
        proof {
            lemma_ser_mids_snoc(ps.take(i as int), ps[i as int]);
            assert(ps.take(i as int).push(ps[i as int]) =~~= ps.take(i + 1 as int));
            assert(out@ =~~= head + ser_mids(ps.take(i + 1 as int)));
        }
        i = i + 1;
    }
    proof {
        assert(ps[n - 1] == msg.parameters.deep_view()[n - 1]);
    }
    out.push(SP);
    out.push(COLON);
    append_bytes(&mut out, msg.parameters[n - 1].as_slice());
    proof {
        lemma_ser_params_as_mids(ps);
        assert(out@ =~~= head + (ser_mids(ps.take(n - 1 as int)) + (seq![SP, COLON] + ps.last())));
        assert(out@ =~~= ser_raw(msg@));
    }
    out
}

/// The commands the bouncer reacts to, classified; anything else is kept
/// raw.
pub enum Message {
    Welcome(Vec<u8>),
    Ping(Vec<u8>),
    Join(Vec<u8>, Vec<u8>),
    Privmsg(Vec<u8>, Vec<u8>, Vec<u8>),
    Unknown(RawMessage),
}

/// The mathematical shape of a classified message.
pub ghost enum MsgSpec {
    Welcome(Seq<u8>),
    Ping(Seq<u8>),
    Join(Seq<u8>, Seq<u8>),
    Privmsg(Seq<u8>, Seq<u8>, Seq<u8>),
    Unknown(RawSpec),
}

impl View for Message {
    type V = MsgSpec;

    open spec fn view(&self) -> MsgSpec {
        match self {
            Message::Welcome(p) => MsgSpec::Welcome(p@),
            Message::Ping(p) => MsgSpec::Ping(p@),
            Message::Join(p, c) => MsgSpec::Join(p@, c@),
            Message::Privmsg(p, t, m) => MsgSpec::Privmsg(p@, t@, m@),
            Message::Unknown(r) => MsgSpec::Unknown(r@),
        }
    }
}

pub open spec fn cmd_welcome() -> Seq<u8> {
    seq![0x30u8, 0x30u8, 0x31u8]
}

pub open spec fn cmd_ping() -> Seq<u8> {
    seq![0x50u8, 0x49u8, 0x4eu8, 0x47u8]
}

pub open spec fn cmd_join() -> Seq<u8> {
    seq![0x4au8, 0x4fu8, 0x49u8, 0x4eu8]
}

pub open spec fn cmd_privmsg() -> Seq<u8> {
    seq![0x50u8, 0x52u8, 0x49u8, 0x56u8, 0x4du8, 0x53u8, 0x47u8]
}

/// Classification of a raw message: `001` is the welcome, `PING`, `JOIN`
/// and `PRIVMSG` are picked apart, everything else stays raw. A recognized
/// command whose prefix or parameters are missing yields nothing.
pub open spec fn spec_classify(m: RawSpec) -> Option<MsgSpec> {
    if m.command == cmd_welcome() {
        if m.params.len() >= 1 {
            Some(MsgSpec::Welcome(m.params[0]))
        } else {
            None
        }
    } else if m.command == cmd_ping() {
        if m.params.len() >= 1 {
            Some(MsgSpec::Ping(m.params[0]))
        } else {
            None
        }
    } else if m.command == cmd_join() {
        match m.prefix {
            Some(p) => if m.params.len() >= 1 {
                Some(MsgSpec::Join(p, m.params[0]))
            } else {
                None
            },
            None => None,
        }
    } else if m.command == cmd_privmsg() {
        match m.prefix {
            Some(p) => if m.params.len() >= 2 {
                Some(MsgSpec::Privmsg(p, m.params[0], m.params[1]))
            } else {
                None
            },
            None => None,
        }
    } else {
        Some(MsgSpec::Unknown(m))
    }
}

/// What parsing and classifying a whole line yields.
pub open spec fn spec_parse_message(s: Seq<u8>) -> Option<MsgSpec> {
    match spec_parse_raw(s) {
        Some(m) => spec_classify(m),
        None => None,
    }
}

/// Byte-for-byte equality of two byte strings.
pub fn bytes_eq(a: &[u8], b: &[u8]) -> (r: bool)
    ensures
        r == (a@ == b@),
{
    let n = a.len();
    if n != b.len() {
        return false;
    }
    let mut i: usize = 0;
    while i < n
        invariant
            n == a@.len() && n == b@.len(),
            i <= n,
            forall|j: int| 0 <= j < i ==> a@[j] == b@[j],
        decreases n - i,
    {
        if a[i] != b[i] {
            return false;
        }
        i = i + 1;
    }
    proof {
        assert(a@ =~~= b@);
    }
    true
}

fn welcome_cmd() -> (r: Vec<u8>)
    ensures
        r@ == cmd_welcome(),
{
    let mut v: Vec<u8> = Vec::new();
    v.push(0x30);
    v.push(0x30);
    v.push(0x31);
    proof {
        assert(v@ =~~= cmd_welcome());
    }
    v
}

fn ping_cmd() -> (r: Vec<u8>)
    ensures
        r@ == cmd_ping(),
{
    let mut v: Vec<u8> = Vec::new();
    v.push(0x50);
    v.push(0x49);
    v.push(0x4e);
    v.push(0x47);
    proof {
        assert(v@ =~~= cmd_ping());
    }
    v
}

fn join_cmd() -> (r: Vec<u8>)
    ensures
        r@ == cmd_join(),
{
    let mut v: Vec<u8> = Vec::new();
    v.push(0x4a);
    v.push(0x4f);
    v.push(0x49);
    v.push(0x4e);
    proof {
        assert(v@ =~~= cmd_join());
    }
    v
}

fn privmsg_cmd() -> (r: Vec<u8>)
    ensures
        r@ == cmd_privmsg(),
{
    let mut v: Vec<u8> = Vec::new();
    v.push(0x50);
    v.push(0x52);
    v.push(0x49);
    v.push(0x56);
    v.push(0x4d);
    v.push(0x53);
    v.push(0x47);
    proof {
        assert(v@ =~~= cmd_privmsg());
    }
    v
}

/// Parse one line and classify its command. A recognized command that
/// lacks its prefix or parameters yields `None` rather than a partial
/// message.
pub fn parse_message(message: &[u8]) -> (r: Option<Message>)
    ensures
        match r {
            Some(m) => spec_parse_message(message@) == Some(m@),
            None => spec_parse_message(message@) is None,
        },
{
    let raw = match parse_message_raw(message) {
        Some(raw) => raw,
        None => {
            return None;
        },
    };
    let ghost rawv = raw@;
    let RawMessage { prefix, command, mut parameters } = raw;
    proof {
        assert(forall|j: int|
            0 <= j < parameters@.len() ==> rawv.params[j] == #[trigger] parameters@[j]@);
    }
    if bytes_eq(command.as_slice(), welcome_cmd().as_slice()) {
        if parameters.len() >= 1 {
            let p0 = parameters.remove(0);
            Some(Message::Welcome(p0))
        } else {
            None
        }
    } else if bytes_eq(command.as_slice(), ping_cmd().as_slice()) {
        if parameters.len() >= 1 {
            let p0 = parameters.remove(0);
            Some(Message::Ping(p0))
        } else {
            None
        }
    } else if bytes_eq(command.as_slice(), join_cmd().as_slice()) {
        match prefix {
            Some(p) => {
                if parameters.len() >= 1 {
                    let p0 = parameters.remove(0);
                    Some(Message::Join(p, p0))
                } else {
                    None
                }
            },
            None => None,
        }
    } else if bytes_eq(command.as_slice(), privmsg_cmd().as_slice()) {
        match prefix {
            Some(p) => {
                if parameters.len() >= 2 {
                    let p0 = parameters.remove(0);
                    let p1 = parameters.remove(0);
                    proof {
                        assert(p1@ == rawv.params[1]);
                    }
                    Some(Message::Privmsg(p, p0, p1))
                } else {
                    None
                }
            },
            None => None,
        }
    } else {
        Some(Message::Unknown(RawMessage { prefix, command, parameters }))
    }
}

} // verus!
