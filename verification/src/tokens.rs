//! Bracket-aware, delimiter-configurable splitter for the two record
//! formats. A delimiter inside nested brackets or inside a quoted string does
//! not split; one level of an enclosing bracket pair can be peeled off; a
//! token taken from one split can be re-tokenized under another
//! configuration.

use vstd::prelude::*;
use crate::strutil::{trim_spec, trim_chars};

verus! {

/// Per-source tokenizer configuration: the bracket pair that protects nested
/// structure, the quote character that protects strings, and whether a quote
/// may open a string in the middle of a token (rather than only at its
/// start).
#[derive(Clone, Copy)]
pub struct TokCfg {
    pub bracket_begin: char,
    pub bracket_end: char,
    pub quote: char,
    pub string_subpart: bool,
}

impl TokCfg {
    /// Configuration of the bracketed log format: parentheses, double-quoted
    /// strings only at a token's start.
    pub fn log_format() -> (r: TokCfg)
        ensures
            r == (TokCfg {
                bracket_begin: '(',
                bracket_end: ')',
                quote: '"',
                string_subpart: false,
            }),
    {
        TokCfg { bracket_begin: '(', bracket_end: ')', quote: '"', string_subpart: false }
    }

    /// Configuration of the live wire format: braces, caret-quoted strings
    /// allowed inside a token.
    pub fn live_format() -> (r: TokCfg)
        ensures
            r == (TokCfg {
                bracket_begin: '{',
                bracket_end: '}',
                quote: '^',
                string_subpart: true,
            }),
    {
        TokCfg { bracket_begin: '{', bracket_end: '}', quote: '^', string_subpart: true }
    }
}

/// Failure of a tokenizer step.
#[derive(Clone, Copy, PartialEq, Eq, Structural, Debug)]
pub enum TokErr {
    /// The buffer does not begin and end with the configured bracket pair.
    NotBracketed,
}

/// The buffer begins with `b` and ends with `e`.
pub open spec fn peelable(s: Seq<char>, b: char, e: char) -> bool {
    s.len() >= 2 && s[0] == b && s.last() == e
}

/// The buffer without its first and last character.
pub open spec fn peeled(s: Seq<char>) -> Seq<char> {
    s.subrange(1, s.len() as int - 1)
}

/// Strip one level of the configured enclosing bracket pair; fails exactly
/// when the buffer does not begin and end with that pair.
pub fn peel_bracket(v: &[char], cfg: &TokCfg) -> (r: Result<Vec<char>, TokErr>)
    ensures
        match r {
            Ok(inner) => peelable(v@, cfg.bracket_begin, cfg.bracket_end)
                && inner@ == peeled(v@),
            Err(e) => !peelable(v@, cfg.bracket_begin, cfg.bracket_end)
                && e == TokErr::NotBracketed,
        },
{
    let n = v.len();
    if n < 2 || v[0] != cfg.bracket_begin || v[n - 1] != cfg.bracket_end {
        return Err(TokErr::NotBracketed);
    }
    let mut inner: Vec<char> = Vec::new();
    let mut i: usize = 1;
    while i < n - 1
        invariant
            1 <= i <= n - 1,
            n == v@.len(),
            inner@ == v@.subrange(1, i as int),
        decreases n - i,
    {
        inner.push(v[i]);
        i = i + 1;
        proof {
            assert(inner@ =~= v@.subrange(1, i as int));
        }
    }
    Ok(inner)
}

/// One step of the splitting scan, from position `i` with the scan state:
/// current bracket `depth`, whether the scan stands inside a quoted string,
/// the token built so far and the tokens already produced. A delimiter splits
/// only at depth zero and outside a string; every other character, brackets
/// and quotes included, is kept in the token. An unmatched closing bracket
/// leaves the depth at zero.
pub open spec fn split_rec(
    s: Seq<char>,
    i: int,
    d: char,
    cfg: TokCfg,
    depth: int,
    instr: bool,
    cur: Seq<char>,
    acc: Seq<Seq<char>>,
) -> Seq<Seq<char>>
    decreases s.len() - i,
{
    if i < 0 || i >= s.len() {
        acc.push(cur)
    } else {
        let c = s[i];
        if instr {
            split_rec(s, i + 1, d, cfg, depth, c != cfg.quote, cur.push(c), acc)
        } else if c == cfg.quote && (cfg.string_subpart || cur.len() == 0) {
            split_rec(s, i + 1, d, cfg, depth, true, cur.push(c), acc)
        } else if c == cfg.bracket_begin {
            split_rec(s, i + 1, d, cfg, depth + 1, instr, cur.push(c), acc)
        } else if c == cfg.bracket_end {
            split_rec(s, i + 1, d, cfg, if depth > 0 { depth - 1 } else { 0 }, instr,
                cur.push(c), acc)
        } else if c == d && depth == 0 {
            split_rec(s, i + 1, d, cfg, depth, instr, Seq::empty(), acc.push(cur))
        } else {
            split_rec(s, i + 1, d, cfg, depth, instr, cur.push(c), acc)
        }
    }
}

/// The raw token sequence of `s` under delimiter `d`: the full scan from the
/// start, before trimming or dropping of empty tokens.
pub open spec fn split_tokens(s: Seq<char>, d: char, cfg: TokCfg) -> Seq<Seq<char>> {
    split_rec(s, 0, d, cfg, 0, false, Seq::empty(), Seq::empty())
}

/// The tokens joined back together with the delimiter between them.
pub open spec fn join_tokens(ts: Seq<Seq<char>>, d: char) -> Seq<char>
    decreases ts.len(),
{
    if ts.len() == 0 {
        Seq::empty()
    } else if ts.len() == 1 {
        ts[0]
    } else {
        join_tokens(ts.drop_last(), d) + seq![d] + ts.last()
    }
}

/// Appending a character to the last token appends it to the join.
proof fn lemma_join_push_char(acc: Seq<Seq<char>>, cur: Seq<char>, c: char, d: char)
    ensures
        join_tokens(acc.push(cur.push(c)), d) == join_tokens(acc.push(cur), d).push(c),
{
    if acc.len() == 0 {
        assert(join_tokens(acc.push(cur.push(c)), d) == cur.push(c));
        assert(join_tokens(acc.push(cur), d) == cur);
    } else {
        assert(acc.push(cur.push(c)).drop_last() =~= acc);
        assert(acc.push(cur).drop_last() =~= acc);
        assert(join_tokens(acc, d) + seq![d] + cur.push(c)
            =~= (join_tokens(acc, d) + seq![d] + cur).push(c));
    }
}

/// Closing a token and opening an empty one appends the delimiter to the
/// join.
proof fn lemma_join_push_delim(acc: Seq<Seq<char>>, cur: Seq<char>, d: char)
    ensures
        join_tokens(acc.push(cur).push(Seq::empty()), d)
            == join_tokens(acc.push(cur), d).push(d),
{
    assert(acc.push(cur).push(Seq::<char>::empty()).drop_last() =~= acc.push(cur));
    assert(join_tokens(acc.push(cur), d) + seq![d] + Seq::<char>::empty()
        =~= join_tokens(acc.push(cur), d).push(d));
}

/// The scan from position `i` joins back to what was already joined plus the
/// rest of the input.
proof fn lemma_split_join_rec(
    s: Seq<char>,
    i: int,
    d: char,
    cfg: TokCfg,
    depth: int,
    instr: bool,
    cur: Seq<char>,
    acc: Seq<Seq<char>>,
)
    requires
        0 <= i <= s.len(),
    ensures
        join_tokens(split_rec(s, i, d, cfg, depth, instr, cur, acc), d)
            == join_tokens(acc.push(cur), d) + s.skip(i),
    decreases s.len() - i,
{
    if i >= s.len() {
        assert(s.skip(i) =~= Seq::<char>::empty());
        assert(join_tokens(acc.push(cur), d) + s.skip(i) =~= join_tokens(acc.push(cur), d));
    } else {
        let c = s[i];
        assert(s.skip(i) =~= seq![c] + s.skip(i + 1));
        if instr {
            lemma_split_join_rec(s, i + 1, d, cfg, depth, c != cfg.quote, cur.push(c), acc);
            lemma_join_push_char(acc, cur, c, d);
            assert(join_tokens(acc.push(cur), d).push(c) + s.skip(i + 1)
                =~= join_tokens(acc.push(cur), d) + s.skip(i));
        } else if c == cfg.quote && (cfg.string_subpart || cur.len() == 0) {
            lemma_split_join_rec(s, i + 1, d, cfg, depth, true, cur.push(c), acc);
            lemma_join_push_char(acc, cur, c, d);
            assert(join_tokens(acc.push(cur), d).push(c) + s.skip(i + 1)
                =~= join_tokens(acc.push(cur), d) + s.skip(i));
        } else if c == cfg.bracket_begin {
            lemma_split_join_rec(s, i + 1, d, cfg, depth + 1, instr, cur.push(c), acc);
            lemma_join_push_char(acc, cur, c, d);
            assert(join_tokens(acc.push(cur), d).push(c) + s.skip(i + 1)
                =~= join_tokens(acc.push(cur), d) + s.skip(i));
        } else if c == cfg.bracket_end {
            let depth2 = if depth > 0 {
                depth - 1
            } else {
                0
            };
            lemma_split_join_rec(s, i + 1, d, cfg, depth2, instr, cur.push(c), acc);
            lemma_join_push_char(acc, cur, c, d);
            assert(join_tokens(acc.push(cur), d).push(c) + s.skip(i + 1)
                =~= join_tokens(acc.push(cur), d) + s.skip(i));
        } else if c == d && depth == 0 {
            lemma_split_join_rec(s, i + 1, d, cfg, depth, instr, Seq::empty(), acc.push(cur));
            lemma_join_push_delim(acc, cur, d);
            assert(join_tokens(acc.push(cur), d).push(d) + s.skip(i + 1)
                =~= join_tokens(acc.push(cur), d) + s.skip(i));
        } else {
            lemma_split_join_rec(s, i + 1, d, cfg, depth, instr, cur.push(c), acc);
            lemma_join_push_char(acc, cur, c, d);
            assert(join_tokens(acc.push(cur), d).push(c) + s.skip(i + 1)
                =~= join_tokens(acc.push(cur), d) + s.skip(i));
        }
    }
}

/// The raw split is a partition of the input: joining the untrimmed,
/// undropped tokens with the delimiter restores the input exactly, whatever
/// the bracket and quote configuration.
pub proof fn lemma_split_tokens_join(s: Seq<char>, d: char, cfg: TokCfg)
    ensures
        join_tokens(split_tokens(s, d, cfg), d) == s,
{
    lemma_split_join_rec(s, 0, d, cfg, 0, false, Seq::empty(), Seq::empty());
    assert(join_tokens(Seq::<Seq<char>>::empty().push(Seq::empty()), d)
        =~= Seq::<char>::empty());
    assert(Seq::<char>::empty() + s.skip(0) =~= s);
}

/// Splitting the peeled snapshot text `a (b c) d` on a space yields exactly
/// the tokens `a`, `(b c)` and `d`: a delimiter inside a nested bracket
/// group does not split the group.
pub proof fn lemma_nested_brackets_do_not_split()
    ensures
        tokens_spec("a (b c) d"@, ' ', true, true, TokCfg {
            bracket_begin: '(',
            bracket_end: ')',
            quote: '"',
            string_subpart: false,
        }) == seq!["a"@, "(b c)"@, "d"@],
{
    reveal_strlit("a (b c) d");
    reveal_strlit("a");
    reveal_strlit("(b c)");
    reveal_strlit("d");
    reveal_with_fuel(split_rec, 11);
    reveal_with_fuel(post_tokens, 5);
    reveal_with_fuel(crate::strutil::trim_front, 7);
    reveal_with_fuel(crate::strutil::trim_back, 7);
    assert(tokens_spec("a (b c) d"@, ' ', true, true, TokCfg {
        bracket_begin: '(',
        bracket_end: ')',
        quote: '"',
        string_subpart: false,
    }) =~~= seq!["a"@, "(b c)"@, "d"@]);
}

/// Post-processing of a raw token sequence: optionally trim each token,
/// optionally drop those that are then empty.
pub open spec fn post_tokens(ts: Seq<Seq<char>>, btrim: bool, bdrop: bool) -> Seq<Seq<char>>
    decreases ts.len(),
{
    if ts.len() == 0 {
        Seq::empty()
    } else {
        let rest = post_tokens(ts.drop_last(), btrim, bdrop);
        let t = if btrim { trim_spec(ts.last()) } else { ts.last() };
        if bdrop && t.len() == 0 {
            rest
        } else {
            rest.push(t)
        }
    }
}

/// The tokens of `s` under delimiter `d` and configuration `cfg`, after
/// post-processing.
pub open spec fn tokens_spec(
    s: Seq<char>,
    d: char,
    btrim: bool,
    bdrop: bool,
    cfg: TokCfg,
) -> Seq<Seq<char>> {
    post_tokens(split_tokens(s, d, cfg), btrim, bdrop)
}

/// Split `v` on `d` into ordered tokens; a delimiter inside nested brackets
/// or a quoted string does not split. `btrim` trims each token, `bdrop`
/// drops tokens that are empty after trimming.
pub fn tokens_vec(v: &[char], d: char, btrim: bool, bdrop: bool, cfg: &TokCfg) -> (r: Vec<
    Vec<char>,
>)
    ensures
        r.deep_view() == tokens_spec(v@, d, btrim, bdrop, *cfg),
{
    let n = v.len();
    let mut depth: usize = 0;
    let mut instr: bool = false;
    let mut cur: Vec<char> = Vec::new();
    let mut acc: Vec<Vec<char>> = Vec::new();
    let mut i: usize = 0;
    proof {
        assert(acc.deep_view() =~= Seq::<Seq<char>>::empty());
        assert(cur@ =~= Seq::<char>::empty());
    }
    while i < n
        invariant
            i <= n,
            n == v@.len(),
            depth <= i,
            split_rec(v@, i as int, d, *cfg, depth as int, instr, cur@, acc.deep_view())
                == split_tokens(v@, d, *cfg),
        decreases n - i,
    {
        let c = v[i];
        if instr {
            instr = c != cfg.quote;
            cur.push(c);
        } else if c == cfg.quote && (cfg.string_subpart || cur.len() == 0) {
            instr = true;
            cur.push(c);
        } else if c == cfg.bracket_begin {
            depth = depth + 1;
            cur.push(c);
        } else if c == cfg.bracket_end {
            if depth > 0 {
                depth = depth - 1;
            }
            cur.push(c);
        } else if c == d && depth == 0 {
            let ghost old_acc = acc.deep_view();
            acc.push(cur);
            cur = Vec::new();
            proof {
                assert(cur@ =~= Seq::<char>::empty());
                assert(acc.deep_view() =~~= old_acc.push(acc@.last()@));
            }
        } else {
            cur.push(c);
        }
        i = i + 1;
    }
    let ghost raw = acc.deep_view().push(cur@);
    let ghost old_acc = acc.deep_view();
    acc.push(cur);
    proof {
        assert(acc.deep_view() =~~= raw);
        assert(raw == split_tokens(v@, d, *cfg));
    }
    let mut out: Vec<Vec<char>> = Vec::new();
    let mut j: usize = 0;
    while j < acc.len()
        invariant
            j <= acc@.len(),
            out.deep_view() == post_tokens(acc.deep_view().take(j as int), btrim, bdrop),
            acc.deep_view() == raw,
            raw == split_tokens(v@, d, *cfg),
        decreases acc@.len() - j,
    {
        let t = if btrim {
            trim_chars(acc[j].as_slice())
        } else {
            let mut cpy: Vec<char> = Vec::new();
            let mut k: usize = 0;
            while k < acc[j].len()
                invariant
                    j < acc@.len(),
                    k <= acc@[j as int]@.len(),
                    cpy@ == acc@[j as int]@.take(k as int),
                decreases acc@[j as int]@.len() - k,
            {
                cpy.push(acc[j][k]);
                k = k + 1;
                proof {
                    assert(cpy@ =~= acc@[j as int]@.take(k as int));
                }
            }
            proof {
                assert(cpy@ =~= acc@[j as int]@);
            }
            cpy
        };
        let ghost pre = out.deep_view();
        proof {
            assert(acc@[j as int]@ =~= acc.deep_view()[j as int]);
        }
        let ghost tspec = if btrim {
            trim_spec(acc.deep_view()[j as int])
        } else {
            acc.deep_view()[j as int]
        };
        proof {
            assert(t@ == tspec);
        }
        if !(bdrop && t.len() == 0) {
            out.push(t);
            proof {
                assert(out.deep_view() =~~= pre.push(tspec));
            }
        }
        j = j + 1;
        proof {
            let tk = acc.deep_view().take(j as int);
            assert(tk.drop_last() =~= acc.deep_view().take(j as int - 1));
            assert(tk.last() == acc.deep_view()[j as int - 1]);
            assert(post_tokens(tk, btrim, bdrop) == if bdrop && tspec.len() == 0 {
                post_tokens(tk.drop_last(), btrim, bdrop)
            } else {
                post_tokens(tk.drop_last(), btrim, bdrop).push(tspec)
            });
        }
    }
    proof {
        assert(acc.deep_view().take(acc@.len() as int) =~= acc.deep_view());
    }
    out
}

} // verus!
