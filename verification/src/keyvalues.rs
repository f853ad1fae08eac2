//! A minimal KeyValues (VDF) parser. It returns a flat list of
//! `(key, value)` pairs at every level, since KeyValues allows the same key
//! more than once at one level.

use vstd::prelude::*;
use vstd::string::StringSliceAdditionalSpecFns;
use crate::text::{lossy_string, lossy_text, str_eq};

verus! {

/// A parsed KeyValues value: a string, or a block of pairs.
pub enum Value {
    Str(String),
    Block(Vec<(String, Value)>),
}

/// The mathematical model of a value.
pub enum KvValue {
    Str(Seq<char>),
    Block(Seq<(Seq<char>, KvValue)>),
}

/// The model of a value.
pub open spec fn value_view(v: Value) -> KvValue
    decreases v,
{
    match v {
        Value::Str(s) => KvValue::Str(s@),
        Value::Block(pairs) => KvValue::Block(pairs_view(pairs@)),
    }
}

/// The model of a list of pairs.
pub open spec fn pairs_view(s: Seq<(String, Value)>) -> Seq<(Seq<char>, KvValue)>
    decreases s,
{
    if s.len() == 0 {
        Seq::empty()
    } else {
        proof {
            assert(decreases_to!(s => s[s.len() - 1]));
        }
        pairs_view(s.drop_last()).push((s.last().0@, value_view(s.last().1)))
    }
}

} // verus!

verus! {

impl Value {
    /// The text of a string value; `None` for a block.
    pub fn as_str(&self) -> (r: Option<&str>)
        ensures
            r is Some <==> self is Str,
            r matches Some(s) ==> value_view(*self) == KvValue::Str(s@),
    {
        match self {
            Value::Str(s) => Some(s.as_str()),
            Value::Block(_) => None,
        }
    }

    /// The pairs of a block value; `None` for a string.
    pub fn as_block(&self) -> (r: Option<&[(String, Value)]>)
        ensures
            r is Some <==> self is Block,
            r matches Some(b) ==> value_view(*self) == KvValue::Block(pairs_view(b@)),
    {
        match self {
            Value::Block(b) => Some(b.as_slice()),
            Value::Str(_) => None,
        }
    }
}

/// A lexical token of KeyValues text.
pub enum Token {
    Str(String),
    Open,
    Close,
}

/// The model of a token.
pub enum KvToken {
    Str(Seq<char>),
    Open,
    Close,
}

/// The model of a token.
pub open spec fn token_view(t: Token) -> KvToken {
    match t {
        Token::Str(s) => KvToken::Str(s@),
        Token::Open => KvToken::Open,
        Token::Close => KvToken::Close,
    }
}

/// The models of a token list.
pub open spec fn tokens_view(t: Seq<Token>) -> Seq<KvToken> {
    Seq::new(t.len(), |k: int| token_view(t[k]))
}

/// Where a `//` comment that starts at or before `i` ends: the next line
/// feed at or after `i`, or the end of the text.
pub open spec fn spec_comment_end(b: Seq<u8>, i: int) -> int
    decreases b.len() - i,
{
    if 0 <= i < b.len() && b[i] != 10 {
        spec_comment_end(b, i + 1)
    } else {
        i
    }
}

/// The raw content of a quoted string whose body starts at `i` (backslash
/// takes the next byte literally), and the index of its closing quote or
/// of the end of the text.
pub open spec fn spec_quoted(b: Seq<u8>, i: int) -> (Seq<u8>, int)
    decreases b.len() - i,
{
    if i < 0 || i >= b.len() || b[i] == 34 {
        (Seq::empty(), i)
    } else if b[i] == 92 && i + 1 < b.len() {
        let r = spec_quoted(b, i + 2);
        (seq![b[i + 1]] + r.0, r.1)
    } else {
        let r = spec_quoted(b, i + 1);
        (seq![b[i]] + r.0, r.1)
    }
}

/// The tokens of the text from byte `i` on: braces, quoted strings (their
/// decoded text, or for invalid UTF-8 what `String::from_utf8_lossy` makes of
/// them), `//` comments and any other byte skipped.
pub open spec fn spec_tokenize(b: Seq<u8>, i: int) -> Seq<KvToken>
    decreases b.len() + 1 - i,
{
    if i < 0 || i >= b.len() {
        Seq::empty()
    } else {
        let c = b[i];
        if c == 123 {
            seq![KvToken::Open] + spec_tokenize(b, i + 1)
        } else if c == 125 {
            seq![KvToken::Close] + spec_tokenize(b, i + 1)
        } else if c == 47 && i + 1 < b.len() && b[i + 1] == 47 {
            let e = spec_comment_end(b, i + 2);
            if i < e <= b.len() {
                spec_tokenize(b, e)
            } else {
                Seq::empty()
            }
        } else if c == 34 {
            let q = spec_quoted(b, i + 1);
            if i < q.1 <= b.len() {
                seq![KvToken::Str(lossy_text(q.0))] + spec_tokenize(b, q.1 + 1)
            } else {
                Seq::empty()
            }
        } else {
            spec_tokenize(b, i + 1)
        }
    }
}

proof fn lemma_comment_end_bounds(b: Seq<u8>, i: int)
    requires
        0 <= i <= b.len(),
    ensures
        i <= spec_comment_end(b, i) <= b.len(),
    decreases b.len() - i,
{
    if i < b.len() && b[i] != 10 {
        lemma_comment_end_bounds(b, i + 1);
    }
}

proof fn lemma_quoted_bounds(b: Seq<u8>, i: int)
    requires
        0 <= i <= b.len(),
    ensures
        i <= spec_quoted(b, i).1 <= b.len(),
    decreases b.len() - i,
{
    if i < b.len() && b[i] != 34 {
        if b[i] == 92 && i + 1 < b.len() {
            lemma_quoted_bounds(b, i + 2);
        } else {
            lemma_quoted_bounds(b, i + 1);
        }
    }
}

/// Splits KeyValues text into tokens.
pub fn tokenize(text: &str) -> (tokens: Vec<Token>)
    ensures
        tokens_view(tokens@) == spec_tokenize(text.spec_bytes(), 0),
{
    let bytes = text.as_bytes();
    let ghost b = bytes@;
    let mut tokens: Vec<Token> = Vec::new();
    let mut i: usize = 0;
    while i < bytes.len()
        invariant
            b == bytes@,
            b == text.spec_bytes(),
            i <= b.len(),
            tokens_view(tokens@) + spec_tokenize(b, i as int) == spec_tokenize(b, 0),
        decreases b.len() - i,
    {
        let ghost old_tokens = tokens_view(tokens@);
        let ghost old_i = i as int;
        let c = bytes[i];
        if c == 32 || c == 9 || c == 13 || c == 10 {
            i = i + 1;
        } else if c == 123 {
            tokens.push(Token::Open);
            assert(tokens_view(tokens@) =~= old_tokens.push(KvToken::Open));
            i = i + 1;
        } else if c == 125 {
            tokens.push(Token::Close);
            assert(tokens_view(tokens@) =~= old_tokens.push(KvToken::Close));
            i = i + 1;
        } else if c == 47 && i + 1 < bytes.len() && bytes[i + 1] == 47 {
            proof {
                lemma_comment_end_bounds(b, i + 2);
            }
            let ghost e = spec_comment_end(b, i + 2);
            assert(spec_comment_end(b, i + 1) == e);
            assert(spec_comment_end(b, i as int) == e);
            while i < bytes.len() && bytes[i] != 10
                invariant
                    b == bytes@,
                    i <= b.len(),
                    spec_comment_end(b, i as int) == e,
                decreases b.len() - i,
            {
                i = i + 1;
            }
            assert(spec_comment_end(b, i as int) == i);
            assert(spec_tokenize(b, old_i) == spec_tokenize(b, i as int));
        } else if c == 34 {
            let ghost q = spec_quoted(b, i + 1);
            proof {
                lemma_quoted_bounds(b, i + 1);
            }
            let mut buf: Vec<u8> = Vec::new();
            i = i + 1;
            while i < bytes.len() && bytes[i] != 34
                invariant
                    b == bytes@,
                    i <= b.len(),
                    buf@ + spec_quoted(b, i as int).0 == q.0,
                    spec_quoted(b, i as int).1 == q.1,
                decreases b.len() - i,
            {
                let ghost before = buf@;
                if bytes[i] == 92 && i + 1 < bytes.len() {
                    buf.push(bytes[i + 1]);
                    assert(before + (seq![b[i + 1]] + spec_quoted(b, i + 2).0) =~= buf@
                        + spec_quoted(b, i + 2).0);
                    i = i + 2;
                } else {
                    buf.push(bytes[i]);
                    assert(before + (seq![b[i as int]] + spec_quoted(b, i + 1).0) =~= buf@
                        + spec_quoted(b, i + 1).0);
                    i = i + 1;
                }
            }
            assert(buf@ =~= q.0);
            if i < bytes.len() {
                i = i + 1;
            }
            let s = lossy_string(buf.as_slice());
            tokens.push(Token::Str(s));
            assert(tokens_view(tokens@) =~= old_tokens.push(KvToken::Str(lossy_text(q.0))));
            assert(spec_tokenize(b, old_i) == seq![KvToken::Str(lossy_text(q.0))] + spec_tokenize(b, i as int)) by {
                if q.1 == b.len() {
                    assert(spec_tokenize(b, q.1 + 1) == spec_tokenize(b, b.len() as int));
                }
            }
        } else {
            i = i + 1;
        }
        assert(tokens_view(tokens@) + spec_tokenize(b, i as int) =~= spec_tokenize(b, 0));
    }
    assert(tokens_view(tokens@) =~= spec_tokenize(b, 0));
    tokens
}

} // verus!

verus! {

/// The pairs of the block whose tokens start at `i`, and the index just
/// past it. A closing brace ends the block (and is consumed), a stray
/// opening brace is skipped, a key is followed by a nested block or a
/// string, and a key followed by anything else ends the parse there.
pub open spec fn spec_parse_block(t: Seq<KvToken>, i: int) -> (Seq<(Seq<char>, KvValue)>, int)
    decreases t.len() - i,
{
    if i < 0 || i >= t.len() {
        (Seq::empty(), i)
    } else {
        match t[i] {
            KvToken::Close => (Seq::empty(), i + 1),
            KvToken::Open => spec_parse_block(t, i + 1),
            KvToken::Str(key) => {
                if i + 1 < t.len() {
                    match t[i + 1] {
                        KvToken::Open => {
                            let inner = spec_parse_block(t, i + 2);
                            if i + 2 <= inner.1 <= t.len() {
                                let rest = spec_parse_block(t, inner.1);
                                (seq![(key, KvValue::Block(inner.0))] + rest.0, rest.1)
                            } else {
                                (Seq::empty(), inner.1)
                            }
                        },
                        KvToken::Str(v) => {
                            let rest = spec_parse_block(t, i + 2);
                            (seq![(key, KvValue::Str(v))] + rest.0, rest.1)
                        },
                        KvToken::Close => (Seq::empty(), i + 1),
                    }
                } else {
                    (Seq::empty(), i + 1)
                }
            },
        }
    }
}

/// The parse of a whole text: the pairs of its top level.
pub open spec fn spec_parse(b: Seq<u8>) -> Seq<(Seq<char>, KvValue)> {
    spec_parse_block(spec_tokenize(b, 0), 0).0
}

proof fn lemma_parse_block_bounds(t: Seq<KvToken>, i: int)
    requires
        0 <= i <= t.len(),
    ensures
        i <= spec_parse_block(t, i).1 <= t.len(),
    decreases t.len() - i,
{
    if i < t.len() {
        match t[i] {
            KvToken::Close => {},
            KvToken::Open => lemma_parse_block_bounds(t, i + 1),
            KvToken::Str(key) => {
                if i + 1 < t.len() {
                    match t[i + 1] {
                        KvToken::Open => {
                            lemma_parse_block_bounds(t, i + 2);
                            let inner = spec_parse_block(t, i + 2);
                            lemma_parse_block_bounds(t, inner.1);
                        },
                        KvToken::Str(v) => lemma_parse_block_bounds(t, i + 2),
                        KvToken::Close => {},
                    }
                }
            },
        }
    }
}

proof fn lemma_pairs_view_push(s: Seq<(String, Value)>, p: (String, Value))
    ensures
        pairs_view(s.push(p)) == pairs_view(s).push((p.0@, value_view(p.1))),
{
    assert(s.push(p).drop_last() =~= s);
}

/// Parses the pairs of a block whose tokens start at index `i`; returns
/// them with the index just past the block.
pub fn parse_block(tokens: &[Token], start: usize) -> (r: (Vec<(String, Value)>, usize))
    requires
        start <= tokens@.len(),
    ensures
        pairs_view(r.0@) == spec_parse_block(tokens_view(tokens@), start as int).0,
        r.1 == spec_parse_block(tokens_view(tokens@), start as int).1,
        start <= r.1 <= tokens@.len(),
    decreases tokens@.len() - start,
{
    let ghost t = tokens_view(tokens@);
    let ghost full = spec_parse_block(t, start as int);
    proof {
        lemma_parse_block_bounds(t, start as int);
    }
    let mut i = start;
    let mut pairs: Vec<(String, Value)> = Vec::new();
    while i < tokens.len()
        invariant_except_break
            t == tokens_view(tokens@),
            full == spec_parse_block(t, start as int),
            start <= full.1 <= tokens@.len(),
            start <= i <= tokens@.len(),
            pairs_view(pairs@) + spec_parse_block(t, i as int).0 == full.0,
            spec_parse_block(t, i as int).1 == full.1,
        ensures
            pairs_view(pairs@) == full.0,
            i == full.1,
        decreases tokens@.len() - i,
    {
        let ghost before = pairs_view(pairs@);
        assert(t[i as int] == token_view(tokens@[i as int]));
        match &tokens[i] {
            Token::Close => {
                assert(before =~= full.0);
                return (pairs, i + 1);
            },
            Token::Str(key) => {
                let key = key.clone();
                i = i + 1;
                if i < tokens.len() {
                    assert(t[i as int] == token_view(tokens@[i as int]));
                    match &tokens[i] {
                        Token::Open => {
                            let (block, next) = parse_block(tokens, i + 1);
                            let ghost inner = spec_parse_block(t, i + 1);
                            let ghost kv = (key@, KvValue::Block(inner.0));
                            let ghost p = (key, Value::Block(block));
                            proof {
                                lemma_pairs_view_push(pairs@, p);
                            }
                            pairs.push((key, Value::Block(block)));
                            assert(pairs_view(pairs@) == before.push(kv));
                            assert(before + (seq![kv] + spec_parse_block(t, next as int).0)
                                =~= pairs_view(pairs@) + spec_parse_block(t, next as int).0);
                            i = next;
                        },
                        Token::Str(value) => {
                            let v = value.clone();
                            let ghost kv = (key@, KvValue::Str(v@));
                            let ghost p = (key, Value::Str(v));
                            proof {
                                lemma_pairs_view_push(pairs@, p);
                            }
                            pairs.push((key, Value::Str(v)));
                            assert(before + (seq![kv] + spec_parse_block(t, i + 1).0)
                                =~= pairs_view(pairs@) + spec_parse_block(t, i + 1).0);
                            i = i + 1;
                        },
                        Token::Close => {
                            assert(before =~= full.0);
                            break;
                        },
                    }
                } else {
                    assert(before =~= full.0);
                    break;
                }
            },
            Token::Open => {
                i = i + 1;
            },
        }
    }
    proof {
        if i >= tokens@.len() {
            assert(pairs_view(pairs@) =~= full.0);
        }
    }
    (pairs, i)
}

/// Parses KeyValues text into the pairs of its top level.
pub fn parse(text: &str) -> (r: Vec<(String, Value)>)
    ensures
        pairs_view(r@) == spec_parse(text.spec_bytes()),
{
    let tokens = tokenize(text);
    parse_block(tokens.as_slice(), 0).0
}

proof fn lemma_quoted_plain_run(b: Seq<u8>, i: int, x: Seq<u8>)
    requires
        0 <= i,
        i + x.len() <= b.len(),
        b.subrange(i, i + x.len()) == x,
        forall|j: int| 0 <= j < x.len() ==> x[j] != 34 && x[j] != 92,
    ensures
        spec_quoted(b, i) == (x + spec_quoted(b, i + x.len()).0, spec_quoted(b, i + x.len()).1),
    decreases x.len(),
{
    if x.len() == 0 {
        assert(x + spec_quoted(b, i).0 =~= spec_quoted(b, i).0);
    } else {
        let t = x.drop_first();
        assert(b[i] == x[0]) by {
            assert(b.subrange(i, i + x.len())[0] == b[i]);
        }
        assert(b.subrange(i + 1, i + 1 + t.len()) =~= t) by {
            assert forall|j: int| 0 <= j < t.len() implies b.subrange(i + 1, i + 1 + t.len())[j] == t[j] by {
                assert(b.subrange(i, i + x.len())[j + 1] == b[i + 1 + j]);
            }
        }
        lemma_quoted_plain_run(b, i + 1, t);
        assert(x =~= seq![x[0]] + t);
        assert(seq![x[0]] + (t + spec_quoted(b, i + x.len()).0) =~= x + spec_quoted(b, i + x.len()).0);
    }
}

proof fn lemma_tokenize_one_string(t: Seq<u8>, v: Seq<u8>)
    requires
        t.len() >= 2,
        t[0] == 34u8,
        spec_quoted(t, 1) == (v, t.len() - 1),
    ensures
        spec_tokenize(t, 0) == seq![KvToken::Str(lossy_text(v))],
{
    assert(spec_tokenize(t, t.len() as int) == Seq::<KvToken>::empty());
    assert(seq![KvToken::Str(lossy_text(v))] + Seq::<KvToken>::empty() =~= seq![KvToken::Str(lossy_text(v))]);
}

proof fn lemma_quoted_escape(b: Seq<u8>, i: int)
    requires
        0 <= i,
        i + 1 < b.len(),
        b[i] == 92u8,
    ensures
        spec_quoted(b, i) == (seq![b[i + 1]] + spec_quoted(b, i + 2).0, spec_quoted(b, i + 2).1),
{
}

/// In a quoted string a backslash escapes the byte after it, which is kept
/// alone: the text `"` x `\` c y `"` (x and y holding neither quotes nor
/// backslashes, c any byte, a quote or a backslash among them) is the one
/// string x c y.
#[verifier::rlimit(40)]
pub proof fn lemma_backslash_escapes_next_byte(x: Seq<u8>, c: u8, y: Seq<u8>)
    requires
        forall|j: int| 0 <= j < x.len() ==> x[j] != 34 && x[j] != 92,
        forall|j: int| 0 <= j < y.len() ==> y[j] != 34 && y[j] != 92,
    ensures
        spec_tokenize(seq![34u8] + x + seq![92u8, c] + y + seq![34u8], 0) == seq![
            KvToken::Str(lossy_text(x + seq![c] + y)),
        ],
{
    let t = seq![34u8] + x + seq![92u8, c] + y + seq![34u8];
    let n = x.len() as int;
    let m = y.len() as int;
    assert(t.len() == n + m + 4);
    assert(t.subrange(1, 1 + n) =~= x);
    assert(t.subrange(3 + n, 3 + n + m) =~= y);
    assert(t[1 + n] == 92u8 && t[2 + n] == c && t[3 + n + m] == 34u8 && t[0] == 34u8);
    let e = spec_quoted(t, 3 + n + m);
    assert(e == (Seq::<u8>::empty(), 3 + n + m));
    lemma_quoted_plain_run(t, 3 + n, y);
    let qy = spec_quoted(t, 3 + n);
    assert(qy.0 =~= y && qy.1 == 3 + n + m) by {
        assert(y + Seq::<u8>::empty() =~= y);
    }
    lemma_quoted_escape(t, 1 + n);
    let qc = spec_quoted(t, 1 + n);
    assert(qc.0 =~= seq![c] + y && qc.1 == 3 + n + m);
    lemma_quoted_plain_run(t, 1, x);
    let qx = spec_quoted(t, 1);
    assert(qx.0 =~= x + seq![c] + y && qx.1 == 3 + n + m);
    lemma_tokenize_one_string(t, x + seq![c] + y);
}

} // verus!
