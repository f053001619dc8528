//! The user query language: a hand-written lexer and the translation of the
//! token stream into a parameterised selection over the backing store.
//!
//! The language has no separate parser: the concrete syntax maps one-to-one
//! onto the selection language of the store, so a query is lexed and each
//! token rendered directly into the selection text, with every tag name and
//! value passed as a bound parameter.

use vstd::prelude::*;

use crate::error::TagError;
use crate::text::str_to_chars;
use super::Tag;

verus! {

/// A lexed token.
#[derive(Debug, PartialEq)]
pub enum Token {
    LeftParen,
    RightParen,
    And,
    Or,
    Not,
    StrictEquals,
    Equals,
    LessThan,
    GreaterThan,
    Tag(String),
    Value(String),
}

/// The mathematical shape of a [`Token`]: the same variants over character
/// sequences.
pub enum Tok {
    LeftParen,
    RightParen,
    And,
    Or,
    Not,
    StrictEquals,
    Equals,
    LessThan,
    GreaterThan,
    Tag(Seq<char>),
    Value(Seq<char>),
}

/// The [`Tok`] that a [`Token`] stands for.
pub open spec fn tok_of(t: Token) -> Tok {
    match t {
        Token::LeftParen => Tok::LeftParen,
        Token::RightParen => Tok::RightParen,
        Token::And => Tok::And,
        Token::Or => Tok::Or,
        Token::Not => Tok::Not,
        Token::StrictEquals => Tok::StrictEquals,
        Token::Equals => Tok::Equals,
        Token::LessThan => Tok::LessThan,
        Token::GreaterThan => Tok::GreaterThan,
        Token::Tag(s) => Tok::Tag(s@),
        Token::Value(s) => Tok::Value(s@),
    }
}

/// The [`Tok`] sequence that a [`Token`] sequence stands for.
pub open spec fn toks_of(ts: Seq<Token>) -> Seq<Tok> {
    ts.map_values(|t: Token| tok_of(t))
}

/// Characters that end a bare tag (and double as operator introducers).
pub open spec fn is_tag_terminator(c: char) -> bool {
    c == '=' || c == '<' || c == '>' || c == ' ' || c == '(' || c == ')'
}

/// Length of the run of spaces at the head of `s`.
pub open spec fn space_len(s: Seq<char>) -> nat
    decreases s.len(),
{
    if s.len() > 0 && s[0] == ' ' {
        1 + space_len(s.drop_first())
    } else {
        0
    }
}

pub proof fn lemma_space_len_le(s: Seq<char>)
    ensures
        space_len(s) <= s.len(),
    decreases s.len(),
{
    if s.len() > 0 && s[0] == ' ' {
        lemma_space_len_le(s.drop_first());
    }
}

/// Length of the run of non-terminator characters at the head of `s`.
pub open spec fn tag_ext_len(s: Seq<char>) -> nat
    decreases s.len(),
{
    if s.len() > 0 && !is_tag_terminator(s[0]) {
        1 + tag_ext_len(s.drop_first())
    } else {
        0
    }
}

pub proof fn lemma_tag_ext_len_le(s: Seq<char>)
    ensures
        tag_ext_len(s) <= s.len(),
    decreases s.len(),
{
    if s.len() > 0 && !is_tag_terminator(s[0]) {
        lemma_tag_ext_len_le(s.drop_first());
    }
}

/// Scans a value at the head of `s`.  Returns the value's content and the
/// number of characters consumed (the terminating character, if any, is not
/// consumed).  A backslash that is not itself escaped escapes the next
/// character; in a quoted value only an unescaped `"` terminates, in a bare
/// value an unescaped `)` or space does.
pub open spec fn value_scan(s: Seq<char>, quoted: bool, escaped: bool) -> (Seq<char>, nat)
    decreases s.len(),
{
    if s.len() == 0 {
        (Seq::<char>::empty(), 0nat)
    } else {
        let c = s[0];
        let ends = if quoted {
            c == '"' && !escaped
        } else {
            !escaped && (c == ')' || c == ' ')
        };
        if ends {
            (Seq::<char>::empty(), 0nat)
        } else if c == '\\' && !escaped {
            let r = value_scan(s.drop_first(), quoted, true);
            (r.0, (r.1 + 1) as nat)
        } else {
            let r = value_scan(s.drop_first(), quoted, false);
            (seq![c] + r.0, (r.1 + 1) as nat)
        }
    }
}

pub proof fn lemma_value_scan_le(s: Seq<char>, quoted: bool, escaped: bool)
    ensures
        value_scan(s, quoted, escaped).1 <= s.len(),
    decreases s.len(),
{
    if s.len() > 0 {
        lemma_value_scan_le(s.drop_first(), quoted, true);
        lemma_value_scan_le(s.drop_first(), quoted, false);
    }
}

/// What follows a comparison operator: leading spaces are dropped, an
/// optional opening quote decides the scan mode, the value is scanned, and a
/// closing quote (if present) is consumed.  Returns the value's content and
/// the number of characters consumed.
pub open spec fn lex_after_op(s: Seq<char>) -> (Seq<char>, nat) {
    let sp = space_len(s);
    let s1 = s.skip(sp as int);
    let quoted = s1.len() > 0 && s1[0] == '"';
    let s2 = if quoted {
        s1.drop_first()
    } else {
        s1
    };
    let scanned = value_scan(s2, quoted, false);
    let s3 = s2.skip(scanned.1 as int);
    let closing: nat = if s3.len() > 0 && s3[0] == '"' {
        1
    } else {
        0
    };
    (scanned.0, (sp + (if quoted { 1nat } else { 0nat }) + scanned.1 + closing) as nat)
}

pub proof fn lemma_lex_after_op_le(s: Seq<char>)
    ensures
        lex_after_op(s).1 <= s.len(),
{
    lemma_space_len_le(s);
    let sp = space_len(s);
    let s1 = s.skip(sp as int);
    let quoted = s1.len() > 0 && s1[0] == '"';
    let s2 = if quoted {
        s1.drop_first()
    } else {
        s1
    };
    lemma_value_scan_le(s2, quoted, false);
    let scanned = value_scan(s2, quoted, false);
    let s3 = s2.skip(scanned.1 as int);
    if s3.len() > 0 && s3[0] == '"' {
    }
}

/// Lower-cases the letters that can spell a reserved boolean word,
/// leaving every other character as it is; enough to match `and`, `or`
/// and `not` in any mixture of cases.
pub open spec fn reserved_lower_char(c: char) -> char {
    if c == 'A' {
        'a'
    } else if c == 'D' {
        'd'
    } else if c == 'N' {
        'n'
    } else if c == 'O' {
        'o'
    } else if c == 'R' {
        'r'
    } else if c == 'T' {
        't'
    } else {
        c
    }
}

/// A word with its reserved-word letters lower-cased.
pub open spec fn reserved_lower(w: Seq<char>) -> Seq<char> {
    w.map_values(|c: char| reserved_lower_char(c))
}

/// The token that a bare word lexes to: one of the reserved boolean words
/// (case-insensitively) or a tag.
pub open spec fn word_tok(w: Seq<char>) -> Tok {
    let l = reserved_lower(w);
    if l == "not"@ {
        Tok::Not
    } else if l == "and"@ {
        Tok::And
    } else if l == "or"@ {
        Tok::Or
    } else {
        Tok::Tag(w)
    }
}

/// The token stream of a query string.
///
/// Spaces outside values are dropped; parentheses are single tokens; `==`
/// is strict equality while a lone `=` is the containment comparison; every
/// comparison operator is followed by a value (possibly empty, possibly
/// quoted); any other run of characters up to a terminator is a word.
pub open spec fn lex_spec(s: Seq<char>) -> Seq<Tok>
    decreases s.len(),
    via lex_spec_dec
{
    if s.len() == 0 {
        Seq::<Tok>::empty()
    } else {
        let c = s[0];
        if c == ' ' {
            lex_spec(s.drop_first())
        } else if c == '(' {
            seq![Tok::LeftParen] + lex_spec(s.drop_first())
        } else if c == ')' {
            seq![Tok::RightParen] + lex_spec(s.drop_first())
        } else if c == '=' || c == '<' || c == '>' {
            let double = c == '=' && s.len() > 1 && s[1] == '=';
            let op = if double {
                Tok::StrictEquals
            } else if c == '=' {
                Tok::Equals
            } else if c == '<' {
                Tok::LessThan
            } else {
                Tok::GreaterThan
            };
            let oplen: nat = if double {
                2
            } else {
                1
            };
            let rest = s.skip(oplen as int);
            let vc = lex_after_op(rest);
            seq![op, Tok::Value(vc.0)] + lex_spec(rest.skip(vc.1 as int))
        } else {
            let tlen = 1 + tag_ext_len(s.drop_first());
            seq![word_tok(s.take(tlen as int))] + lex_spec(s.skip(tlen as int))
        }
    }
}

#[via_fn]
proof fn lex_spec_dec(s: Seq<char>) {
    if s.len() > 0 {
        let c = s[0];
        if c == ' ' || c == '(' || c == ')' {
        } else if c == '=' || c == '<' || c == '>' {
            let double = c == '=' && s.len() > 1 && s[1] == '=';
            let oplen: nat = if double {
                2
            } else {
                1
            };
            let rest = s.skip(oplen as int);
            lemma_lex_after_op_le(rest);
        } else {
            lemma_tag_ext_len_le(s.drop_first());
        }
    }
}

proof fn lemma_skip_succ<A>(s: Seq<A>, i: int)
    requires
        0 <= i < s.len(),
    ensures
        s.skip(i).drop_first() == s.skip(i + 1),
{
    assert(s.skip(i).drop_first() =~= s.skip(i + 1));
}

proof fn lemma_skip_skip<A>(s: Seq<A>, a: int, b: int)
    requires
        0 <= a,
        0 <= b,
        a + b <= s.len(),
    ensures
        s.skip(a).skip(b) == s.skip(a + b),
{
    assert(s.skip(a).skip(b) =~= s.skip(a + b));
}

proof fn lemma_toks_push(ts: Seq<Token>, a: Token)
    ensures
        toks_of(ts.push(a)) == toks_of(ts) + seq![tok_of(a)],
{
    assert(toks_of(ts.push(a)) =~= toks_of(ts) + seq![tok_of(a)]);
}

/// Whether a value being scanned ends at character `c`.
pub open spec fn spec_value_ends(c: char, quoted: bool, escaped: bool) -> bool {
    if quoted {
        c == '"' && !escaped
    } else {
        !escaped && (c == ')' || c == ' ')
    }
}

fn value_ends(c: char, quoted: bool, escaped: bool) -> (r: bool)
    ensures
        r == spec_value_ends(c, quoted, escaped),
{
    if quoted {
        c == '"' && !escaped
    } else {
        !escaped && (c == ')' || c == ' ')
    }
}

fn is_tag_terminator_exec(c: char) -> (r: bool)
    ensures
        r == is_tag_terminator(c),
{
    c == '=' || c == '<' || c == '>' || c == ' ' || c == '(' || c == ')'
}

fn reserved_lower_char_exec(c: char) -> (r: char)
    ensures
        r == reserved_lower_char(c),
{
    if c == 'A' {
        'a'
    } else if c == 'D' {
        'd'
    } else if c == 'N' {
        'n'
    } else if c == 'O' {
        'o'
    } else if c == 'R' {
        'r'
    } else if c == 'T' {
        't'
    } else {
        c
    }
}

/// Turns an accumulated bare word into its token.
fn word_token(w: String) -> (t: Token)
    ensures
        tok_of(t) == word_tok(w@),
{
    let cs = str_to_chars(w.as_str());
    let mut lowered: Vec<char> = Vec::new();
    let mut i: usize = 0;
    proof {
        assert(lowered@ =~= reserved_lower(w@).take(0));
    }
    while i < cs.len()
        invariant
            cs@ == w@,
            i <= w@.len(),
            lowered@ == reserved_lower(w@).take(i as int),
        decreases cs@.len() - i,
    {
        lowered.push(reserved_lower_char_exec(cs[i]));
        i += 1;
        proof {
            let m = reserved_lower(w@);
            assert(m[i - 1] == reserved_lower_char(w@[i - 1]));
            assert(m.take(i as int) =~= m.take(i - 1).push(m[i - 1]));
        }
    }
    proof {
        assert(reserved_lower(w@).take(w@.len() as int) =~= reserved_lower(w@));
    }
    let l = crate::text::chars_to_string(&lowered);
    if l == String::from_str("not") {
        Token::Not
    } else if l == String::from_str("and") {
        Token::And
    } else if l == String::from_str("or") {
        Token::Or
    } else {
        Token::Tag(w)
    }
}

impl Token {
    /// Returns whether this token is a comparison operator.
    pub fn is_comparison_operator(&self) -> (r: bool)
        ensures
            r == is_comparison_tok(tok_of(*self)),
    {
        match self {
            Token::StrictEquals | Token::Equals | Token::LessThan | Token::GreaterThan => true,
            _ => false,
        }
    }
}

/// Whether a token is a comparison operator.
pub open spec fn is_comparison_tok(t: Tok) -> bool {
    t is StrictEquals || t is Equals || t is LessThan || t is GreaterThan
}

/// Lex a raw query string into tokens.
///
/// A malformed query string still lexes to some token stream; malformed
/// shapes are rejected when the tokens are translated into a selection.
/// Reads the value that follows a comparison operator, starting at `start`:
/// skips spaces, consumes an optional opening quote, scans the value, and
/// consumes the closing quote if one is present.  Returns the value's
/// characters and the position after everything consumed.
fn lex_value(cs: &Vec<char>, start: usize) -> (res: (Vec<char>, usize))
    requires
        start <= cs@.len(),
    ensures
        res.0@ == lex_after_op(cs@.skip(start as int)).0,
        res.1 == start + lex_after_op(cs@.skip(start as int)).1,
        res.1 <= cs@.len(),
{
    let ghost full = cs@;
    let ghost rest = full.skip(start as int);
    let n = cs.len();
    let mut i = start;
    // Skip leading whitespace before the value.
    while i < n && cs[i] == ' '
        invariant
            cs@ == full,
            n == full.len(),
            start <= i <= n,
            space_len(rest) == (i - start) + space_len(full.skip(i as int)),
        decreases n - i,
    {
        i += 1;
        proof {
            lemma_skip_succ(full, i - 1);
            assert(full.skip(i - 1)[0] == full[i - 1]);
        }
    }
    proof {
        if i < n {
            assert(full.skip(i as int)[0] == full[i as int]);
        }
        assert(space_len(full.skip(i as int)) == 0);
        assert(space_len(rest) == i - start);
        lemma_skip_skip(full, start as int, i - start);
        assert(rest.skip(i - start) == full.skip(i as int));
    }
    let ghost isp = i as int;
    // Consume the next character if it is an opening double quote.
    let quoted = if i < n && cs[i] == '"' {
        i += 1;
        true
    } else {
        false
    };
    let ghost iscan = i as int;
    let ghost s2 = full.skip(iscan);
    proof {
        if isp < n {
            assert(full.skip(isp)[0] == full[isp]);
        }
        if quoted {
            lemma_skip_succ(full, isp);
        }
    }
    // Scan the value until an unescaped terminator.
    let mut buf: Vec<char> = Vec::new();
    let mut escaped = false;
    while i < n && !value_ends(cs[i], quoted, escaped)
        invariant
            cs@ == full,
            n == full.len(),
            iscan <= i <= n,
            value_scan(s2, quoted, false).0 == buf@ + value_scan(
                full.skip(i as int),
                quoted,
                escaped,
            ).0,
            value_scan(s2, quoted, false).1 == (i - iscan) + value_scan(
                full.skip(i as int),
                quoted,
                escaped,
            ).1,
        decreases n - i,
    {
        let c2 = cs[i];
        let ghost j = i as int;
        let ghost e_old = escaped;
        let ghost b_old = buf@;
        let ghost before = full.skip(j);
        if c2 == '\\' && !escaped {
            escaped = true;
        } else {
            escaped = false;
            buf.push(c2);
        }
        i += 1;
        proof {
            lemma_skip_succ(full, j);
            assert(before[0] == full[j]);
            let after = full.skip(i as int);
            if c2 == '\\' && !e_old {
                assert(value_scan(before, quoted, e_old).0 == value_scan(after, quoted, true).0);
            } else {
                assert(value_scan(before, quoted, e_old).0 == seq![c2] + value_scan(
                    after,
                    quoted,
                    false,
                ).0);
                assert(b_old + (seq![c2] + value_scan(after, quoted, false).0) =~= (b_old + seq![
                    c2,
                ]) + value_scan(after, quoted, false).0);
                assert(b_old + seq![c2] =~= b_old.push(c2));
            }
        }
    }
    proof {
        if i < n {
            assert(full.skip(i as int)[0] == full[i as int]);
        }
        assert(value_scan(full.skip(i as int), quoted, escaped).0 == Seq::<char>::empty());
        assert(value_scan(full.skip(i as int), quoted, escaped).1 == 0);
        assert(buf@ + Seq::<char>::empty() =~= buf@);
        assert(value_scan(s2, quoted, false).0 == buf@);
        assert(value_scan(s2, quoted, false).1 == i - iscan);
    }
    let ghost iend = i as int;
    proof {
        lemma_skip_skip(full, iscan, iend - iscan);
        assert(s2.skip(iend - iscan) == full.skip(iend));
        if iend < n {
            assert(full.skip(iend)[0] == full[iend]);
        }
    }
    // Consume the next character if it is a closing double quote.
    if i < n && cs[i] == '"' {
        i += 1;
    }
    proof {
        assert(lex_after_op(rest).0 == buf@);
        assert(lex_after_op(rest).1 == (i as int) - start);
    }
    (buf, i)
}

/// Reads a bare word starting at `start` (whose character is not a
/// terminator): the word runs until the next terminator character.
fn lex_word(cs: &Vec<char>, start: usize) -> (res: (String, usize))
    requires
        start < cs@.len(),
    ensures
        ({
            let s = cs@.skip(start as int);
            let tlen = 1 + tag_ext_len(s.drop_first());
            res.0@ == s.take(tlen as int) && res.1 == start + tlen && res.1 <= cs@.len()
        }),
{
    let ghost full = cs@;
    let ghost i0: int = start as int;
    let n = cs.len();
    let mut buf: Vec<char> = Vec::new();
    buf.push(cs[start]);
    let mut i = start + 1;
    proof {
        assert(full.subrange(i0, i as int) =~= Seq::<char>::empty().push(full[i0]));
        assert(buf@ == full.subrange(i0, i as int));
    }
    while i < n && !is_tag_terminator_exec(cs[i])
        invariant
            cs@ == full,
            n == full.len(),
            0 <= i0 < i <= n,
            buf@ == full.subrange(i0, i as int),
            tag_ext_len(full.skip(i0 + 1)) == (i - i0 - 1) + tag_ext_len(full.skip(i as int)),
        decreases n - i,
    {
        let ghost b_old = buf@;
        let ghost j = i as int;
        buf.push(cs[i]);
        i += 1;
        proof {
            lemma_skip_succ(full, j);
            assert(full.skip(j)[0] == full[j]);
            assert(buf@ == b_old.push(full[j]));
            crate::text::lemma_subrange_push(full, i0, j, b_old);
            assert(buf@ == full.subrange(i0, i as int));
        }
    }
    proof {
        if i < n {
            assert(full.skip(i as int)[0] == full[i as int]);
        }
        assert(tag_ext_len(full.skip(i as int)) == 0);
        lemma_skip_succ(full, i0);
        assert(full.skip(i0).drop_first() == full.skip(i0 + 1));
        assert(1 + tag_ext_len(full.skip(i0).drop_first()) == i - i0);
        assert(full.skip(i0).take(i - i0) =~= full.subrange(i0, i as int));
    }
    let w = crate::text::chars_to_string(&buf);
    (w, i)
}

/// Lex a raw query string into tokens.
///
/// A malformed query string still lexes to some token stream; malformed
/// shapes are rejected when the tokens are translated into a selection.
#[verifier::rlimit(100)]
pub fn lex_query(query: &str) -> (r: Vec<Token>)
    ensures
        toks_of(r@) == lex_spec(query@),
{
    let cs = str_to_chars(query);
    let ghost full = query@;
    let n = cs.len();
    let mut tokens: Vec<Token> = Vec::new();
    let mut i: usize = 0;
    proof {
        assert(full.skip(0) =~= full);
        assert(toks_of(tokens@) =~= Seq::<Tok>::empty());
    }
    while i < n
        invariant
            cs@ == full,
            n == full.len(),
            i <= n,
            lex_spec(full) == toks_of(tokens@) + lex_spec(full.skip(i as int)),
        decreases n - i,
    {
        let ghost i0 = i as int;
        let ghost s0 = full.skip(i0);
        let ghost t_in = tokens@;
        proof {
            assert(s0[0] == full[i0]);
        }
        let c = cs[i];
        if c == ' ' {
            i += 1;
            proof {
                lemma_skip_succ(full, i0);
                assert(lex_spec(s0) == lex_spec(full.skip(i as int)));
            }
        } else if c == '(' || c == ')' {
            let tk = if c == '(' {
                Token::LeftParen
            } else {
                Token::RightParen
            };
            tokens.push(tk);
            i += 1;
            proof {
                lemma_skip_succ(full, i0);
                lemma_toks_push(t_in, tk);
                assert(lex_spec(s0) == seq![tok_of(tk)] + lex_spec(full.skip(i as int)));
                assert(toks_of(t_in) + (seq![tok_of(tk)] + lex_spec(full.skip(i as int))) =~= (
                toks_of(t_in) + seq![tok_of(tk)]) + lex_spec(full.skip(i as int)));
            }
        } else if c == '=' || c == '<' || c == '>' {
            let optk: Token;
            if c == '=' {
                if i + 1 < n && cs[i + 1] == '=' {
                    optk = Token::StrictEquals;
                    i += 2;
                    proof {
                        assert(s0[1] == full[i0 + 1]);
                    }
                } else {
                    optk = Token::Equals;
                    i += 1;
                    proof {
                        if s0.len() > 1 {
                            assert(s0[1] == full[i0 + 1]);
                        }
                    }
                }
            } else if c == '<' {
                optk = Token::LessThan;
                i += 1;
            } else {
                optk = Token::GreaterThan;
                i += 1;
            }
            let ghost iop = i as int;
            let ghost rest = full.skip(iop);
            proof {
                lemma_skip_skip(full, i0, iop - i0);
                assert(s0.skip(iop - i0) == rest);
            }
            let scanned = lex_value(&cs, i);
            let value = crate::text::chars_to_string(&scanned.0);
            i = scanned.1;
            tokens.push(optk);
            tokens.push(Token::Value(value));
            proof {
                let vc = lex_after_op(rest);
                lemma_skip_skip(full, iop, (i as int) - iop);
                assert(rest.skip(vc.1 as int) == full.skip(i as int));
                assert(lex_spec(s0) == seq![tok_of(optk), Tok::Value(vc.0)] + lex_spec(
                    full.skip(i as int),
                ));
                lemma_toks_push(t_in, optk);
                lemma_toks_push(t_in.push(optk), Token::Value(value));
                assert(toks_of(tokens@) =~= toks_of(t_in) + seq![tok_of(optk), Tok::Value(vc.0)]);
                assert(toks_of(t_in) + (seq![tok_of(optk), Tok::Value(vc.0)] + lex_spec(
                    full.skip(i as int),
                )) =~= (toks_of(t_in) + seq![tok_of(optk), Tok::Value(vc.0)]) + lex_spec(
                    full.skip(i as int),
                ));
            }
        } else {
            // A bare word: either a reserved boolean operator or a tag.
            let word = lex_word(&cs, i);
            let t = word_token(word.0);
            i = word.1;
            tokens.push(t);
            proof {
                lemma_toks_push(t_in, t);
                lemma_skip_skip(full, i0, (i as int) - i0);
                assert(s0.skip((i as int) - i0) == full.skip(i as int));
                assert(lex_spec(s0) == seq![word_tok(s0.take((i as int) - i0))] + lex_spec(
                    full.skip(i as int),
                ));
                assert(toks_of(t_in) + (seq![tok_of(t)] + lex_spec(full.skip(i as int))) =~= (
                toks_of(t_in) + seq![tok_of(t)]) + lex_spec(full.skip(i as int)));
            }
        }
    }
    proof {
        assert(full.skip(n as int) =~= Seq::<char>::empty());
        assert(lex_spec(full.skip(n as int)) == Seq::<Tok>::empty());
        assert(toks_of(tokens@) + Seq::<Tok>::empty() =~= toks_of(tokens@));
    }
    tokens
}


// The partial selection texts.  Rendering a token stream into a selection
// appends one of these fragments per atom; the user's tag names and values
// are only ever passed as bound parameters, never spliced into the text.

/// The selection's head: project path and mapping id.
pub open spec fn spec_sql_select_start() -> Seq<char> {
    "SELECT TagMapping.Path, TagMapping.TagMappingID FROM TagMapping WHERE "@
}

fn sql_select_start() -> (r: &'static str)
    ensures
        r@ == spec_sql_select_start(),
{
    "SELECT TagMapping.Path, TagMapping.TagMappingID FROM TagMapping WHERE "
}

/// Strict equality on a value, case-insensitive.
pub open spec fn spec_sql_strict_eq_value() -> Seq<char> {
    "TagMapping.Path IN ( SELECT TagMapping.Path FROM TagMapping INNER JOIN Tag ON Tag.TagID = TagMapping.TagID WHERE Tag.Name = ? AND TagMapping.Value = ? COLLATE NOCASE )"@
}

fn sql_strict_eq_value() -> (r: &'static str)
    ensures
        r@ == spec_sql_strict_eq_value(),
{
    "TagMapping.Path IN ( SELECT TagMapping.Path FROM TagMapping INNER JOIN Tag ON Tag.TagID = TagMapping.TagID WHERE Tag.Name = ? AND TagMapping.Value = ? COLLATE NOCASE )"
}

/// Strict equality on a value, byte-exact.
pub open spec fn spec_sql_strict_eq_value_case_sens() -> Seq<char> {
    "TagMapping.Path IN ( SELECT TagMapping.Path FROM TagMapping INNER JOIN Tag ON Tag.TagID = TagMapping.TagID WHERE Tag.Name = ? AND TagMapping.Value = ? )"@
}

fn sql_strict_eq_value_case_sens() -> (r: &'static str)
    ensures
        r@ == spec_sql_strict_eq_value_case_sens(),
{
    "TagMapping.Path IN ( SELECT TagMapping.Path FROM TagMapping INNER JOIN Tag ON Tag.TagID = TagMapping.TagID WHERE Tag.Name = ? AND TagMapping.Value = ? )"
}

/// Existence of the tag, case-insensitive.
pub open spec fn spec_sql_eq() -> Seq<char> {
    "TagMapping.Path IN ( SELECT TagMapping.Path FROM TagMapping INNER JOIN Tag ON Tag.TagID = TagMapping.TagID WHERE Tag.Name = ? COLLATE NOCASE )"@
}

fn sql_eq() -> (r: &'static str)
    ensures
        r@ == spec_sql_eq(),
{
    "TagMapping.Path IN ( SELECT TagMapping.Path FROM TagMapping INNER JOIN Tag ON Tag.TagID = TagMapping.TagID WHERE Tag.Name = ? COLLATE NOCASE )"
}

/// Existence of the tag, byte-exact.
pub open spec fn spec_sql_eq_case_sens() -> Seq<char> {
    "TagMapping.Path IN ( SELECT TagMapping.Path FROM TagMapping INNER JOIN Tag ON Tag.TagID = TagMapping.TagID WHERE Tag.Name = ? )"@
}

fn sql_eq_case_sens() -> (r: &'static str)
    ensures
        r@ == spec_sql_eq_case_sens(),
{
    "TagMapping.Path IN ( SELECT TagMapping.Path FROM TagMapping INNER JOIN Tag ON Tag.TagID = TagMapping.TagID WHERE Tag.Name = ? )"
}

/// Substring containment on a value, case-insensitive, `%`/`_` escaped.
pub open spec fn spec_sql_eq_value() -> Seq<char> {
    "TagMapping.Path IN ( SELECT TagMapping.Path FROM TagMapping INNER JOIN Tag ON Tag.TagID = TagMapping.TagID WHERE Tag.Name = ? AND TagMapping.Value LIKE ('%' || ? || '%') ESCAPE '\\' COLLATE NOCASE )"@
}

fn sql_eq_value() -> (r: &'static str)
    ensures
        r@ == spec_sql_eq_value(),
{
    "TagMapping.Path IN ( SELECT TagMapping.Path FROM TagMapping INNER JOIN Tag ON Tag.TagID = TagMapping.TagID WHERE Tag.Name = ? AND TagMapping.Value LIKE ('%' || ? || '%') ESCAPE '\\' COLLATE NOCASE )"
}

/// Less-than on a value, under the store's default ordering.
pub open spec fn spec_sql_lt_value() -> Seq<char> {
    "TagMapping.Path IN ( SELECT TagMapping.Path FROM TagMapping INNER JOIN Tag ON Tag.TagID = TagMapping.TagID WHERE Tag.Name = ? AND TagMapping.Value < ? )"@
}

fn sql_lt_value() -> (r: &'static str)
    ensures
        r@ == spec_sql_lt_value(),
{
    "TagMapping.Path IN ( SELECT TagMapping.Path FROM TagMapping INNER JOIN Tag ON Tag.TagID = TagMapping.TagID WHERE Tag.Name = ? AND TagMapping.Value < ? )"
}

/// Greater-than on a value, under the store's default ordering.
pub open spec fn spec_sql_gt_value() -> Seq<char> {
    "TagMapping.Path IN ( SELECT TagMapping.Path FROM TagMapping INNER JOIN Tag ON Tag.TagID = TagMapping.TagID WHERE Tag.Name = ? AND TagMapping.Value > ? )"@
}

fn sql_gt_value() -> (r: &'static str)
    ensures
        r@ == spec_sql_gt_value(),
{
    "TagMapping.Path IN ( SELECT TagMapping.Path FROM TagMapping INNER JOIN Tag ON Tag.TagID = TagMapping.TagID WHERE Tag.Name = ? AND TagMapping.Value > ? )"
}

/// The selection's tail: one row per path, in mapping-id (that is,
/// insertion) order.
pub open spec fn spec_sql_tail() -> Seq<char> {
    " GROUP BY TagMapping.Path ORDER BY TagMapping.TagMappingID"@
}

fn sql_tail() -> (r: &'static str)
    ensures
        r@ == spec_sql_tail(),
{
    " GROUP BY TagMapping.Path ORDER BY TagMapping.TagMappingID"
}

/// One character of a containment pattern, with the pattern
/// metacharacters escaped.
pub open spec fn like_esc_char(c: char) -> Seq<char> {
    if c == '%' {
        seq!['\\', '%']
    } else if c == '_' {
        seq!['\\', '_']
    } else {
        seq![c]
    }
}

/// A value with the containment-pattern metacharacters `%` and `_`
/// escaped.
pub open spec fn like_escaped(v: Seq<char>) -> Seq<char>
    decreases v.len(),
{
    if v.len() == 0 {
        Seq::<char>::empty()
    } else {
        like_esc_char(v[0]) + like_escaped(v.drop_first())
    }
}

proof fn lemma_like_escaped_push(p: Seq<char>, c: char)
    ensures
        like_escaped(p.push(c)) == like_escaped(p) + like_esc_char(c),
    decreases p.len(),
{
    if p.len() == 0 {
        assert(p.push(c).drop_first() =~= p);
        assert(like_escaped(p.push(c)) == like_esc_char(c) + like_escaped(p));
        assert(like_esc_char(c) + Seq::<char>::empty() =~= like_esc_char(c));
        assert(Seq::<char>::empty() + like_esc_char(c) =~= like_esc_char(c));
    } else {
        assert(p.push(c).drop_first() =~= p.drop_first().push(c));
        lemma_like_escaped_push(p.drop_first(), c);
        assert(like_esc_char(p[0]) + (like_escaped(p.drop_first()) + like_esc_char(c)) =~= (
        like_esc_char(p[0]) + like_escaped(p.drop_first())) + like_esc_char(c));
    }
}

/// Escapes `%` and `_` in a containment value.
pub(crate) fn like_escape(v: &str) -> (r: String)
    ensures
        r@ == like_escaped(v@),
{
    let cs = str_to_chars(v);
    let mut out: Vec<char> = Vec::new();
    let mut i: usize = 0;
    proof {
        assert(cs@.take(0) =~= Seq::<char>::empty());
    }
    while i < cs.len()
        invariant
            cs@ == v@,
            i <= cs@.len(),
            out@ == like_escaped(v@.take(i as int)),
        decreases cs@.len() - i,
    {
        let c = cs[i];
        if c == '%' {
            out.push('\\');
            out.push('%');
        } else if c == '_' {
            out.push('\\');
            out.push('_');
        } else {
            out.push(c);
        }
        i += 1;
        proof {
            lemma_like_escaped_push(v@.take(i - 1), v@[i - 1]);
            assert(v@.take(i as int) =~= v@.take(i - 1).push(v@[i - 1]));
            assert(out@ =~= like_escaped(v@.take(i - 1)) + like_esc_char(v@[i - 1]));
        }
    }
    proof {
        assert(v@.take(v@.len() as int) =~= v@);
    }
    crate::text::chars_to_string(&out)
}

/// The character-sequence views of a vector of strings.
pub open spec fn views_of(ps: Seq<String>) -> Seq<Seq<char>> {
    ps.map_values(|p: String| p@)
}

proof fn lemma_views_push(ps: Seq<String>, p: String)
    ensures
        views_of(ps.push(p)) == views_of(ps).push(p@),
{
    assert(views_of(ps.push(p)) =~= views_of(ps).push(p@));
}

/// The rendering of a token stream into the middle of a selection: the
/// fragment texts appended per atom, with the parameters they bind.
///
/// `None` is a malformed stream: a comparison operator without a value
/// after a tag, or a value or comparison operator in any other position.
pub open spec fn to_sql_spec(ts: Seq<Tok>, case_sensitive: bool) -> Option<
    (Seq<char>, Seq<Seq<char>>),
>
    decreases ts.len(),
{
    if ts.len() == 0 {
        Some((Seq::<char>::empty(), Seq::<Seq<char>>::empty()))
    } else {
        match ts[0] {
            Tok::Tag(t) => {
                if ts.len() >= 2 && is_comparison_tok(ts[1]) {
                    if ts.len() >= 3 && ts[2] is Value {
                        let v = ts[2]->Value_0;
                        let frag = if ts[1] is StrictEquals {
                            if case_sensitive {
                                spec_sql_strict_eq_value_case_sens()
                            } else {
                                spec_sql_strict_eq_value()
                            }
                        } else if ts[1] is Equals {
                            spec_sql_eq_value()
                        } else if ts[1] is GreaterThan {
                            spec_sql_gt_value()
                        } else {
                            spec_sql_lt_value()
                        };
                        let ps = if ts[1] is Equals {
                            seq![t, like_escaped(v)]
                        } else {
                            seq![t, v]
                        };
                        match to_sql_spec(ts.skip(3), case_sensitive) {
                            Some(r) => Some((frag + r.0, ps + r.1)),
                            None => None,
                        }
                    } else {
                        None
                    }
                } else {
                    let frag = if case_sensitive {
                        spec_sql_eq_case_sens()
                    } else {
                        spec_sql_eq()
                    };
                    match to_sql_spec(ts.skip(1), case_sensitive) {
                        Some(r) => Some((frag + r.0, seq![t] + r.1)),
                        None => None,
                    }
                }
            },
            Tok::And | Tok::Or | Tok::Not | Tok::LeftParen | Tok::RightParen => to_sql_prepend(
                plain_frag_spec(ts[0]),
                to_sql_spec(ts.skip(1), case_sensitive),
            ),
            _ => None,
        }
    }
}

/// Puts a plain fragment in front of a translated remainder.
pub open spec fn to_sql_prepend(frag: Seq<char>, rest: Option<(Seq<char>, Seq<Seq<char>>)>)
    -> Option<(Seq<char>, Seq<Seq<char>>)> {
    match rest {
        Some(r) => Some((frag + r.0, r.1)),
        None => None,
    }
}



/// The selection fragment of a boolean operator or parenthesis, rendered
/// structurally into the selection text.
pub open spec fn plain_frag_spec(t: Tok) -> Seq<char> {
    if t is And {
        " AND "@
    } else if t is Or {
        " OR "@
    } else if t is Not {
        " NOT "@
    } else if t is LeftParen {
        " ( "@
    } else {
        " ) "@
    }
}

fn plain_frag(t: &Token) -> (r: &'static str)
    requires
        tok_of(*t) is And || tok_of(*t) is Or || tok_of(*t) is Not || tok_of(*t) is LeftParen
            || tok_of(*t) is RightParen,
    ensures
        r@ == plain_frag_spec(tok_of(*t)),
{
    match t {
        Token::And => " AND ",
        Token::Or => " OR ",
        Token::Not => " NOT ",
        Token::LeftParen => " ( ",
        Token::RightParen => " ) ",
        _ => {
            proof {
                assert(false);
            }
            " "
        },
    }
}

proof fn lemma_concat_assoc<A>(a: Seq<A>, b: Seq<A>, c: Seq<A>)
    ensures
        (a + b) + c == a + (b + c),
{
    assert((a + b) + c =~= a + (b + c));
}

/// Glues an already rendered prefix (fragment text and parameters) onto
/// the translation of the remaining tokens.
pub open spec fn to_sql_combine(
    mid: Seq<char>,
    ps: Seq<Seq<char>>,
    rest: Option<(Seq<char>, Seq<Seq<char>>)>,
) -> Option<(Seq<char>, Seq<Seq<char>>)> {
    match rest {
        Some(r) => Some((mid + r.0, ps + r.1)),
        None => None,
    }
}

/// Convert a stream of tokens into a selection over the store.
///
/// A malformed stream (a comparison operator without a following value, or
/// a value or comparison operator standing anywhere but after a tag) is
/// rejected; the boolean operators and parentheses are rendered
/// structurally, so a shape the store's own grammar refuses is caught only
/// when the selection runs.
#[verifier::rlimit(100)]
fn to_sql(tokens: &Vec<Token>, case_sensitive: bool) -> (r: Result<
    (String, Vec<String>),
    TagError,
>)
    ensures
        ({
            let t = to_sql_spec(toks_of(tokens@), case_sensitive);
            match r {
                Ok(p) => t matches Some(q) && p.0@ == spec_sql_select_start() + q.0
                    + spec_sql_tail() && views_of(p.1@) == q.1,
                Err(e) => t is None && e is InvalidQuery,
            }
        }),
{
    let ghost full = toks_of(tokens@);
    let mut sql = String::from_str(sql_select_start());
    let mut params: Vec<String> = Vec::new();
    let ghost mut mid: Seq<char> = Seq::<char>::empty();
    let n = tokens.len();
    let mut i: usize = 0;
    proof {
        assert(full.skip(0) =~= full);
        assert(sql@ =~= spec_sql_select_start() + mid);
        assert(views_of(params@) =~= Seq::<Seq<char>>::empty());
        assert(to_sql_spec(full, case_sensitive) == to_sql_combine(
            mid,
            views_of(params@),
            to_sql_spec(full.skip(0), case_sensitive),
        ));
    }
    while i < n
        invariant
            full == toks_of(tokens@),
            n == full.len(),
            i <= n,
            sql@ == spec_sql_select_start() + mid,
            to_sql_spec(full, case_sensitive) == to_sql_combine(
                mid,
                views_of(params@),
                to_sql_spec(full.skip(i as int), case_sensitive),
            ),
        decreases n - i,
    {
        let ghost i0 = i as int;
        let ghost s0 = full.skip(i0);
        let ghost mid0 = mid;
        let ghost pv0 = views_of(params@);
        proof {
            assert(s0[0] == full[i0]);
            assert(full[i0] == tok_of(tokens@[i0]));
        }
        let t = &tokens[i];
        match t {
            Token::Tag(tag) => {
                let has_op = i + 1 < n && tokens[i + 1].is_comparison_operator();
                proof {
                    if i0 + 1 < n {
                        assert(s0[1] == full[i0 + 1]);
                        assert(full[i0 + 1] == tok_of(tokens@[i0 + 1]));
                    }
                }
                if has_op {
                    let has_value = i + 2 < n && matches!(&tokens[i + 2], Token::Value(_));
                    proof {
                        if i0 + 2 < n {
                            assert(s0[2] == full[i0 + 2]);
                            assert(full[i0 + 2] == tok_of(tokens@[i0 + 2]));
                        }
                    }
                    if !has_value {
                        proof {
                            assert(to_sql_spec(s0, case_sensitive) is None);
                        }
                        return Err(
                            TagError::InvalidQuery {
                                detail: String::from_str("expected value after operator."),
                            },
                        );
                    }
                    if let Token::Value(value) = &tokens[i + 2] {
                        let ghost frag: Seq<char>;
                        let ghost ps: Seq<Seq<char>>;
                        match &tokens[i + 1] {
                            Token::StrictEquals => {
                                if case_sensitive {
                                    sql.append(sql_strict_eq_value_case_sens());
                                    proof {
                                        frag = spec_sql_strict_eq_value_case_sens();
                                    }
                                } else {
                                    sql.append(sql_strict_eq_value());
                                    proof {
                                        frag = spec_sql_strict_eq_value();
                                    }
                                }
                                params.push(tag.clone());
                                params.push(value.clone());
                                proof {
                                    ps = seq![tag@, value@];
                                }
                            },
                            Token::Equals => {
                                sql.append(sql_eq_value());
                                let escaped_value = like_escape(value.as_str());
                                params.push(tag.clone());
                                params.push(escaped_value);
                                proof {
                                    frag = spec_sql_eq_value();
                                    ps = seq![tag@, like_escaped(value@)];
                                }
                            },
                            Token::GreaterThan => {
                                sql.append(sql_gt_value());
                                params.push(tag.clone());
                                params.push(value.clone());
                                proof {
                                    frag = spec_sql_gt_value();
                                    ps = seq![tag@, value@];
                                }
                            },
                            Token::LessThan => {
                                sql.append(sql_lt_value());
                                params.push(tag.clone());
                                params.push(value.clone());
                                proof {
                                    frag = spec_sql_lt_value();
                                    ps = seq![tag@, value@];
                                }
                            },
                            _ => {
                                proof {
                                    assert(false);
                                    frag = Seq::<char>::empty();
                                    ps = Seq::<Seq<char>>::empty();
                                }
                            },
                        }
                        i += 3;
                        proof {
                            mid = mid0 + frag;
                            lemma_concat_assoc(spec_sql_select_start(), mid0, frag);
                            lemma_skip_skip(full, i0, 3);
                            assert(s0.skip(3) == full.skip(i as int));
                            lemma_views_push(params@.drop_last().drop_last(), params@.drop_last().last());
                            lemma_views_push(params@.drop_last(), params@.last());
                            assert(params@.drop_last().drop_last().push(params@.drop_last().last()).push(params@.last()) =~= params@);
                            assert(views_of(params@) =~= pv0 + ps);
                            match to_sql_spec(full.skip(i as int), case_sensitive) {
                                Some(r) => {
                                    lemma_concat_assoc(mid0, frag, r.0);
                                    lemma_concat_assoc(pv0, ps, r.1);
                                },
                                None => {},
                            }
                        }
                    }
                } else {
                    let ghost frag: Seq<char>;
                    if case_sensitive {
                        sql.append(sql_eq_case_sens());
                        proof {
                            frag = spec_sql_eq_case_sens();
                        }
                    } else {
                        sql.append(sql_eq());
                        proof {
                            frag = spec_sql_eq();
                        }
                    }
                    params.push(tag.clone());
                    i += 1;
                    proof {
                        mid = mid0 + frag;
                        lemma_concat_assoc(spec_sql_select_start(), mid0, frag);
                        lemma_skip_skip(full, i0, 1);
                        assert(s0.skip(1) == full.skip(i as int));
                        lemma_views_push(params@.drop_last(), params@.last());
                        assert(params@.drop_last().push(params@.last()) =~= params@);
                        assert(views_of(params@) =~= pv0 + seq![tag@]);
                        match to_sql_spec(full.skip(i as int), case_sensitive) {
                            Some(r) => {
                                lemma_concat_assoc(mid0, frag, r.0);
                                lemma_concat_assoc(pv0, seq![tag@], r.1);
                            },
                            None => {},
                        }
                    }
                }
            },
            Token::And | Token::Or | Token::Not | Token::LeftParen | Token::RightParen => {
                let frag = plain_frag(t);
                sql.append(frag);
                i += 1;
                proof {
                    mid = mid0 + frag@;
                    lemma_concat_assoc(spec_sql_select_start(), mid0, frag@);
                    lemma_skip_skip(full, i0, 1);
                    assert(s0.skip(1) == full.skip(i as int));
                    match to_sql_spec(full.skip(i as int), case_sensitive) {
                        Some(r) => {
                            lemma_concat_assoc(mid0, frag@, r.0);
                        },
                        None => {},
                    }
                }
            },
            Token::Value(_) => {
                proof {
                    assert(to_sql_spec(s0, case_sensitive) is None);
                }
                return Err(
                    TagError::InvalidQuery { detail: String::from_str("unexpected value.") },
                );
            },
            Token::StrictEquals | Token::Equals | Token::LessThan | Token::GreaterThan => {
                proof {
                    assert(to_sql_spec(s0, case_sensitive) is None);
                }
                return Err(
                    TagError::InvalidQuery {
                        detail: String::from_str("unexpected comparison operator."),
                    },
                );
            },
        }
    }
    sql.append(sql_tail());
    proof {
        assert(full.skip(n as int) =~= Seq::<Tok>::empty());
        let q = to_sql_spec(full, case_sensitive);
        assert(mid + Seq::<char>::empty() =~= mid);
        assert(views_of(params@) + Seq::<Seq<char>>::empty() =~= views_of(params@));
        assert(q matches Some(p) && p.0 == mid && p.1 == views_of(params@));
        lemma_concat_assoc(spec_sql_select_start(), mid, spec_sql_tail());
    }
    Ok((sql, params))
}


/// Required to parse a tag value pair. \
/// Used when the tag value pair is not in the correct format.
#[derive(Clone, Debug)]
pub struct TagValuePairParseError;

impl TagValuePairParseError {
    /// A user-readable description of the error.
    pub fn message(&self) -> (r: String)
        ensures
            r@ == "not in the required tag(=value)? format."@,
    {
        String::from_str("not in the required tag(=value)? format.")
    }
}

/// What a tag-value-pair string parses to: a lone tag, or a tag, the
/// containment operator and a value.
pub open spec fn parse_tag_value_spec(s: Seq<char>) -> Option<(Seq<char>, Option<Seq<char>>)> {
    let ts = lex_spec(s);
    if ts.len() == 3 && ts[0] is Tag && ts[1] is Equals && ts[2] is Value {
        Some((ts[0]->Tag_0, Some(ts[2]->Value_0)))
    } else if ts.len() == 1 && ts[0] is Tag {
        Some((ts[0]->Tag_0, None))
    } else {
        None
    }
}

/// Contains a simple tag value pair parsed from user input.
#[derive(Clone, Debug)]
pub struct TagValuePair {
    pub tag: String,
    pub value: Option<String>,
}

impl TagValuePair {
    /// Parses a tag value pair from a string as a subset of a query.
    pub fn parse(s: &str) -> (r: Result<TagValuePair, TagValuePairParseError>)
        ensures
            match r {
                Ok(p) => parse_tag_value_spec(s@) matches Some(q) && p.tag@ == q.0 && (match p
                    .value {
                    Some(v) => q.1 matches Some(w) && v@ == w,
                    None => q.1 is None,
                }),
                Err(_) => parse_tag_value_spec(s@) is None,
            },
    {
        let mut tokens = lex_query(s);
        proof {
            assert(toks_of(tokens@).len() == tokens@.len());
        }
        if tokens.len() == 3 {
            let t2 = tokens.pop().unwrap();
            let t1 = tokens.pop().unwrap();
            let t0 = tokens.pop().unwrap();
            proof {
                assert(toks_of(tokens@.push(t0).push(t1).push(t2)) =~= lex_spec(s@));
                assert(lex_spec(s@)[0] == tok_of(t0));
                assert(lex_spec(s@)[1] == tok_of(t1));
                assert(lex_spec(s@)[2] == tok_of(t2));
            }
            match (t0, t1, t2) {
                (Token::Tag(tag), Token::Equals, Token::Value(value)) => Ok(
                    TagValuePair { tag, value: Some(value) },
                ),
                _ => Err(TagValuePairParseError),
            }
        } else if tokens.len() == 1 {
            let t0 = tokens.pop().unwrap();
            proof {
                assert(toks_of(tokens@.push(t0)) =~= lex_spec(s@));
                assert(lex_spec(s@)[0] == tok_of(t0));
            }
            match t0 {
                Token::Tag(tag) => Ok(TagValuePair { tag, value: None }),
                _ => Err(TagValuePairParseError),
            }
        } else {
            Err(TagValuePairParseError)
        }
    }
}

impl Tag for TagValuePair {
    open spec fn tag_spec(&self) -> Seq<char> {
        self.tag@
    }

    open spec fn value_spec(&self) -> Option<Seq<char>> {
        match self.value {
            Some(v) => Some(v@),
            None => None,
        }
    }

    fn tag(&self) -> (r: &str) {
        self.tag.as_str()
    }

    fn value(&self) -> (r: Option<&str>) {
        match &self.value {
            Some(v) => Some(v.as_str()),
            None => None,
        }
    }
}

impl core::str::FromStr for TagValuePair {
    type Err = TagValuePairParseError;

    fn from_str(s: &str) -> Result<Self, Self::Err> {
        TagValuePair::parse(s)
    }
}

/// The plain rendering of a tag with an optional value: `tag` or
/// `tag=value`.
pub open spec fn simple_fmt(tag: Seq<char>, value: Option<Seq<char>>) -> Seq<char> {
    match value {
        Some(v) => tag + "="@ + v,
        None => tag,
    }
}

/// Newtype wrapper struct to print a tag mapping plainly.
///
/// A newtype is used (rather than a method on each carrier) because it
/// allows the easy creation of multiple differing renderings.
pub struct SimpleTagFormatter<'a, T: Tag>(pub &'a T);

impl<'a, T: Tag> SimpleTagFormatter<'a, T> {
    /// Renders `tag` or `tag=value`, with the value verbatim.
    pub fn render(&self) -> (r: String)
        ensures
            r@ == simple_fmt(self.0.tag_spec(), self.0.value_spec()),
    {
        let t = self.0.tag();
        match self.0.value() {
            Some(v) => {
                let mut s = String::from_str(t);
                s.append("=");
                s.append(v);
                s
            },
            None => String::from_str(t),
        }
    }
}

/// One character of an escaped value: a quote, space, backslash or
/// parenthesis is preceded by a backslash.
pub open spec fn escaped_char(c: char) -> Seq<char> {
    if c == '"' || c == ' ' || c == '\\' || c == '(' || c == ')' {
        seq!['\\', c]
    } else {
        seq![c]
    }
}

/// A value with the query language's delimiters escaped.
pub open spec fn escaped_value(v: Seq<char>) -> Seq<char>
    decreases v.len(),
{
    if v.len() == 0 {
        Seq::<char>::empty()
    } else {
        escaped_char(v[0]) + escaped_value(v.drop_first())
    }
}

proof fn lemma_escaped_value_push(p: Seq<char>, c: char)
    ensures
        escaped_value(p.push(c)) == escaped_value(p) + escaped_char(c),
    decreases p.len(),
{
    if p.len() == 0 {
        assert(p.push(c).drop_first() =~= p);
        assert(escaped_char(c) + Seq::<char>::empty() =~= escaped_char(c));
        assert(Seq::<char>::empty() + escaped_char(c) =~= escaped_char(c));
    } else {
        assert(p.push(c).drop_first() =~= p.drop_first().push(c));
        lemma_escaped_value_push(p.drop_first(), c);
        assert(escaped_char(p[0]) + (escaped_value(p.drop_first()) + escaped_char(c)) =~= (
        escaped_char(p[0]) + escaped_value(p.drop_first())) + escaped_char(c));
    }
}

/// The escaped rendering of a tag with an optional value: `tag` or
/// `tag=value` with quotes, spaces, backslashes and parentheses in the
/// value escaped.
pub open spec fn escaped_fmt(tag: Seq<char>, value: Option<Seq<char>>) -> Seq<char> {
    match value {
        Some(v) => tag + "="@ + escaped_value(v),
        None => tag,
    }
}

/// Implements a rendering of a tag-and-value carrier where the value is
/// correctly escaped for the query lexer.
pub struct EscapedTagFormatter<'a, T: Tag>(pub &'a T);

impl<'a, T: Tag> EscapedTagFormatter<'a, T> {
    /// Renders `tag` or `tag=value` with the value's delimiters escaped.
    pub fn render(&self) -> (r: String)
        ensures
            r@ == escaped_fmt(self.0.tag_spec(), self.0.value_spec()),
    {
        let t = self.0.tag();
        match self.0.value() {
            Some(v) => {
                let mut s = String::from_str(t);
                s.append("=");
                let cs = str_to_chars(v);
                let mut out: Vec<char> = Vec::new();
                let mut i: usize = 0;
                proof {
                    assert(v@.take(0) =~= Seq::<char>::empty());
                }
                while i < cs.len()
                    invariant
                        cs@ == v@,
                        i <= v@.len(),
                        out@ == escaped_value(v@.take(i as int)),
                    decreases v@.len() - i,
                {
                    let c = cs[i];
                    if c == '"' || c == ' ' || c == '\\' || c == '(' || c == ')' {
                        out.push('\\');
                        out.push(c);
                    } else {
                        out.push(c);
                    }
                    i += 1;
                    proof {
                        lemma_escaped_value_push(v@.take(i - 1), v@[i - 1]);
                        assert(v@.take(i as int) =~= v@.take(i - 1).push(v@[i - 1]));
                        assert(out@ =~= escaped_value(v@.take(i - 1)) + escaped_char(v@[i - 1]));
                    }
                }
                proof {
                    assert(v@.take(v@.len() as int) =~= v@);
                }
                let out_str = crate::text::chars_to_string(&out);
                s.append(out_str.as_str());
                s
            },
            None => String::from_str(t),
        }
    }
}

/// The rendering of a list of strings: each item in double quotes,
/// separated by commas.
pub open spec fn list_fmt(xs: Seq<Seq<char>>) -> Seq<char>
    decreases xs.len(),
{
    if xs.len() == 0 {
        Seq::<char>::empty()
    } else if xs.len() == 1 {
        "\""@ + xs[0] + "\""@
    } else {
        list_fmt(xs.drop_last()) + ", \""@ + xs.last() + "\""@
    }
}

/// Wrapper struct to render a list of strings.
pub struct ListFormatter<'a>(pub &'a Vec<String>);

impl<'a> ListFormatter<'a> {
    /// Renders the items, each in double quotes, comma-separated.
    pub fn render(&self) -> (r: String)
        ensures
            r@ == list_fmt(views_of(self.0@)),
    {
        let mut s = String::new();
        let n = self.0.len();
        let mut i: usize = 0;
        proof {
            assert(views_of(self.0@).take(0) =~= Seq::<Seq<char>>::empty());
        }
        while i < n
            invariant
                n == self.0@.len(),
                i <= n,
                s@ == list_fmt(views_of(self.0@).take(i as int)),
            decreases n - i,
        {
            if i == 0 {
                s.append("\"");
            } else {
                s.append(", \"");
            }
            s.append(self.0[i].as_str());
            s.append("\"");
            i += 1;
            proof {
                let vs = views_of(self.0@);
                assert(vs[i - 1] == self.0@[i - 1]@);
                assert(vs.take(i as int).drop_last() =~= vs.take(i - 1));
                assert(vs.take(i as int).last() == vs[i - 1]);
                if i == 1 {
                    assert(s@ =~= "\""@ + vs[0] + "\""@);
                    assert(list_fmt(vs.take(1)) == "\""@ + vs.take(1)[0] + "\""@);
                } else {
                    assert(s@ =~= list_fmt(vs.take(i - 1)) + ", \""@ + vs[i - 1] + "\""@);
                }
            }
        }
        proof {
            assert(views_of(self.0@).take(n as int) =~= views_of(self.0@));
        }
        s
    }
}

/// Ready to execute query.
pub struct Query {
    raw: String,
    sql: String,
    params: Vec<String>,
}

impl Query {
    /// The raw query text this was built from.
    pub closed spec fn raw_spec(&self) -> Seq<char> {
        self.raw@
    }

    /// The selection text.
    pub closed spec fn sql_spec(&self) -> Seq<char> {
        self.sql@
    }

    /// The bound parameters.
    pub closed spec fn params_spec(&self) -> Seq<Seq<char>> {
        views_of(self.params@)
    }

    // To build a query it is simply split into tokens and converted
    // directly to a selection.  There is no need for proper parsing because
    // the query language has the same structure as the selection language.
    /// Builds a query, or rejects a malformed one.
    pub fn from_raw(s: &str, case_sensitive: bool) -> (r: Result<Query, TagError>)
        ensures
            match r {
                Ok(q) => to_sql_spec(lex_spec(s@), case_sensitive) matches Some(p) && q.sql_spec()
                    == spec_sql_select_start() + p.0 + spec_sql_tail() && q.params_spec() == p.1
                    && q.raw_spec() == s@,
                Err(e) => to_sql_spec(lex_spec(s@), case_sensitive) is None && e
                    is InvalidQuery,
            },
    {
        let tokens = lex_query(s);
        let translated = to_sql(&tokens, case_sensitive);
        match translated {
            Ok(p) => Ok(Query { raw: String::from_str(s), sql: p.0, params: p.1 }),
            Err(e) => Err(e),
        }
    }

    /// Runs the query on the provided database and returns the list of
    /// `(path, mapping id)` pairs that match, in mapping-id (that is,
    /// insertion) order.
    pub fn execute(self, db: &mut super::Database) -> (r: Result<Vec<(String, u64)>, TagError>)
        ensures
            r matches Err(e) ==> e is Store,
    {
        let mut values: Vec<super::sqlite::SqlParam> = Vec::new();
        let mut params = self.params;
        while params.len() > 0
            decreases params@.len(),
        {
            let p = params.remove(0);
            values.push(super::sqlite::SqlParam::Text(p));
        }
        match super::sqlite::query_path_ids(
            &db.conn,
            self.sql.as_str(),
            super::sqlite::params_to_values(values),
        ) {
            Ok(rows) => Ok(rows),
            Err(e) => Err(TagError::Store(e)),
        }
    }
}


// ---------------------------------------------------------------------
// Rendering a token stream back to query text, and the laws tying the
// lexer, the renderer and the escaped tag formatter together.

/// One character of a quoted value: a quote or backslash is preceded by a
/// backslash.
pub open spec fn quote_esc_char(c: char) -> Seq<char> {
    if c == '"' || c == '\\' {
        seq!['\\', c]
    } else {
        seq![c]
    }
}

/// A value with quotes and backslashes escaped, for use inside a quoted
/// literal.
pub open spec fn quote_escaped(v: Seq<char>) -> Seq<char>
    decreases v.len(),
{
    if v.len() == 0 {
        Seq::<char>::empty()
    } else {
        quote_esc_char(v[0]) + quote_escaped(v.drop_first())
    }
}

/// The canonical text of one token: values are rendered quoted and
/// escaped, so any value at all survives the trip through the lexer.
pub open spec fn render_tok_spec(t: Tok) -> Seq<char> {
    match t {
        Tok::LeftParen => "("@,
        Tok::RightParen => ")"@,
        Tok::And => "and"@,
        Tok::Or => "or"@,
        Tok::Not => "not"@,
        Tok::StrictEquals => "=="@,
        Tok::Equals => "="@,
        Tok::LessThan => "<"@,
        Tok::GreaterThan => ">"@,
        Tok::Tag(s) => s,
        Tok::Value(v) => seq!['"'] + quote_escaped(v) + seq!['"'],
    }
}

/// The canonical text of a token stream: each token's text followed by a
/// single space.
pub open spec fn render_toks_spec(ts: Seq<Tok>) -> Seq<char>
    decreases ts.len(),
{
    if ts.len() == 0 {
        Seq::<char>::empty()
    } else {
        render_tok_spec(ts[0]) + seq![' '] + render_toks_spec(ts.drop_first())
    }
}

/// A word the lexer reads back as this tag: non-empty, free of
/// terminator characters, and not a reserved boolean word.
pub open spec fn legal_tag(s: Seq<char>) -> bool {
    &&& s.len() > 0
    &&& forall|k: int| 0 <= k < s.len() ==> !is_tag_terminator(#[trigger] s[k])
    &&& word_tok(s) is Tag
}

/// A token stream the renderer can print and the lexer read back: a
/// value stands exactly after each comparison operator, and every tag is
/// legal.
pub open spec fn legal_toks(ts: Seq<Tok>) -> bool {
    &&& forall|i: int|
        0 <= i < ts.len() && (#[trigger] ts[i]) is Value ==> i > 0 && is_comparison_tok(
            ts[i - 1],
        )
    &&& forall|i: int|
        0 <= i < ts.len() && is_comparison_tok(#[trigger] ts[i]) ==> i + 1 < ts.len() && ts[i
            + 1] is Value
    &&& forall|i: int|
        0 <= i < ts.len() ==> ((#[trigger] ts[i]) matches Tok::Tag(s) ==> legal_tag(s))
}

/// A run of non-terminator characters followed by a terminator reads as
/// a word of exactly the run's length.
proof fn lemma_tag_ext_concat(u: Seq<char>, v: Seq<char>)
    requires
        forall|k: int| 0 <= k < u.len() ==> !is_tag_terminator(#[trigger] u[k]),
        v.len() > 0 ==> is_tag_terminator(v[0]),
    ensures
        tag_ext_len(u + v) == u.len(),
    decreases u.len(),
{
    if u.len() == 0 {
        assert(u + v =~= v);
    } else {
        assert((u + v)[0] == u[0]);
        assert((u + v).drop_first() =~= u.drop_first() + v);
        lemma_tag_ext_concat(u.drop_first(), v);
    }
}

/// Scanning a quoted escaped value stops at the closing quote and yields
/// the original value.
proof fn lemma_value_scan_quoted(v: Seq<char>, tail: Seq<char>)
    requires
        tail.len() > 0,
        tail[0] == '"',
    ensures
        value_scan(quote_escaped(v) + tail, true, false) == (v, quote_escaped(v).len() as nat),
    decreases v.len(),
{
    if v.len() == 0 {
        assert(quote_escaped(v) + tail =~= tail);
        assert(value_scan(tail, true, false) == (Seq::<char>::empty(), 0nat));
        assert(v =~= Seq::<char>::empty());
    } else {
        let c = v[0];
        let e = quote_esc_char(c);
        let restv = v.drop_first();
        assert(quote_escaped(v) == e + quote_escaped(restv));
        lemma_value_scan_quoted(restv, tail);
        if c == '"' || c == '\\' {
            let s = quote_escaped(v) + tail;
            assert(s[0] == '\\');
            assert(s.drop_first() =~= seq![c] + (quote_escaped(restv) + tail));
            let s1 = s.drop_first();
            assert(s1[0] == c);
            assert(s1.drop_first() =~= quote_escaped(restv) + tail);
            assert(value_scan(s1, true, true) == (
                seq![c] + value_scan(quote_escaped(restv) + tail, true, false).0,
                (value_scan(quote_escaped(restv) + tail, true, false).1 + 1) as nat,
            ));
            assert(seq![c] + restv =~= v);
            assert(value_scan(s, true, false).0 == v);
            assert(value_scan(s, true, false).1 == quote_escaped(v).len());
        } else {
            let s = quote_escaped(v) + tail;
            assert(e =~= seq![c]);
            assert(s[0] == c);
            assert(c != '"');
            assert(s.drop_first() =~= quote_escaped(restv) + tail);
            if c == '\\' {
                assert(false);
            }
            assert(seq![c] + restv =~= v);
            assert(value_scan(s, true, false).0 == v);
            assert(value_scan(s, true, false).1 == quote_escaped(v).len());
        }
    }
}

/// Scanning a bare escaped value (with nothing after it) consumes it all
/// and yields the original value.
proof fn lemma_value_scan_bare(v: Seq<char>)
    ensures
        value_scan(escaped_value(v), false, false) == (v, escaped_value(v).len() as nat),
    decreases v.len(),
{
    if v.len() == 0 {
        assert(escaped_value(v) =~= Seq::<char>::empty());
        assert(v =~= Seq::<char>::empty());
    } else {
        let c = v[0];
        let e = escaped_char(c);
        let restv = v.drop_first();
        assert(escaped_value(v) == e + escaped_value(restv));
        lemma_value_scan_bare(restv);
        if c == '"' || c == ' ' || c == '\\' || c == '(' || c == ')' {
            let s = escaped_value(v) + Seq::<char>::empty();
            assert(escaped_value(v) =~= seq!['\\', c] + escaped_value(restv));
            assert(escaped_value(v)[0] == '\\');
            assert(escaped_value(v).drop_first() =~= seq![c] + escaped_value(restv));
            let s1 = escaped_value(v).drop_first();
            assert(s1[0] == c);
            assert(s1.drop_first() =~= escaped_value(restv));
            assert(value_scan(s1, false, true) == (
                seq![c] + value_scan(escaped_value(restv), false, false).0,
                (value_scan(escaped_value(restv), false, false).1 + 1) as nat,
            ));
            assert(seq![c] + restv =~= v);
            assert(value_scan(escaped_value(v), false, false).0 == v);
            assert(value_scan(escaped_value(v), false, false).1 == escaped_value(v).len());
        } else {
            assert(e =~= seq![c]);
            assert(escaped_value(v)[0] == c);
            assert(escaped_value(v).drop_first() =~= escaped_value(restv));
            assert(seq![c] + restv =~= v);
            assert(value_scan(escaped_value(v), false, false).0 == v);
            assert(value_scan(escaped_value(v), false, false).1 == escaped_value(v).len());
        }
    }
}


proof fn lemma_legal_drop1(ts: Seq<Tok>)
    requires
        legal_toks(ts),
        ts.len() > 0,
        !is_comparison_tok(ts[0]),
    ensures
        legal_toks(ts.drop_first()),
{
    let d = ts.drop_first();
    assert forall|i: int| 0 <= i < d.len() && (#[trigger] d[i]) is Value implies i > 0
        && is_comparison_tok(d[i - 1]) by {
        assert(d[i] == ts[i + 1]);
        assert(ts[i + 1] is Value ==> i + 1 > 0 && is_comparison_tok(ts[i]));
        if i > 0 {
            assert(d[i - 1] == ts[i]);
        }
    }
    assert forall|i: int| 0 <= i < d.len() && is_comparison_tok(#[trigger] d[i]) implies i + 1
        < d.len() && d[i + 1] is Value by {
        assert(d[i] == ts[i + 1]);
        assert(ts[i + 2] is Value);
        assert(d[i + 1] == ts[i + 2]);
    }
    assert forall|i: int| 0 <= i < d.len() implies ((#[trigger] d[i]) matches Tok::Tag(s)
        ==> legal_tag(s)) by {
        assert(d[i] == ts[i + 1]);
    }
}

proof fn lemma_legal_drop2(ts: Seq<Tok>)
    requires
        legal_toks(ts),
        ts.len() >= 2,
        is_comparison_tok(ts[0]),
        ts[1] is Value,
    ensures
        legal_toks(ts.skip(2)),
{
    let d = ts.skip(2);
    assert forall|i: int| 0 <= i < d.len() && (#[trigger] d[i]) is Value implies i > 0
        && is_comparison_tok(d[i - 1]) by {
        assert(d[i] == ts[i + 2]);
        assert(ts[i + 2] is Value ==> is_comparison_tok(ts[i + 1]));
        if i == 0 {
            assert(ts[1] is Value);
            assert(!is_comparison_tok(ts[1]));
            assert(!(ts[2] is Value));
        } else {
            assert(d[i - 1] == ts[i + 1]);
        }
    }
    assert forall|i: int| 0 <= i < d.len() && is_comparison_tok(#[trigger] d[i]) implies i + 1
        < d.len() && d[i + 1] is Value by {
        assert(d[i] == ts[i + 2]);
        assert(ts[i + 3] is Value);
        assert(d[i + 1] == ts[i + 3]);
    }
    assert forall|i: int| 0 <= i < d.len() implies ((#[trigger] d[i]) matches Tok::Tag(s)
        ==> legal_tag(s)) by {
        assert(d[i] == ts[i + 2]);
    }
}

proof fn lemma_lex_word_step(s: Seq<char>, rest_text: Seq<char>)
    requires
        s.len() > 0,
        forall|k: int| 0 <= k < s.len() ==> !is_tag_terminator(#[trigger] s[k]),
    ensures
        lex_spec(s + seq![' '] + rest_text) == seq![word_tok(s)] + lex_spec(rest_text),
{
    let text = s + seq![' '] + rest_text;
    assert(text[0] == s[0]);
    assert(!is_tag_terminator(s[0]));
    assert(text.drop_first() =~= s.drop_first() + (seq![' '] + rest_text));
    lemma_tag_ext_concat(s.drop_first(), seq![' '] + rest_text);
    assert((seq![' '] + rest_text)[0] == ' ');
    assert(tag_ext_len(text.drop_first()) == s.len() - 1);
    assert(text.take(s.len() as int) =~= s);
    assert(text.skip(s.len() as int) =~= seq![' '] + rest_text);
    let after = seq![' '] + rest_text;
    assert(after[0] == ' ');
    assert(after.drop_first() =~= rest_text);
    assert(lex_spec(after) == lex_spec(rest_text));
    assert(lex_spec(text) == seq![word_tok(s)] + lex_spec(rest_text));
}

proof fn lemma_lex_value_step(v: Seq<char>, rest_text: Seq<char>)
    ensures
        ({
            let after = seq![' '] + (seq!['"'] + quote_escaped(v) + seq!['"']) + seq![' ']
                + rest_text;
            lex_after_op(after) == (v, (3 + quote_escaped(v).len()) as nat)
                && after.skip(lex_after_op(after).1 as int) == seq![' '] + rest_text
        }),
{
    let rtv = seq!['"'] + quote_escaped(v) + seq!['"'];
    let after = seq![' '] + rtv + seq![' '] + rest_text;
    assert(after[0] == ' ');
    assert(after.drop_first() =~= rtv + seq![' '] + rest_text);
    let a1 = after.drop_first();
    assert(a1[0] == '"');
    assert(space_len(a1) == 0);
    assert(space_len(after) == 1);
    assert(after.skip(1) =~= a1);
    let tail2 = seq!['"'] + seq![' '] + rest_text;
    assert(a1.drop_first() =~= quote_escaped(v) + tail2);
    assert(tail2[0] == '"');
    lemma_value_scan_quoted(v, tail2);
    let s2 = a1.drop_first();
    let scanned = value_scan(s2, true, false);
    assert(scanned.0 == v);
    assert(scanned.1 == quote_escaped(v).len());
    assert(s2.skip(scanned.1 as int) =~= tail2);
    assert(tail2[0] == '"');
    assert(lex_after_op(after).0 == v);
    assert(lex_after_op(after).1 == 1 + 1 + quote_escaped(v).len() + 1);
    assert(after.skip((3 + quote_escaped(v).len()) as int) =~= seq![' '] + rest_text);
}

proof fn lemma_lex_keyword_step(t: Tok, rest_text: Seq<char>)
    requires
        t is And || t is Or || t is Not,
    ensures
        lex_spec(render_tok_spec(t) + seq![' '] + rest_text) == seq![t] + lex_spec(rest_text),
{
    reveal_strlit("and");
    reveal_strlit("AND");
    reveal_strlit("or");
    reveal_strlit("OR");
    reveal_strlit("not");
    reveal_strlit("NOT");
    let s = render_tok_spec(t);
    assert forall|k: int| 0 <= k < s.len() implies !is_tag_terminator(#[trigger] s[k]) by {
        if t is And {
            assert(s == "and"@);
        } else if t is Or {
            assert(s == "or"@);
        } else {
            assert(s == "not"@);
        }
    }
    lemma_lex_word_step(s, rest_text);
    assert(reserved_lower(s) =~= s);
    assert(word_tok(s) == t);
}

proof fn lemma_lex_paren_step(t: Tok, rest_text: Seq<char>)
    requires
        t is LeftParen || t is RightParen,
    ensures
        lex_spec(render_tok_spec(t) + seq![' '] + rest_text) == seq![t] + lex_spec(rest_text),
{
    reveal_strlit("(");
    reveal_strlit(")");
    let text = render_tok_spec(t) + seq![' '] + rest_text;
    if t is LeftParen {
        assert(text[0] == '(');
    } else {
        assert(text[0] == ')');
    }
    assert(text.drop_first() =~= seq![' '] + rest_text);
    assert((seq![' '] + rest_text)[0] == ' ');
    assert((seq![' '] + rest_text).drop_first() =~= rest_text);
    assert(lex_spec(seq![' '] + rest_text) == lex_spec(rest_text));
    if t is LeftParen {
        assert(lex_spec(text) == seq![Tok::LeftParen] + lex_spec(rest_text));
    } else {
        assert(lex_spec(text) == seq![Tok::RightParen] + lex_spec(rest_text));
    }
}

proof fn lemma_lex_op_step(t: Tok, v: Seq<char>, rest2: Seq<char>)
    requires
        is_comparison_tok(t),
    ensures
        lex_spec(
            render_tok_spec(t) + seq![' '] + ((seq!['"'] + quote_escaped(v) + seq!['"'])
                + seq![' '] + rest2),
        ) == seq![t, Tok::Value(v)] + lex_spec(rest2),
{
    reveal_strlit("==");
    reveal_strlit("=");
    reveal_strlit("<");
    reveal_strlit(">");
    let rtv = seq!['"'] + quote_escaped(v) + seq!['"'];
    let rest_text = rtv + seq![' '] + rest2;
    let text = render_tok_spec(t) + seq![' '] + rest_text;
    let after = seq![' '] + rtv + seq![' '] + rest2;
    lemma_lex_value_step(v, rest2);
    assert(after =~= seq![' '] + (seq!['"'] + quote_escaped(v) + seq!['"']) + seq![' ']
        + rest2);
    assert((seq![' '] + rest2)[0] == ' ');
    assert((seq![' '] + rest2).drop_first() =~= rest2);
    assert(lex_spec(seq![' '] + rest2) == lex_spec(rest2));
    if t is StrictEquals {
        assert(render_tok_spec(t) == "=="@);
        assert(text[0] == '=');
        assert(text.len() > 1 && text[1] == '=');
        assert(text.skip(2) =~= after);
    } else if t is Equals {
        assert(render_tok_spec(t) == "="@);
        assert(text[0] == '=');
        assert(text[1] == ' ');
        assert(text.skip(1) =~= after);
    } else if t is LessThan {
        assert(render_tok_spec(t) == "<"@);
        assert(text[0] == '<');
        assert(text.skip(1) =~= after);
    } else {
        assert(render_tok_spec(t) == ">"@);
        assert(text[0] == '>');
        assert(text.skip(1) =~= after);
    }
}

/// Query lexer idempotence on tokens: rendering any legal token stream to
/// text and lexing it back returns exactly that stream.
pub proof fn lemma_lex_render_roundtrip(ts: Seq<Tok>)
    requires
        legal_toks(ts),
    ensures
        lex_spec(render_toks_spec(ts)) == ts,
    decreases ts.len(),
{
    if ts.len() == 0 {
        assert(render_toks_spec(ts) == Seq::<char>::empty());
        assert(lex_spec(render_toks_spec(ts)) =~= ts);
    } else {
        let t = ts[0];
        let text = render_toks_spec(ts);
        let rest_text = render_toks_spec(ts.drop_first());
        assert(text == render_tok_spec(t) + seq![' '] + rest_text);
        match t {
            Tok::Tag(s) => {
                assert(legal_tag(s));
                lemma_legal_drop1(ts);
                lemma_lex_render_roundtrip(ts.drop_first());
                lemma_lex_word_step(s, rest_text);
                assert(word_tok(s) == t);
                assert(seq![t] + ts.drop_first() =~= ts);
            },
            Tok::And | Tok::Or | Tok::Not => {
                lemma_legal_drop1(ts);
                lemma_lex_render_roundtrip(ts.drop_first());
                lemma_lex_keyword_step(t, rest_text);
                assert(seq![t] + ts.drop_first() =~= ts);
            },
            Tok::LeftParen | Tok::RightParen => {
                lemma_legal_drop1(ts);
                lemma_lex_render_roundtrip(ts.drop_first());
                lemma_lex_paren_step(t, rest_text);
                assert(seq![t] + ts.drop_first() =~= ts);
            },
            Tok::Value(_) => {
                assert(false);
            },
            Tok::StrictEquals | Tok::Equals | Tok::LessThan | Tok::GreaterThan => {
                assert(is_comparison_tok(ts[0]));
                assert(ts.len() >= 2 && ts[1] is Value);
                let v = ts[1]->Value_0;
                let rest2 = render_toks_spec(ts.skip(2));
                assert(ts.drop_first()[0] == ts[1]);
                assert(ts.drop_first().drop_first() =~= ts.skip(2));
                assert(rest_text == render_tok_spec(ts[1]) + seq![' '] + rest2);
                assert(render_tok_spec(ts[1]) == seq!['"'] + quote_escaped(v) + seq!['"']);
                lemma_legal_drop2(ts);
                lemma_lex_render_roundtrip(ts.skip(2));
                lemma_lex_op_step(t, v, rest2);
                assert(text =~= render_tok_spec(t) + seq![' '] + ((seq!['"'] + quote_escaped(v)
                    + seq!['"']) + seq![' '] + rest2));
                assert(seq![t, ts[1]] + ts.skip(2) =~= ts);
            },
        }
    }
}


/// Lex–quote round trip: parsing the escaped rendering of a tag with an
/// optional value returns an equal `(tag, value)` pair.  The rendering
/// does not escape `=`, so a value beginning with `=` (which would print
/// as the strict-equality operator) is left out.
#[verifier::rlimit(60)]
pub proof fn lemma_escaped_tag_roundtrip(tag: Seq<char>, value: Option<Seq<char>>)
    requires
        legal_tag(tag),
        value matches Some(v) ==> (v.len() == 0 || v[0] != '='),
    ensures
        parse_tag_value_spec(escaped_fmt(tag, value)) == Some((tag, value)),
{
    reveal_strlit("=");
    match value {
        None => {
            let text = escaped_fmt(tag, value);
            assert(text == tag);
            assert(text[0] == tag[0]);
            assert(!is_tag_terminator(text[0]));
            assert(tag.drop_first() + Seq::<char>::empty() =~= tag.drop_first());
            lemma_tag_ext_concat(tag.drop_first(), Seq::<char>::empty());
            assert(tag_ext_len(tag.drop_first()) == tag.len() - 1);
            assert(text.take(tag.len() as int) =~= tag);
            assert(text.skip(tag.len() as int) =~= Seq::<char>::empty());
            assert(lex_spec(text) == seq![word_tok(tag)] + lex_spec(Seq::<char>::empty()));
            assert(word_tok(tag) == Tok::Tag(tag));
            assert(seq![Tok::Tag(tag)] + Seq::<Tok>::empty() =~= seq![Tok::Tag(tag)]);
            let ts = lex_spec(text);
            assert(ts.len() == 1 && ts[0] is Tag);
            assert(ts[0]->Tag_0 == tag);
        },
        Some(v) => {
            let ev = escaped_value(v);
            let tail = "="@ + ev;
            let text = escaped_fmt(tag, value);
            assert(text == tag + "="@ + ev);
            assert(text =~= tag + tail);
            assert(text[0] == tag[0]);
            assert(!is_tag_terminator(text[0]));
            assert(tail[0] == '=');
            assert(text.drop_first() =~= tag.drop_first() + tail);
            lemma_tag_ext_concat(tag.drop_first(), tail);
            assert(tag_ext_len(text.drop_first()) == tag.len() - 1);
            assert(text.take(tag.len() as int) =~= tag);
            assert(text.skip(tag.len() as int) =~= tail);
            assert(word_tok(tag) == Tok::Tag(tag));
            // The escaped value starts with a backslash or an ordinary
            // character, so the lone `=` is the containment operator and
            // no quote or space is taken off the front.
            assert(v.len() > 0 ==> (escaped_char(v[0]).len() >= 1 && ev[0] == escaped_char(
                v[0],
            )[0]));
            if v.len() > 0 {
                assert(ev =~= escaped_char(v[0]) + escaped_value(v.drop_first()));
            } else {
                assert(ev =~= Seq::<char>::empty());
            }
            assert(tail.len() == 1 + ev.len());
            if ev.len() > 0 {
                assert(tail[1] == ev[0]);
                assert(ev[0] != '=');
                assert(ev[0] != ' ');
                assert(ev[0] != '"');
            }
            let double = tail[0] == '=' && tail.len() > 1 && tail[1] == '=';
            assert(!double);
            assert(tail.skip(1) =~= ev);
            assert(space_len(ev) == 0);
            assert(ev.skip(0) =~= ev);
            let quoted = ev.len() > 0 && ev[0] == '"';
            assert(!quoted);
            lemma_value_scan_bare(v);
            assert(value_scan(ev, false, false) == (v, ev.len() as nat));
            assert(ev.skip(ev.len() as int) =~= Seq::<char>::empty());
            assert(lex_after_op(ev).0 == v);
            assert(lex_after_op(ev).1 == ev.len());
            assert(lex_spec(tail) == seq![Tok::Equals, Tok::Value(v)] + lex_spec(
                Seq::<char>::empty(),
            ));
            assert(lex_spec(text) == seq![Tok::Tag(tag)] + lex_spec(tail));
            assert(seq![Tok::Tag(tag)] + (seq![Tok::Equals, Tok::Value(v)] + Seq::<
                Tok,
            >::empty()) =~= seq![Tok::Tag(tag), Tok::Equals, Tok::Value(v)]);
            let ts = lex_spec(text);
            assert(ts.len() == 3 && ts[0] is Tag && ts[1] is Equals && ts[2] is Value);
            assert(ts[0]->Tag_0 == tag);
            assert(ts[2]->Value_0 == v);
        },
    }
}


proof fn lemma_quote_escaped_push(p: Seq<char>, c: char)
    ensures
        quote_escaped(p.push(c)) == quote_escaped(p) + quote_esc_char(c),
    decreases p.len(),
{
    if p.len() == 0 {
        assert(p.push(c).drop_first() =~= p);
        assert(quote_esc_char(c) + Seq::<char>::empty() =~= quote_esc_char(c));
        assert(Seq::<char>::empty() + quote_esc_char(c) =~= quote_esc_char(c));
    } else {
        assert(p.push(c).drop_first() =~= p.drop_first().push(c));
        lemma_quote_escaped_push(p.drop_first(), c);
        assert(quote_esc_char(p[0]) + (quote_escaped(p.drop_first()) + quote_esc_char(c)) =~= (
        quote_esc_char(p[0]) + quote_escaped(p.drop_first())) + quote_esc_char(c));
    }
}

proof fn lemma_render_toks_push(p: Seq<Tok>, t: Tok)
    ensures
        render_toks_spec(p.push(t)) == render_toks_spec(p) + (render_tok_spec(t) + seq![' ']),
    decreases p.len(),
{
    if p.len() == 0 {
        assert(p.push(t).drop_first() =~= p);
        assert(p.push(t)[0] == t);
        assert((render_tok_spec(t) + seq![' ']) + Seq::<char>::empty() =~= render_tok_spec(t)
            + seq![' ']);
        assert(Seq::<char>::empty() + (render_tok_spec(t) + seq![' ']) =~= render_tok_spec(t)
            + seq![' ']);
        assert(render_toks_spec(p.push(t)) =~= render_tok_spec(t) + seq![' ']
            + render_toks_spec(p));
    } else {
        assert(p.push(t).drop_first() =~= p.drop_first().push(t));
        assert(p.push(t)[0] == p[0]);
        lemma_render_toks_push(p.drop_first(), t);
        let head = render_tok_spec(p[0]) + seq![' '];
        assert(render_toks_spec(p) == render_tok_spec(p[0]) + seq![' '] + render_toks_spec(
            p.drop_first(),
        ));
        assert((render_tok_spec(p[0]) + seq![' ']) + render_toks_spec(p.drop_first()) =~=
        render_tok_spec(p[0]) + seq![' '] + render_toks_spec(p.drop_first()));
        assert(head + (render_toks_spec(p.drop_first()) + (render_tok_spec(t) + seq![' ']))
            =~= (head + render_toks_spec(p.drop_first())) + (render_tok_spec(t) + seq![' ']));
        assert(render_toks_spec(p.push(t)) =~= (head + render_toks_spec(p.drop_first())) + (
        render_tok_spec(t) + seq![' ']));
    }
}

fn render_one_token(t: &Token) -> (r: String)
    ensures
        r@ == render_tok_spec(tok_of(*t)),
{
    match t {
        Token::LeftParen => String::from_str("("),
        Token::RightParen => String::from_str(")"),
        Token::And => String::from_str("and"),
        Token::Or => String::from_str("or"),
        Token::Not => String::from_str("not"),
        Token::StrictEquals => String::from_str("=="),
        Token::Equals => String::from_str("="),
        Token::LessThan => String::from_str("<"),
        Token::GreaterThan => String::from_str(">"),
        Token::Tag(s) => s.clone(),
        Token::Value(v) => {
            let cs = str_to_chars(v.as_str());
            let mut out: Vec<char> = Vec::new();
            out.push('"');
            let mut k: usize = 0;
            proof {
                assert(out@ =~= seq!['"'] + quote_escaped(v@.take(0)));
            }
            while k < cs.len()
                invariant
                    cs@ == v@,
                    k <= v@.len(),
                    out@ == seq!['"'] + quote_escaped(v@.take(k as int)),
                decreases cs@.len() - k,
            {
                let c = cs[k];
                if c == '"' || c == '\\' {
                    out.push('\\');
                    out.push(c);
                } else {
                    out.push(c);
                }
                k += 1;
                proof {
                    lemma_quote_escaped_push(v@.take(k - 1), v@[k - 1]);
                    assert(v@.take(k as int) =~= v@.take(k - 1).push(v@[k - 1]));
                    assert(out@ =~= seq!['"'] + (quote_escaped(v@.take(k - 1)) + quote_esc_char(
                        v@[k - 1],
                    )));
                }
            }
            out.push('"');
            proof {
                assert(v@.take(v@.len() as int) =~= v@);
                assert(out@ =~= seq!['"'] + quote_escaped(v@) + seq!['"']);
            }
            crate::text::chars_to_string(&out)
        },
    }
}

/// Renders tokens to canonical query text: each token followed by one
/// space, values quoted with `"` and `\` escaped.
pub fn render_tokens(ts: &Vec<Token>) -> (r: String)
    ensures
        r@ == render_toks_spec(toks_of(ts@)),
{
    let mut out = String::new();
    let n = ts.len();
    let mut i: usize = 0;
    proof {
        assert(toks_of(ts@).take(0) =~= Seq::<Tok>::empty());
    }
    while i < n
        invariant
            n == ts@.len(),
            i <= n,
            out@ == render_toks_spec(toks_of(ts@).take(i as int)),
        decreases n - i,
    {
        let piece = render_one_token(&ts[i]);
        out.append(piece.as_str());
        out.append(" ");
        i += 1;
        proof {
            reveal_strlit(" ");
            assert(" "@ =~= seq![' ']);
            let tv = toks_of(ts@);
            assert(tv[i - 1] == tok_of(ts@[i - 1]));
            assert(tv.take(i as int) =~= tv.take(i - 1).push(tv[i - 1]));
            lemma_render_toks_push(tv.take(i - 1), tv[i - 1]);
            assert(out@ =~= render_toks_spec(tv.take(i - 1)) + (render_tok_spec(tv[i - 1])
                + seq![' ']));
        }
    }
    proof {
        assert(toks_of(ts@).take(n as int) =~= toks_of(ts@));
    }
    out
}

} // verus!
